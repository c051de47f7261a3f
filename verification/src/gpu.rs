//! Decisions of the GPU upload path that depend on plain values only:
//! buffer growth, image draw batching, and surface mode selection.

use vstd::prelude::*;
use vstd::arithmetic::power2::pow2;

verus! {

/// Stable identifier for an image loaded into the renderer: its index in the
/// renderer's image table.
#[derive(Copy, Clone, Debug, PartialEq, Eq, Hash, Structural)]
pub struct ImageId(pub u32);

/// `cap` doubled until it reaches `needed`.
pub open spec fn doubled_until(cap: nat, needed: nat) -> nat
    decreases (if needed > cap { needed - cap } else { 0 }) when cap > 0
{
    if cap >= needed {
        cap
    } else {
        doubled_until(2 * cap, needed)
    }
}

/// Doubling a positive capacity until it holds `needed` gives the least
/// capacity of the form `cap * 2^k` that holds it: it holds `needed`, it is
/// `cap` itself or half of it would not hold `needed`, and it is `cap`
/// times a power of two.
pub proof fn lemma_doubled_until_least(cap: nat, needed: nat)
    requires
        cap > 0,
    ensures
        doubled_until(cap, needed) >= needed,
        doubled_until(cap, needed) >= cap,
        doubled_until(cap, needed) == cap || doubled_until(cap, needed) < 2 * needed,
        cap >= needed ==> doubled_until(cap, needed) == cap,
        exists|k: nat| doubled_until(cap, needed) == cap * #[trigger] pow2(k),
    decreases (if needed > cap { needed - cap } else { 0 }),
{
    reveal(vstd::arithmetic::power::pow);
    if cap >= needed {
        assert(pow2(0) == 1);
        assert(doubled_until(cap, needed) == cap * pow2(0));
    } else {
        lemma_doubled_until_least(2 * cap, needed);
        let k = choose|k: nat| doubled_until(2 * cap, needed) == 2 * cap * #[trigger] pow2(k);
        vstd::arithmetic::power2::lemma_pow2_unfold(k + 1);
        assert(pow2(k + 1) == 2 * pow2(k));
        assert(2 * cap * pow2(k) == cap * pow2(k + 1)) by (nonlinear_arith)
            requires
                pow2(k + 1) == 2 * pow2(k),
        ;
        assert(doubled_until(cap, needed) == cap * pow2(k + 1));
    }
}

/// The capacity a growable GPU buffer has after it must hold `needed`
/// elements: unchanged when it already fits, otherwise the current capacity
/// (at least one) doubled until it fits.
pub fn grown_capacity(current: usize, needed: usize) -> (r: usize)
    requires
        needed <= usize::MAX / 2 + 1,
    ensures
        r == (if needed <= current {
            current as nat
        } else {
            doubled_until(if current == 0 { 1 } else { current as nat }, needed as nat)
        }),
        r >= needed,
        r >= current,
        needed > current ==> (r == (if current == 0 { 1 } else { current }) || r < 2 * needed),
        needed > current ==> exists|k: nat| r == (if current == 0 { 1 } else { current as nat }) * #[trigger] pow2(k),
{
    proof {
        lemma_doubled_until_least(if current == 0 { 1 } else { current as nat }, needed as nat);
    }
    if needed <= current {
        return current;
    }
    let mut cap = if current == 0 { 1 } else { current };
    while cap < needed
        invariant
            0 < cap,
            current <= cap,
            needed <= usize::MAX / 2 + 1,
            doubled_until(cap as nat, needed as nat) == doubled_until(
                if current == 0 { 1 } else { current as nat },
                needed as nat,
            ),
        decreases (if needed > cap { needed - cap } else { 0 }),
    {
        cap = cap * 2;
    }
    cap
}

/// One draw call of the image pipeline: `count` consecutive instances from
/// `first` on, all sampling image `image`.
#[derive(Copy, Clone, Debug, PartialEq, Eq, Structural)]
pub struct ImageBatch {
    /// Index of the image in the renderer's image table.
    pub image: usize,
    /// Index of the first instance of the batch.
    pub first: u32,
    /// Number of instances in the batch.
    pub count: u32,
}

/// `b` splits the instances `0..end` into maximal runs of one image, in
/// order: each batch is non-empty, starts where the previous one ended, all
/// its instances use its image, and neighbouring batches use different
/// images.
pub open spec fn is_batching(ids: Seq<ImageId>, b: Seq<ImageBatch>, end: int) -> bool {
    &&& (b.len() == 0 ==> end == 0)
    &&& (b.len() > 0 ==> b[0].first == 0 && b.last().first + b.last().count == end)
    &&& forall|k: int| 0 <= k < b.len() ==> #[trigger] b[k].count > 0
    &&& forall|k: int|
        0 <= k < b.len() - 1 ==> #[trigger] b[k + 1].first == b[k].first + b[k].count
    &&& forall|k: int, i: int|
        0 <= k < b.len() && b[k].first <= i < b[k].first + b[k].count ==> #[trigger] ids[i].0
            == #[trigger] b[k].image
    &&& forall|k: int| 0 <= k < b.len() - 1 ==> #[trigger] b[k].image != b[k + 1].image
}

/// A batching of `0..batch.first` extends to one of
/// `0..batch.first + batch.count` by a non-empty run of one image that differs
/// from the previous batch's image.
proof fn lemma_push_batch(ids: Seq<ImageId>, b: Seq<ImageBatch>, batch: ImageBatch)
    requires
        is_batching(ids, b, batch.first as int),
        batch.count > 0,
        forall|j: int| batch.first <= j < batch.first + batch.count ==> ids[j].0 == batch.image,
        b.len() > 0 ==> b.last().image != batch.image,
    ensures
        is_batching(ids, b.push(batch), batch.first + batch.count),
{
    let c = b.push(batch);
    assert forall|k: int| 0 <= k < c.len() - 1 implies #[trigger] c[k + 1].first == c[k].first
        + c[k].count by {
        if k < b.len() - 1 {
            assert(c[k + 1] == b[k + 1]);
            assert(c[k] == b[k]);
        }
    }
    assert forall|k: int, j: int|
        0 <= k < c.len() && c[k].first <= j < c[k].first + c[k].count implies #[trigger] ids[j].0
        == #[trigger] c[k].image by {
        if k < b.len() {
            assert(c[k] == b[k]);
        }
    }
    assert forall|k: int| 0 <= k < c.len() - 1 implies #[trigger] c[k].image != c[k + 1].image by {
        if k < b.len() - 1 {
            assert(c[k + 1] == b[k + 1]);
            assert(c[k] == b[k]);
        }
    }
    assert forall|k: int| 0 <= k < c.len() implies #[trigger] c[k].count > 0 by {
        if k < b.len() {
            assert(c[k] == b[k]);
        }
    }
}

/// The last batch of a batching starts at an image change (or at `0`), and
/// what comes before it is a batching of the instances before it.
proof fn lemma_last_batch(ids: Seq<ImageId>, b: Seq<ImageBatch>, end: int)
    requires
        is_batching(ids, b, end),
        b.len() > 0,
    ensures
        b.last().first < end,
        forall|i: int| b.last().first <= i < end ==> ids[i].0 == b.last().image,
        b.last().first == 0 || ids[b.last().first - 1].0 != ids[b.last().first as int].0,
        is_batching(ids, b.drop_last(), b.last().first as int),
{
    let n = b.len() - 1;
    let c = b.drop_last();
    assert(b[n].count > 0);
    assert(b.last() == b[n]);
    assert forall|i: int| b.last().first <= i < end implies ids[i].0 == b.last().image by {
        assert(ids[i].0 == b[n].image);
    }
    if n > 0 {
        let m = n - 1;
        assert(b[m + 1].first == b[m].first + b[m].count);
        assert(b[m].image != b[m + 1].image);
        assert(b[n - 1].count > 0);
        let f = b[n].first as int;
        assert(ids[f - 1].0 == b[n - 1].image);
        assert(ids[f].0 == b[n].image);
        assert(b[n - 1].image != b[n].image);
        assert(c.last() == b[n - 1]);
        assert(c[0] == b[0]);
    }
    assert forall|k: int| 0 <= k < c.len() - 1 implies #[trigger] c[k + 1].first == c[k].first
        + c[k].count by {
        assert(c[k + 1] == b[k + 1]);
        assert(c[k] == b[k]);
    }
    assert forall|k: int, j: int|
        0 <= k < c.len() && c[k].first <= j < c[k].first + c[k].count implies #[trigger] ids[j].0
        == #[trigger] c[k].image by {
        assert(c[k] == b[k]);
    }
    assert forall|k: int| 0 <= k < c.len() - 1 implies #[trigger] c[k].image != c[k + 1].image by {
        assert(c[k + 1] == b[k + 1]);
        assert(c[k] == b[k]);
    }
    assert forall|k: int| 0 <= k < c.len() implies #[trigger] c[k].count > 0 by {
        assert(c[k] == b[k]);
    }
}

/// The batches are fixed by the instances alone: any two batchings of the
/// same instances into maximal runs of one image are the same sequence of
/// batches.
pub proof fn lemma_batching_unique(ids: Seq<ImageId>, b1: Seq<ImageBatch>, b2: Seq<ImageBatch>, end: int)
    requires
        is_batching(ids, b1, end),
        is_batching(ids, b2, end),
    ensures
        b1 == b2,
    decreases b1.len(),
{
    if b1.len() == 0 || b2.len() == 0 {
        if b1.len() > 0 {
            assert(b1.last().count > 0);
        }
        if b2.len() > 0 {
            assert(b2.last().count > 0);
        }
        assert(b1 =~= b2);
    } else {
        lemma_last_batch(ids, b1, end);
        lemma_last_batch(ids, b2, end);
        let f1 = b1.last().first as int;
        let f2 = b2.last().first as int;
        if f1 < f2 {
            assert(ids[f2 - 1].0 == b1.last().image);
            assert(ids[f2].0 == b1.last().image);
        }
        if f2 < f1 {
            assert(ids[f1 - 1].0 == b2.last().image);
            assert(ids[f1].0 == b2.last().image);
        }
        assert(f1 == f2);
        assert(ids[f1].0 == b1.last().image);
        assert(ids[f1].0 == b2.last().image);
        assert(b1.last() == b2.last());
        lemma_batching_unique(ids, b1.drop_last(), b2.drop_last(), f1);
        assert(b1 =~= b2.drop_last().push(b2.last()));
        assert(b2 =~= b2.drop_last().push(b2.last()));
    }
}

/// Coalesces consecutive image instances that share an image into one draw
/// batch; order is kept, so instances paint in declaration order.
pub fn image_batches(ids: &[ImageId]) -> (r: Vec<ImageBatch>)
    requires
        ids@.len() <= u32::MAX,
    ensures
        is_batching(ids@, r@, ids@.len() as int),
        forall|b: Seq<ImageBatch>| #[trigger] is_batching(ids@, b, ids@.len() as int) ==> b == r@,
{
    let mut batches: Vec<ImageBatch> = Vec::new();
    let n = ids.len();
    if n == 0 {
        return batches;
    }
    let mut current: usize = ids[0].0 as usize;
    let mut batch_start: usize = 0;
    let mut i: usize = 1;
    while i < n
        invariant
            n == ids@.len(),
            n <= u32::MAX,
            batch_start < i <= n,
            current == ids@[i - 1].0,
            forall|j: int| batch_start <= j < i ==> ids@[j].0 == current,
            is_batching(ids@, batches@, batch_start as int),
            batches@.len() > 0 ==> batches@.last().image != current,
        decreases n - i,
    {
        let image_idx = ids[i].0 as usize;
        if image_idx != current {
            let batch = ImageBatch { image: current, first: batch_start as u32, count: (i - batch_start) as u32 };
            proof {
                lemma_push_batch(ids@, batches@, batch);
            }
            batches.push(batch);
            current = image_idx;
            batch_start = i;
        }
        i += 1;
    }
    let batch = ImageBatch { image: current, first: batch_start as u32, count: (n - batch_start) as u32 };
    proof {
        lemma_push_batch(ids@, batches@, batch);
    }
    batches.push(batch);
    proof {
        assert forall|b: Seq<ImageBatch>| #[trigger] is_batching(ids@, b, ids@.len() as int) implies b
            == batches@ by {
            lemma_batching_unique(ids@, b, batches@, ids@.len() as int);
        }
    }
    batches
}

/// How the surface presents frames (mirrors the GPU API's present modes).
#[derive(Copy, Clone, Debug, PartialEq, Eq, Structural)]
pub enum PresentMode {
    /// Vsync-bound, chosen by the backend.
    AutoVsync,
    /// Uncapped, chosen by the backend.
    AutoNoVsync,
    /// Classic vsync queue.
    Fifo,
    /// Vsync that tears when late.
    FifoRelaxed,
    /// No vsync; may tear.
    Immediate,
    /// Latest-frame-wins without tearing.
    Mailbox,
}

fn has_mode(modes: &[PresentMode], mode: PresentMode) -> (r: bool)
    ensures
        r <==> modes@.contains(mode),
{
    let mut i: usize = 0;
    while i < modes.len()
        invariant
            i <= modes@.len(),
            forall|j: int| 0 <= j < i ==> modes@[j] != mode,
        decreases modes@.len() - i,
    {
        if modes[i] == mode {
            return true;
        }
        i += 1;
    }
    false
}

/// The uncapped present mode the renderer asks for: `Mailbox` when the
/// surface offers it, else `Immediate`, else the surface's first mode.
pub fn choose_present_mode(available: &[PresentMode]) -> (r: PresentMode)
    requires
        available@.len() > 0,
    ensures
        r == (if available@.contains(PresentMode::Mailbox) {
            PresentMode::Mailbox
        } else if available@.contains(PresentMode::Immediate) {
            PresentMode::Immediate
        } else {
            available@[0]
        }),
{
    if has_mode(available, PresentMode::Mailbox) {
        PresentMode::Mailbox
    } else if has_mode(available, PresentMode::Immediate) {
        PresentMode::Immediate
    } else {
        available[0]
    }
}

/// Index of the surface format the renderer uses, given which of the
/// surface's formats are sRGB: the first sRGB one, else the first format.
pub fn choose_surface_format(is_srgb: &[bool]) -> (r: usize)
    requires
        is_srgb@.len() > 0,
    ensures
        r < is_srgb@.len(),
        is_srgb@.contains(true) ==> is_srgb@[r as int] && forall|j: int| 0 <= j < r ==> !is_srgb@[j],
        !is_srgb@.contains(true) ==> r == 0,
{
    let mut i: usize = 0;
    while i < is_srgb.len()
        invariant
            i <= is_srgb@.len(),
            forall|j: int| 0 <= j < i ==> !is_srgb@[j],
        decreases is_srgb@.len() - i,
    {
        if is_srgb[i] {
            return i;
        }
        i += 1;
    }
    0
}

/// What acquiring the next surface texture reported.
#[derive(Copy, Clone, Debug, PartialEq, Eq, Structural)]
pub enum SurfaceStatus {
    /// A texture was acquired.
    Success,
    /// A texture was acquired, but the surface should be reconfigured.
    Suboptimal,
    /// Acquiring timed out.
    Timeout,
    /// The window is occluded.
    Occluded,
    /// The surface configuration is outdated.
    Outdated,
    /// The surface was lost.
    Lost,
    /// A validation error was raised.
    Validation,
}

/// What the frame loop does with an acquire result.
#[derive(Copy, Clone, Debug, PartialEq, Eq, Structural)]
pub enum FrameAction {
    /// Draw into the acquired texture and present it.
    Draw,
    /// Skip this frame silently; the next redraw retries.
    Skip,
    /// Report the status as a render failure.
    Fail,
}

/// Sorts an acquire result: draw on success (optimal or not), skip the
/// frame on the transient timeout / occluded / outdated states, and fail on
/// anything else.
pub fn frame_action(status: SurfaceStatus) -> (r: FrameAction)
    ensures
        r == (match status {
            SurfaceStatus::Success | SurfaceStatus::Suboptimal => FrameAction::Draw,
            SurfaceStatus::Timeout | SurfaceStatus::Occluded | SurfaceStatus::Outdated => FrameAction::Skip,
            SurfaceStatus::Lost | SurfaceStatus::Validation => FrameAction::Fail,
        }),
{
    match status {
        SurfaceStatus::Success | SurfaceStatus::Suboptimal => FrameAction::Draw,
        SurfaceStatus::Timeout | SurfaceStatus::Occluded | SurfaceStatus::Outdated => FrameAction::Skip,
        SurfaceStatus::Lost | SurfaceStatus::Validation => FrameAction::Fail,
    }
}

} // verus!
