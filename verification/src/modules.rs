//! Module registry and the ordered set of running module instances.
//!
//! A module is a way to work (Parallex = project + grid + providers). The
//! subway tabs are running instances of modules, spawned by the user. Home is
//! not a module and not a tab: it is the launcher view, modelled as
//! `Selection::Home`.

use std::time::SystemTime;
use vstd::prelude::*;

verus! {

#[verifier::external_type_specification]
#[verifier::external_body]
pub struct ExSystemTime(SystemTime);

/// Reads the wall clock through `std::time::SystemTime::now`. Nothing is
/// stated of the value: it depends on the machine's clock.
#[verifier::external_body]
fn system_time_now() -> SystemTime {
    SystemTime::now()
}

/// `SystemTime` is `Copy`; its `clone` gives back the same instant.
pub assume_specification[ <SystemTime as Clone>::clone ](t: &SystemTime) -> (r: SystemTime)
    ensures
        r == *t,
;

/// Static module-kind enum: the registry.
#[derive(Copy, Clone, Debug, PartialEq, Eq, Hash, Structural)]
pub enum ModuleKind {
    /// The project-picker + grid-composer + provider-auto-launcher mode.
    Parallex,
}

impl ModuleKind {
    /// Every registered module, in launcher / dropdown display order.
    pub const ALL: [ModuleKind; 1] = [ModuleKind::Parallex];

    /// The display name of a kind.
    pub open spec fn spec_name(self) -> Seq<char> {
        match self {
            ModuleKind::Parallex => "Parallex"@,
        }
    }

    /// The default sRGB colour of a kind.
    pub open spec fn spec_default_color(self) -> Seq<u8> {
        match self {
            ModuleKind::Parallex => seq![0x6bu8, 0xb8u8, 0xa8u8],
        }
    }

    /// Display name shown on the launcher button and as the default tab label.
    pub fn name(self) -> (r: &'static str)
        ensures
            r@ == self.spec_name(),
    {
        match self {
            ModuleKind::Parallex => "Parallex",
        }
    }

    /// One-line description shown beneath the launcher button on Home.
    pub fn description(self) -> (r: &'static str)
        ensures
            r@ == (match self {
                ModuleKind::Parallex => "project · grid · providers"@,
            }),
    {
        match self {
            ModuleKind::Parallex => "project · grid · providers",
        }
    }

    /// Mono glyph rendered as the module's launcher icon.
    pub fn icon(self) -> (r: &'static str)
        ensures
            r@ == (match self {
                ModuleKind::Parallex => "▦"@,
            }),
    {
        match self {
            ModuleKind::Parallex => "▦",
        }
    }

    /// Default brand-colour sRGB byte triple picked up by new instances.
    pub fn default_color(self) -> (r: [u8; 3])
        ensures
            r@ == self.spec_default_color(),
    {
        match self {
            ModuleKind::Parallex => [0x6b, 0xb8, 0xa8],
        }
    }
}


/// Stable instance identifier, monotonic per [`InstanceSet`].
#[derive(Copy, Clone, Debug, PartialEq, Eq, PartialOrd, Ord, Hash, Structural)]
pub struct ModuleInstanceId(pub u32);

impl ModuleInstanceId {
    /// The raw number, e.g. for use as a UI node id.
    pub fn as_u32(self) -> (r: u32)
        ensures
            r == self.0,
    {
        self.0
    }
}

/// One running instance of a registered module: what a subway tab represents.
#[derive(Clone, Debug, PartialEq, Eq)]
pub struct ModuleInstance {
    /// Stable id, unique within the owning [`InstanceSet`].
    pub id: ModuleInstanceId,
    /// Which module this is an instance of.
    pub kind: ModuleKind,
    /// Tab label.
    pub name: String,
    /// sRGB byte triple: the workspace dot in the subway.
    pub color: [u8; 3],
    /// Creation timestamp.
    pub created_at: SystemTime,
}

/// Mutable access to every field of a [`ModuleInstance`] but its id, as
/// handed out by [`InstanceSet::get_mut`].
pub struct ModuleInstanceMut<'a> {
    /// Which module this is an instance of.
    pub kind: &'a mut ModuleKind,
    /// Tab label.
    pub name: &'a mut String,
    /// sRGB byte triple.
    pub color: &'a mut [u8; 3],
    /// Creation timestamp.
    pub created_at: &'a mut SystemTime,
}

/// What is currently active: the Home launcher view, or one instance tab.
#[derive(Copy, Clone, Debug, PartialEq, Eq, Structural)]
pub enum Selection {
    /// Home view: the launcher scene, no module instance.
    Home,
    /// A specific module-instance tab is active.
    Tab(ModuleInstanceId),
}

/// Reasons [`InstanceSet`] mutators can refuse a call.
#[derive(Copy, Clone, Debug, PartialEq, Eq, Structural)]
pub enum InstanceSetError {
    /// The instance id does not exist in this set.
    NotFound,
    /// `move_to` received an out-of-range target index.
    InvalidPosition,
}

impl InstanceSetError {
    /// Human-readable text of the error.
    pub fn message(self) -> (r: &'static str)
        ensures
            r@ == (match self {
                InstanceSetError::NotFound => "instance id not found"@,
                InstanceSetError::InvalidPosition => "move_to target index out of range"@,
            }),
    {
        match self {
            InstanceSetError::NotFound => "instance id not found",
            InstanceSetError::InvalidPosition => "move_to target index out of range",
        }
    }
}

/// `i` is the first position of `s` that holds an instance with id `id`.
pub open spec fn is_first_index(s: Seq<ModuleInstance>, id: ModuleInstanceId, i: int) -> bool {
    &&& 0 <= i < s.len()
    &&& s[i].id == id
    &&& forall|j: int| 0 <= j < i ==> s[j].id != id
}

/// `s` holds an instance with id `id`.
pub open spec fn holds_id(s: Seq<ModuleInstance>, id: ModuleInstanceId) -> bool {
    exists|i: int| 0 <= i < s.len() && s[i].id == id
}

/// The first position of `id` in `s`, or `-1` when `s` does not hold it.
pub open spec fn index_of(s: Seq<ModuleInstance>, id: ModuleInstanceId) -> int {
    if exists|i: int| is_first_index(s, id, i) {
        choose|i: int| is_first_index(s, id, i)
    } else {
        -1
    }
}

/// The first index of an id is unique.
pub proof fn lemma_index_of_first(s: Seq<ModuleInstance>, id: ModuleInstanceId, p: int)
    requires
        is_first_index(s, id, p),
    ensures
        index_of(s, id) == p,
{
    let q = choose|i: int| is_first_index(s, id, i);
    assert(is_first_index(s, id, q));
    if q < p {
        assert(s[q].id != id);
    } else if p < q {
        assert(s[p].id != id);
    }
}

/// An id that `s` does not hold has no index.
pub proof fn lemma_index_of_absent(s: Seq<ModuleInstance>, id: ModuleInstanceId)
    requires
        !holds_id(s, id),
    ensures
        index_of(s, id) == -1,
{
    if exists|i: int| is_first_index(s, id, i) {
        let q = choose|i: int| is_first_index(s, id, i);
        assert(0 <= q < s.len() && s[q].id == id);
    }
}

/// Where position `k` of the result of moving the entry at `p` to `t` came
/// from in the original order.
pub open spec fn moved_source(p: int, t: int, k: int) -> int {
    if k == t {
        p
    } else {
        let r = if k < t { k } else { k - 1 };
        if r < p { r } else { r + 1 }
    }
}

/// Where the entry at position `k` of the original order ends up after the
/// entry at `p` is moved to `t`.
pub open spec fn moved_target(p: int, t: int, k: int) -> int {
    if k == p {
        t
    } else {
        let r = if k < p { k } else { k - 1 };
        if r < t { r } else { r + 1 }
    }
}

/// Replacing the instance at `p` by one with the same id keeps the set's
/// invariants.
proof fn lemma_edit_keeps_wf(v: InstanceSetView, p: int)
    requires
        0 <= p < v.instances.len(),
    ensures
        forall|inst: ModuleInstance|
            v.wf() && inst.id == v.instances[p].id ==> (InstanceSetView {
                instances: #[trigger] v.instances.update(p, inst),
                ..v
            }).wf(),
{
    assert forall|inst: ModuleInstance|
        v.wf() && inst.id == v.instances[p].id implies (InstanceSetView {
            instances: #[trigger] v.instances.update(p, inst),
            ..v
        }).wf() by {
        let w = InstanceSetView { instances: v.instances.update(p, inst), ..v };
        assert forall|i: int| 0 <= i < w.instances.len() implies #[trigger] w.instances[i].id == v.instances[i].id by {}
        assert forall|i: int| 0 <= i < w.instances.len() implies 1 <= #[trigger] w.instances[i].id.0 < w.next_id by {
            assert(w.instances[i].id == v.instances[i].id);
            assert(1 <= v.instances[i].id.0 < v.next_id);
        }
        if let Selection::Tab(sid) = w.selected {
            let k = choose|k: int| 0 <= k < v.instances.len() && v.instances[k].id == sid;
            assert(w.instances[k].id == sid);
        }
    }
}

/// The abstract state of an [`InstanceSet`].
pub struct InstanceSetView {
    /// Instances in display order (leftmost tab first).
    pub instances: Seq<ModuleInstance>,
    /// The current selection.
    pub selected: Selection,
    /// The id number that the next spawn issues.
    pub next_id: nat,
}

impl InstanceSetView {
    /// An instance with id `id` is in the set.
    pub open spec fn contains(self, id: ModuleInstanceId) -> bool {
        holds_id(self.instances, id)
    }

    /// The set's invariants: ids are unique and below the next id to issue,
    /// and a selected tab is always in the set.
    pub open spec fn wf(self) -> bool {
        &&& 1 <= self.next_id
        &&& forall|i: int, j: int|
            0 <= i < j < self.instances.len() ==> self.instances[i].id != self.instances[j].id
        &&& forall|i: int|
            0 <= i < self.instances.len() ==> 1 <= #[trigger] self.instances[i].id.0 < self.next_id
        &&& (self.selected matches Selection::Tab(id) ==> self.contains(id))
    }
}

/// The ordered list of running module instances plus the current selection.
#[derive(Clone, Debug)]
pub struct InstanceSet {
    instances: Vec<ModuleInstance>,
    selected: Selection,
    next_id: u32,
}

impl View for InstanceSet {
    type V = InstanceSetView;

    closed spec fn view(&self) -> InstanceSetView {
        InstanceSetView {
            instances: self.instances@,
            selected: self.selected,
            next_id: self.next_id as nat,
        }
    }
}


impl InstanceSet {
    /// Boot state: no tabs, Home selected.
    pub fn new() -> (r: Self)
        ensures
            r@.instances == Seq::<ModuleInstance>::empty(),
            r@.selected == Selection::Home,
            r@.next_id == 1,
            r@.wf(),
    {
        InstanceSet { instances: Vec::new(), selected: Selection::Home, next_id: 1 }
    }

    /// The first position of `id` in display order, if any.
    fn position_of(&self, id: ModuleInstanceId) -> (r: Option<usize>)
        ensures
            match r {
                Some(p) => is_first_index(self@.instances, id, p as int) && index_of(
                    self@.instances,
                    id,
                ) == p,
                None => !self@.contains(id) && index_of(self@.instances, id) == -1,
            },
    {
        let mut i: usize = 0;
        while i < self.instances.len()
            invariant
                0 <= i <= self.instances@.len(),
                forall|j: int| 0 <= j < i ==> self.instances@[j].id != id,
            decreases self.instances@.len() - i,
        {
            if self.instances[i].id == id {
                proof {
                    lemma_index_of_first(self.instances@, id, i as int);
                }
                return Some(i);
            }
            i += 1;
        }
        proof {
            lemma_index_of_absent(self.instances@, id);
        }
        None
    }

    /// Whether another instance can be spawned: the id counter has not
    /// reached `u32::MAX`.
    pub fn can_spawn(&self) -> (r: bool)
        ensures
            r == (self@.next_id < u32::MAX),
    {
        self.next_id < u32::MAX
    }

    /// Spawns a new instance of `kind` at the end of the tab order and
    /// returns its freshly issued id. The new instance is not selected.
    pub fn spawn(&mut self, kind: ModuleKind) -> (r: ModuleInstanceId)
        requires
            old(self)@.next_id < u32::MAX,
        ensures
            r.0 == old(self)@.next_id,
            final(self)@.next_id == old(self)@.next_id + 1,
            final(self)@.selected == old(self)@.selected,
            final(self)@.instances.len() == old(self)@.instances.len() + 1,
            final(self)@.instances.drop_last() == old(self)@.instances,
            final(self)@.instances.last().id == r,
            final(self)@.instances.last().kind == kind,
            final(self)@.instances.last().name@ == kind.spec_name(),
            final(self)@.instances.last().color@ == kind.spec_default_color(),
            final(self)@.contains(r),
            old(self)@.wf() ==> !old(self)@.contains(r),
            old(self)@.wf() ==> final(self)@.wf(),
    {
        let id = ModuleInstanceId(self.next_id);
        self.next_id = self.next_id + 1;
        let name = kind.name();
        let inst = ModuleInstance {
            id,
            kind,
            name: String::from_str(name),
            color: kind.default_color(),
            created_at: system_time_now(),
        };
        self.instances.push(inst);
        proof {
            let o = old(self)@;
            let f = self@;
            assert(f.instances.drop_last() =~= o.instances);
            assert forall|i: int| 0 <= i < o.instances.len() implies f.instances[i] == o.instances[i] by {}
            if o.wf() {
                assert forall|i: int| 0 <= i < o.instances.len() implies o.instances[i].id != id by {
                    assert(1 <= o.instances[i].id.0 < o.next_id);
                }
                assert forall|i: int| 0 <= i < f.instances.len() implies 1 <= #[trigger] f.instances[i].id.0 < f.next_id by {
                    if i < o.instances.len() {
                        assert(f.instances[i] == o.instances[i]);
                        assert(1 <= o.instances[i].id.0 < o.next_id);
                    }
                }
                if let Selection::Tab(sid) = f.selected {
                    let k = choose|k: int| 0 <= k < o.instances.len() && o.instances[k].id == sid;
                    assert(f.instances[k].id == sid);
                }
            }
            assert(f.instances[o.instances.len() as int].id == id);
        }
        id
    }

    /// Closes (removes) an instance. If the closed instance was selected,
    /// selection snaps back to Home.
    pub fn close(&mut self, id: ModuleInstanceId) -> (r: Result<ModuleInstance, InstanceSetError>)
        ensures
            r is Ok <==> old(self)@.contains(id),
            match r {
                Ok(inst) => {
                    let p = index_of(old(self)@.instances, id);
                    &&& 0 <= p < old(self)@.instances.len()
                    &&& inst == old(self)@.instances[p]
                    &&& final(self)@.instances == old(self)@.instances.remove(p)
                    &&& final(self)@.selected == (if old(self)@.selected == Selection::Tab(id) {
                        Selection::Home
                    } else {
                        old(self)@.selected
                    })
                    &&& final(self)@.next_id == old(self)@.next_id
                },
                Err(e) => e == InstanceSetError::NotFound && final(self)@ == old(self)@,
            },
            old(self)@.wf() ==> final(self)@.wf() && !final(self)@.contains(id),
    {
        match self.position_of(id) {
            None => Err(InstanceSetError::NotFound),
            Some(pos) => {
                let removed = self.instances.remove(pos);
                if self.selected == Selection::Tab(id) {
                    self.selected = Selection::Home;
                }
                proof {
                    let o = old(self)@;
                    let f = self@;
                    let p = pos as int;
                    assert forall|i: int| 0 <= i < f.instances.len() implies #[trigger] f.instances[i] == o.instances[if i < p { i } else { i + 1 }] by {}
                    if o.wf() {
                        assert forall|i: int, j: int| 0 <= i < j < f.instances.len() implies f.instances[i].id != f.instances[j].id by {
                            let a = if i < p { i } else { i + 1 };
                            let b = if j < p { j } else { j + 1 };
                            assert(f.instances[i] == o.instances[a]);
                            assert(f.instances[j] == o.instances[b]);
                        }
                        assert forall|i: int| 0 <= i < f.instances.len() implies 1 <= #[trigger] f.instances[i].id.0 < f.next_id by {
                            let a = if i < p { i } else { i + 1 };
                            assert(f.instances[i] == o.instances[a]);
                            assert(1 <= o.instances[a].id.0 < o.next_id);
                        }
                        assert forall|i: int| 0 <= i < f.instances.len() implies f.instances[i].id != id by {
                            let a = if i < p { i } else { i + 1 };
                            assert(f.instances[i] == o.instances[a]);
                            assert(o.instances[p].id == id);
                        }
                        if let Selection::Tab(sid) = f.selected {
                            assert(sid != id);
                            let k = choose|k: int| 0 <= k < o.instances.len() && o.instances[k].id == sid;
                            assert(k != p);
                            let fk = if k < p { k } else { k - 1 };
                            assert(f.instances[fk] == o.instances[k]);
                        }
                    }
                }
                Ok(removed)
            },
        }
    }

    /// Instances in display order; the leftmost subway tab is first.
    pub fn ordered(&self) -> (r: std::slice::Iter<'_, ModuleInstance>)
        ensures
            vstd::std_specs::iter::IteratorSpec::remaining(&r) == self@.instances.as_ref(),
    {
        broadcast use vstd::std_specs::slice::axiom_spec_slice_iter;

        self.instances.as_slice().iter()
    }

    /// Looks up an instance by id.
    pub fn get(&self, id: ModuleInstanceId) -> (r: Option<&ModuleInstance>)
        ensures
            r is Some <==> self@.contains(id),
            r matches Some(inst) ==> *inst == self@.instances[index_of(self@.instances, id)],
    {
        match self.position_of(id) {
            Some(p) => Some(&self.instances[p]),
            None => None,
        }
    }

    /// Mutable variant of [`Self::get`], for rename / colour edits. Every
    /// field but the id can be changed, so the set's invariants hold
    /// whatever the caller writes.
    pub fn get_mut(&mut self, id: ModuleInstanceId) -> (r: Option<ModuleInstanceMut<'_>>)
        ensures
            r is Some <==> old(self)@.contains(id),
            match r {
                Some(m) => {
                    let p = index_of(old(self)@.instances, id);
                    let o = old(self)@.instances[p];
                    &&& *m.kind == o.kind
                    &&& *m.name == o.name
                    &&& *m.color == o.color
                    &&& *m.created_at == o.created_at
                    &&& final(self)@.instances == old(self)@.instances.update(
                        p,
                        ModuleInstance {
                            id: o.id,
                            kind: *final(m.kind),
                            name: *final(m.name),
                            color: *final(m.color),
                            created_at: *final(m.created_at),
                        },
                    )
                    &&& final(self)@.selected == old(self)@.selected
                    &&& final(self)@.next_id == old(self)@.next_id
                },
                None => final(self)@ == old(self)@,
            },
            old(self)@.wf() ==> final(self)@.wf(),
    {
        match self.position_of(id) {
            Some(p) => {
                proof {
                    lemma_edit_keeps_wf(old(self)@, p as int);
                }
                let inst = &mut self.instances[p];
                Some(ModuleInstanceMut {
                    kind: &mut inst.kind,
                    name: &mut inst.name,
                    color: &mut inst.color,
                    created_at: &mut inst.created_at,
                })
            },
            None => None,
        }
    }

    /// Current selection.
    pub fn selected(&self) -> (r: Selection)
        ensures
            r == self@.selected,
    {
        self.selected
    }

    /// The selected instance, or `None` when Home is selected.
    pub fn selected_instance(&self) -> (r: Option<&ModuleInstance>)
        ensures
            match self@.selected {
                Selection::Home => r is None,
                Selection::Tab(id) => {
                    &&& (r is Some <==> self@.contains(id))
                    &&& (r matches Some(inst) ==> *inst == self@.instances[index_of(
                        self@.instances,
                        id,
                    )])
                },
            },
    {
        match self.selected {
            Selection::Home => None,
            Selection::Tab(id) => self.get(id),
        }
    }

    /// Changes the current selection. A tab that is not in the set is
    /// refused with `NotFound`.
    pub fn select(&mut self, selection: Selection) -> (r: Result<Selection, InstanceSetError>)
        ensures
            if selection matches Selection::Tab(id) && !old(self)@.contains(id) {
                r == Err::<Selection, InstanceSetError>(InstanceSetError::NotFound)
                    && final(self)@ == old(self)@
            } else {
                &&& r == Ok::<Selection, InstanceSetError>(selection)
                &&& final(self)@.selected == selection
                &&& final(self)@.instances == old(self)@.instances
                &&& final(self)@.next_id == old(self)@.next_id
            },
            old(self)@.wf() ==> final(self)@.wf(),
    {
        if let Selection::Tab(id) = selection {
            if self.position_of(id).is_none() {
                return Err(InstanceSetError::NotFound);
            }
        }
        self.selected = selection;
        Ok(selection)
    }

    /// Number of running instances (Home is not a tab).
    pub fn len(&self) -> (r: usize)
        ensures
            r == self@.instances.len(),
    {
        self.instances.len()
    }

    /// `true` when no instances exist.
    pub fn is_empty(&self) -> (r: bool)
        ensures
            r <==> self@.instances.len() == 0,
    {
        self.instances.is_empty()
    }

    /// Moves an instance to position `target` in the tab order.
    /// `NotFound` when `id` is absent; `InvalidPosition` when
    /// `target >= len()`.
    pub fn move_to(&mut self, id: ModuleInstanceId, target: usize) -> (r: Result<(), InstanceSetError>)
        ensures
            !old(self)@.contains(id) ==> r == Err::<(), InstanceSetError>(InstanceSetError::NotFound)
                && final(self)@ == old(self)@,
            old(self)@.contains(id) && target >= old(self)@.instances.len() ==> r == Err::<
                (),
                InstanceSetError,
            >(InstanceSetError::InvalidPosition) && final(self)@ == old(self)@,
            old(self)@.contains(id) && target < old(self)@.instances.len() ==> {
                let p = index_of(old(self)@.instances, id);
                &&& r == Ok::<(), InstanceSetError>(())
                &&& final(self)@.instances == old(self)@.instances.remove(p).insert(
                    target as int,
                    old(self)@.instances[p],
                )
                &&& final(self)@.selected == old(self)@.selected
                &&& final(self)@.next_id == old(self)@.next_id
            },
            old(self)@.wf() ==> final(self)@.wf(),
    {
        let current = match self.position_of(id) {
            Some(c) => c,
            None => return Err(InstanceSetError::NotFound),
        };
        if target >= self.instances.len() {
            return Err(InstanceSetError::InvalidPosition);
        }
        let inst = self.instances.remove(current);
        self.instances.insert(target, inst);
        proof {
            let o = old(self)@;
            let f = self@;
            let p = current as int;
            let t = target as int;
            assert forall|k: int| 0 <= k < f.instances.len() implies #[trigger] f.instances[k]
                == o.instances[moved_source(p, t, k)] by {}
            if o.wf() {
                assert forall|i: int, j: int| 0 <= i < j < f.instances.len() implies f.instances[i].id
                    != f.instances[j].id by {
                    assert(f.instances[i] == o.instances[moved_source(p, t, i)]);
                    assert(f.instances[j] == o.instances[moved_source(p, t, j)]);
                    let a = moved_source(p, t, i);
                    let b = moved_source(p, t, j);
                    if a < b {
                    } else {
                        assert(b < a);
                    }
                }
                assert forall|i: int| 0 <= i < f.instances.len() implies 1 <= #[trigger] f.instances[i].id.0
                    < f.next_id by {
                    assert(f.instances[i] == o.instances[moved_source(p, t, i)]);
                    assert(1 <= o.instances[moved_source(p, t, i)].id.0 < o.next_id);
                }
                if let Selection::Tab(sid) = f.selected {
                    let k = choose|k: int| 0 <= k < o.instances.len() && o.instances[k].id == sid;
                    let fk = moved_target(p, t, k);
                    assert(moved_source(p, t, fk) == k);
                    assert(f.instances[fk] == o.instances[k]);
                }
            }
        }
        Ok(())
    }
}


impl Default for InstanceSet {
    /// Same as [`InstanceSet::new`].
    fn default() -> (r: Self)
        ensures
            r@.instances == Seq::<ModuleInstance>::empty(),
            r@.selected == Selection::Home,
            r@.next_id == 1,
            r@.wf(),
    {
        InstanceSet::new()
    }
}

/// Closing the instance that a spawn has just added restores the tab order
/// that the set had before the spawn, and leaves the selection alone.
pub proof fn lemma_close_undoes_spawn(v: InstanceSetView, inst: ModuleInstance)
    requires
        v.wf(),
        inst.id.0 == v.next_id,
    ensures
        index_of(v.instances.push(inst), inst.id) == v.instances.len(),
        v.instances.push(inst).remove(v.instances.len() as int) == v.instances,
        v.selected != Selection::Tab(inst.id),
{
    let s = v.instances.push(inst);
    let n = v.instances.len() as int;
    assert forall|j: int| 0 <= j < n implies s[j].id != inst.id by {
        assert(s[j] == v.instances[j]);
        assert(1 <= v.instances[j].id.0 < v.next_id);
    }
    assert(is_first_index(s, inst.id, n));
    lemma_index_of_first(s, inst.id, n);
    assert(s.remove(n) =~= v.instances);
    if let Selection::Tab(sid) = v.selected {
        let k = choose|k: int| 0 <= k < v.instances.len() && v.instances[k].id == sid;
        assert(1 <= v.instances[k].id.0 < v.next_id);
    }
}

/// Moving a tab reorders the set without adding or dropping any instance.
pub proof fn lemma_move_to_permutes(s: Seq<ModuleInstance>, p: int, t: int)
    requires
        0 <= p < s.len(),
        0 <= t < s.len(),
    ensures
        s.remove(p).insert(t, s[p]).len() == s.len(),
        s.remove(p).insert(t, s[p]).to_multiset() == s.to_multiset(),
{
    broadcast use vstd::seq_lib::to_multiset_remove, vstd::seq_lib::to_multiset_insert;
    broadcast use vstd::multiset::group_multiset_axioms;

    let r = s.remove(p);
    assert(r.to_multiset() == s.to_multiset().remove(s[p]));
    assert(r.insert(t, s[p]).to_multiset() == r.to_multiset().insert(s[p]));
    vstd::seq_lib::to_multiset_contains(s, s[p]);
    assert(s.to_multiset().count(s[p]) > 0);
    assert(s.to_multiset().remove(s[p]).insert(s[p]) =~= s.to_multiset());
}

/// Moving a tab to `t` and then moving it back to where it was restores the
/// original order.
pub proof fn lemma_move_to_round_trip(v: InstanceSetView, id: ModuleInstanceId, t: int)
    requires
        v.wf(),
        v.contains(id),
        0 <= t < v.instances.len(),
    ensures
        ({
            let p = index_of(v.instances, id);
            let m = v.instances.remove(p).insert(t, v.instances[p]);
            &&& index_of(m, id) == t
            &&& m.remove(t).insert(p, m[t]) == v.instances
        }),
{
    let s = v.instances;
    let k = choose|k: int| 0 <= k < s.len() && s[k].id == id;
    assert forall|j: int| 0 <= j < k implies s[j].id != id by {}
    assert(is_first_index(s, id, k));
    lemma_index_of_first(s, id, k);
    let p = k;
    let m = s.remove(p).insert(t, s[p]);
    assert forall|j: int| 0 <= j < m.len() implies #[trigger] m[j] == s[moved_source(p, t, j)] by {}
    assert forall|j: int| 0 <= j < t implies m[j].id != id by {
        assert(m[j] == s[moved_source(p, t, j)]);
        assert(moved_source(p, t, j) != p);
    }
    assert(m[t] == s[p]);
    assert(is_first_index(m, id, t));
    lemma_index_of_first(m, id, t);
    assert(m.remove(t).insert(p, m[t]) =~= s);
}

} // verus!
