//! Text measurement that needs no font: the line structure of a label, from
//! which the layout pass estimates a monospace-ish extent.

use vstd::prelude::*;

verus! {

/// The characters of `s`, in order.
fn chars_of(s: &str) -> (r: Vec<char>)
    ensures
        r@ == s@,
{
    broadcast use vstd::string::axiom_spec_iter;

    let mut v: Vec<char> = Vec::new();
    for c in it: s.chars()
        invariant
            v@ == it.seq().take(it.index()),
            it.seq() == s@,
    {
        v.push(c);
    }
    v
}


/// Index of the first `'\n'` in `s`, or `s.len()` when there is none.
pub open spec fn first_newline(s: Seq<char>) -> int
    decreases s.len(),
{
    if s.len() == 0 || s[0] == '\n' {
        0
    } else {
        1 + first_newline(s.drop_first())
    }
}

/// `first_newline` stays within the sequence.
pub proof fn lemma_first_newline_bounds(s: Seq<char>)
    ensures
        0 <= first_newline(s) <= s.len(),
    decreases s.len(),
{
    if s.len() > 0 && s[0] != '\n' {
        lemma_first_newline_bounds(s.drop_first());
    }
}

/// The first newline is at `m` when no earlier character is one.
proof fn lemma_first_newline_at(s: Seq<char>, m: int)
    requires
        0 <= m <= s.len(),
        forall|k: int| 0 <= k < m ==> s[k] != '\n',
        m == s.len() || s[m] == '\n',
    ensures
        first_newline(s) == m,
    decreases m,
{
    if m > 0 {
        let t = s.drop_first();
        assert forall|k: int| 0 <= k < m - 1 implies t[k] != '\n' by {
            assert(t[k] == s[k + 1]);
        }
        if m < s.len() {
            assert(t[m - 1] == s[m]);
        }
        lemma_first_newline_at(t, m - 1);
    }
}

/// Appending characters after the first newline does not move it.
proof fn lemma_first_newline_extend(s: Seq<char>, e: Seq<char>)
    requires
        first_newline(s) < s.len(),
    ensures
        first_newline(s + e) == first_newline(s),
    decreases s.len(),
{
    if s[0] != '\n' {
        assert((s + e).drop_first() =~= s.drop_first() + e);
        lemma_first_newline_extend(s.drop_first(), e);
    }
}

/// `s` without one trailing carriage return.
pub open spec fn strip_cr(s: Seq<char>) -> Seq<char> {
    if s.len() > 0 && s.last() == '\r' {
        s.drop_last()
    } else {
        s
    }
}

/// The lines of `s` as `str::lines` yields them: split at `"\n"` or
/// `"\r\n"`, terminators excluded, the final line ending optional, and no
/// line at all for the empty string.
pub open spec fn spec_lines(s: Seq<char>) -> Seq<Seq<char>>
    decreases s.len(),
{
    if s.len() == 0 {
        Seq::empty()
    } else {
        let k = first_newline(s);
        proof {
            lemma_first_newline_bounds(s);
        }
        if k >= s.len() {
            seq![s]
        } else {
            seq![strip_cr(s.take(k))] + spec_lines(s.skip(k + 1))
        }
    }
}

/// The final line ending is optional: a non-empty text that does not
/// already end in a line ending has the same lines with `"\n"` appended (when
/// it does not end in `'\r'`) or with `"\r\n"` appended.
pub proof fn lemma_final_line_ending_optional(s: Seq<char>, crlf: bool)
    requires
        s.len() > 0,
        s.last() != '\n',
        !crlf ==> s.last() != '\r',
    ensures
        spec_lines(s + (if crlf { seq!['\r', '\n'] } else { seq!['\n'] })) == spec_lines(s),
    decreases s.len(),
{
    let e = if crlf { seq!['\r', '\n'] } else { seq!['\n'] };
    let t = s + e;
    lemma_first_newline_bounds(s);
    lemma_first_newline_bounds(t);
    let k = first_newline(s);
    if k < s.len() {
        lemma_first_newline_extend(s, e);
        assert(t.take(k) =~= s.take(k));
        let rest = s.skip(k + 1);
        assert(t.skip(k + 1) =~= rest + e);
        lemma_first_newline_is_newline(s);
        assert(rest.len() > 0);
        assert(rest.last() == s.last());
        lemma_final_line_ending_optional(rest, crlf);
        assert(spec_lines(t) == seq![strip_cr(t.take(k))] + spec_lines(t.skip(k + 1)));
        assert(spec_lines(s) == seq![strip_cr(s.take(k))] + spec_lines(rest));
    } else {
        assert forall|j: int| 0 <= j < s.len() implies s[j] != '\n' by {
            if s[j] == '\n' {
                lemma_first_newline_at_most(s, j);
            }
        }
        let m: int = if crlf { s.len() as int + 1 } else { s.len() as int };
        assert forall|j: int| 0 <= j < m implies t[j] != '\n' by {
            if j < s.len() {
                assert(t[j] == s[j]);
            }
        }
        assert(t[m] == '\n');
        lemma_first_newline_at(t, m);
        assert(t.skip(m + 1) =~= Seq::<char>::empty());
        assert(strip_cr(t.take(m)) =~= s);
        assert(spec_lines(t.skip(m + 1)) == Seq::<Seq<char>>::empty());
        assert(spec_lines(t) == seq![strip_cr(t.take(m))] + spec_lines(t.skip(m + 1)));
        assert(spec_lines(t) =~= seq![s]);
    }
}

/// A line with no newline in it and no trailing carriage return, followed by
/// `"\n"`, is the first line of the text, and the rest of the text gives the
/// rest of the lines.
pub proof fn lemma_lines_cons(x: Seq<char>, rest: Seq<char>)
    requires
        forall|j: int| 0 <= j < x.len() ==> x[j] != '\n',
        x.len() == 0 || x.last() != '\r',
    ensures
        spec_lines(x + seq!['\n'] + rest) == seq![x] + spec_lines(rest),
{
    let t = x + seq!['\n'] + rest;
    let m = x.len() as int;
    assert forall|j: int| 0 <= j < m implies t[j] != '\n' by {
        assert(t[j] == x[j]);
    }
    assert(t[m] == '\n');
    lemma_first_newline_at(t, m);
    assert(t.take(m) =~= x);
    assert(strip_cr(x) == x);
    assert(t.skip(m + 1) =~= rest);
}

/// A line with no newline in it, followed by `"\r\n"`, is the first line of
/// the text, and the rest of the text gives the rest of the lines.
pub proof fn lemma_lines_cons_crlf(x: Seq<char>, rest: Seq<char>)
    requires
        forall|j: int| 0 <= j < x.len() ==> x[j] != '\n',
    ensures
        spec_lines(x + seq!['\r', '\n'] + rest) == seq![x] + spec_lines(rest),
{
    let t = x + seq!['\r', '\n'] + rest;
    let m: int = x.len() as int + 1;
    assert forall|j: int| 0 <= j < m implies t[j] != '\n' by {
        if j < x.len() {
            assert(t[j] == x[j]);
        }
    }
    assert(t[m] == '\n');
    lemma_first_newline_at(t, m);
    assert(t.take(m) =~= x.push('\r'));
    assert(strip_cr(x.push('\r')) =~= x);
    assert(t.skip(m + 1) =~= rest);
}

/// The empty text has no line, and a non-empty text with no newline is one
/// line, kept whole.
pub proof fn lemma_lines_single(x: Seq<char>)
    requires
        forall|j: int| 0 <= j < x.len() ==> x[j] != '\n',
    ensures
        spec_lines(Seq::<char>::empty()) == Seq::<Seq<char>>::empty(),
        x.len() > 0 ==> spec_lines(x) == seq![x],
{
    if x.len() > 0 {
        lemma_first_newline_at(x, x.len() as int);
    }
}

/// When there is a newline, `first_newline` points at one.
proof fn lemma_first_newline_is_newline(s: Seq<char>)
    requires
        first_newline(s) < s.len(),
    ensures
        s[first_newline(s)] == '\n',
    decreases s.len(),
{
    if s[0] != '\n' {
        let d = s.drop_first();
        lemma_first_newline_bounds(d);
        lemma_first_newline_is_newline(d);
        assert(first_newline(s) == 1 + first_newline(d));
        assert(s[1 + first_newline(d)] == d[first_newline(d)]);
    }
}

/// The first newline comes no later than any newline.
proof fn lemma_first_newline_at_most(s: Seq<char>, j: int)
    requires
        0 <= j < s.len(),
        s[j] == '\n',
    ensures
        first_newline(s) <= j,
    decreases j,
{
    if j > 0 && s[0] != '\n' {
        assert(s.drop_first()[j - 1] == s[j]);
        lemma_first_newline_at_most(s.drop_first(), j - 1);
    }
}

/// The length of the longest line, `0` when there is none.
pub open spec fn max_line_len(lines: Seq<Seq<char>>) -> nat
    decreases lines.len(),
{
    if lines.len() == 0 {
        0
    } else {
        let rest = max_line_len(lines.drop_first());
        if lines[0].len() > rest {
            lines[0].len()
        } else {
            rest
        }
    }
}

/// `max_line_len` is the maximum of the line lengths: no line is longer, and
/// some line reaches it when there is a line at all (else it is `0`).
pub proof fn lemma_max_line_len_is_max(lines: Seq<Seq<char>>)
    ensures
        forall|k: int| 0 <= k < lines.len() ==> #[trigger] lines[k].len() <= max_line_len(lines),
        lines.len() > 0 ==> exists|k: int| 0 <= k < lines.len() && #[trigger] lines[k].len() == max_line_len(lines),
        lines.len() == 0 ==> max_line_len(lines) == 0,
    decreases lines.len(),
{
    if lines.len() > 0 {
        let rest = lines.drop_first();
        lemma_max_line_len_is_max(rest);
        assert forall|k: int| 0 <= k < lines.len() implies #[trigger] lines[k].len() <= max_line_len(lines) by {
            if k > 0 {
                assert(lines[k] == rest[k - 1]);
            }
        }
        if lines[0].len() <= max_line_len(rest) && rest.len() > 0 {
            let j = choose|j: int| 0 <= j < rest.len() && #[trigger] rest[j].len() == max_line_len(rest);
            assert(lines[j + 1] == rest[j]);
        } else {
            assert(lines[0].len() == max_line_len(lines));
        }
    }
}

/// The character extent of a text label: `(longest line in chars, line
/// count)`, where a label with no line still counts as one line. The layout
/// pass multiplies these by the glyph-width ratio and the line height.
pub fn text_extent(content: &str) -> (r: (usize, usize))
    ensures
        r.0 == max_line_len(spec_lines(content@)),
        r.1 == (if spec_lines(content@).len() == 0 {
            1
        } else {
            spec_lines(content@).len()
        }),
        forall|k: int| 0 <= k < spec_lines(content@).len()
            ==> #[trigger] spec_lines(content@)[k].len() <= r.0,
        spec_lines(content@).len() > 0 ==> exists|k: int| 0 <= k < spec_lines(content@).len()
            && #[trigger] spec_lines(content@)[k].len() == r.0,
        spec_lines(content@).len() == 0 ==> r.0 == 0,
{
    let chars = chars_of(content);
    let ghost s = content@;
    let n = chars.len();
    let mut i: usize = 0;
    let mut lines: usize = 0;
    let mut max_chars: usize = 0;
    assert(s.skip(0) =~= s);
    while i < n
        invariant
            chars@ == s,
            n == s.len(),
            i <= n,
            lines <= i,
            max_chars <= n,
            lines + spec_lines(s.skip(i as int)).len() == spec_lines(s).len(),
            (if max_chars > max_line_len(spec_lines(s.skip(i as int))) {
                max_chars as nat
            } else {
                max_line_len(spec_lines(s.skip(i as int)))
            }) == max_line_len(spec_lines(s)),
        decreases n - i,
    {
        let ghost rest = s.skip(i as int);
        let mut j = i;
        while j < n && chars[j] != '\n'
            invariant
                chars@ == s,
                n == s.len(),
                i <= j <= n,
                forall|k: int| i <= k < j ==> s[k] != '\n',
            decreases n - j,
        {
            j += 1;
        }
        let m = j - i;
        proof {
            assert forall|k: int| 0 <= k < m implies rest[k] != '\n' by {
                assert(rest[k] == s[i + k]);
            }
            if j < n {
                assert(rest[m as int] == s[j as int]);
            }
            lemma_first_newline_at(rest, m as int);
        }
        let mut len = m;
        let ghost piece = rest.take(m as int);
        let next;
        if j < n {
            if len > 0 && chars[j - 1] == '\r' {
                len -= 1;
            }
            next = j + 1;
            proof {
                assert(piece.len() == m);
                if m > 0 {
                    assert(piece.last() == s[j - 1]);
                }
                assert(rest.skip(m + 1) =~= s.skip(j + 1));
                assert(spec_lines(rest) == seq![strip_cr(piece)] + spec_lines(s.skip(j + 1)));
                assert((seq![strip_cr(piece)] + spec_lines(s.skip(j + 1))).drop_first() =~= spec_lines(s.skip(j + 1)));
                assert(strip_cr(piece).len() == len);
            }
        } else {
            next = n;
            proof {
                assert(rest.len() == m);
                assert(spec_lines(rest) == seq![rest]);
                assert(s.skip(n as int) =~= Seq::<char>::empty());
                assert(seq![rest].drop_first() =~= Seq::<Seq<char>>::empty());
            }
        }
        lines += 1;
        if len > max_chars {
            max_chars = len;
        }
        i = next;
    }
    if lines == 0 {
        lines = 1;
    }
    proof {
        lemma_max_line_len_is_max(spec_lines(s));
    }
    (max_chars, lines)
}

} // verus!
