//! Terminal-side data shaping: the grid size handed to the VT model, the
//! bytes a key press sends to the shell, and the text snapshot of the
//! visible grid that the renderer shapes.

use vstd::prelude::*;
use vstd::string::StringSliceAdditionalSpecFns;
use crate::text::{lemma_lines_cons, spec_lines};

verus! {

/// A pair of `(columns, screen_lines)`: the size of the visible cell grid.
#[derive(Debug, Clone, Copy)]
pub struct GridSize {
    /// Number of columns in the visible grid.
    pub columns: usize,
    /// Number of rows currently visible (excludes scrollback).
    pub screen_lines: usize,
}

impl GridSize {
    /// Number of columns.
    pub fn columns(&self) -> (r: usize)
        ensures
            r == self.columns,
    {
        self.columns
    }

    /// Number of visible rows.
    pub fn screen_lines(&self) -> (r: usize)
        ensures
            r == self.screen_lines,
    {
        self.screen_lines
    }

    /// Total rows the grid keeps. There is no scrollback, so this is the
    /// number of visible rows.
    pub fn total_lines(&self) -> (r: usize)
        ensures
            r == self.screen_lines,
    {
        self.screen_lines
    }
}

/// The keys that the shell input path tells apart. Every other key sends the
/// text it produced, if any.
#[derive(Copy, Clone, Debug, PartialEq, Eq, Structural)]
pub enum KeyInput {
    /// Sends CR.
    Enter,
    /// Sends DEL.
    Backspace,
    /// Sends HT.
    Tab,
    /// Sends ESC.
    Escape,
    /// Sends `ESC [ A`.
    ArrowUp,
    /// Sends `ESC [ B`.
    ArrowDown,
    /// Sends `ESC [ C`.
    ArrowRight,
    /// Sends `ESC [ D`.
    ArrowLeft,
    /// Any other key; its text (if any) is sent verbatim.
    Other,
}

/// The bytes a key press sends to the shell: CR for Enter, DEL for
/// Backspace, HT for Tab, ESC for Escape, the ANSI cursor sequences
/// `ESC [ A/B/C/D` for the arrows, and the UTF-8 text of any other key.
pub open spec fn spec_key_bytes(key: KeyInput, text: Option<&str>) -> Seq<u8> {
    match key {
        KeyInput::Enter => seq![0x0du8],
        KeyInput::Backspace => seq![0x7fu8],
        KeyInput::Tab => seq![0x09u8],
        KeyInput::Escape => seq![0x1bu8],
        KeyInput::ArrowUp => seq![0x1bu8, 0x5bu8, 0x41u8],
        KeyInput::ArrowDown => seq![0x1bu8, 0x5bu8, 0x42u8],
        KeyInput::ArrowRight => seq![0x1bu8, 0x5bu8, 0x43u8],
        KeyInput::ArrowLeft => seq![0x1bu8, 0x5bu8, 0x44u8],
        KeyInput::Other => match text {
            Some(t) => t.spec_bytes(),
            None => Seq::empty(),
        },
    }
}

/// Any key that is not a named one sends exactly the UTF-8 bytes of its
/// text, whatever that text is (nothing without text), and a named key sends
/// the same bytes whatever text came with it.
pub proof fn lemma_key_bytes_text(key: KeyInput, text: Option<&str>)
    ensures
        key == KeyInput::Other ==> spec_key_bytes(key, text) == match text {
            Some(t) => t.spec_bytes(),
            None => Seq::<u8>::empty(),
        },
        key != KeyInput::Other ==> spec_key_bytes(key, text) == spec_key_bytes(key, None),
        key != KeyInput::Other ==> spec_key_bytes(key, text).len() > 0,
{
}

/// Translates a key press into the bytes written to the shell.
pub fn key_to_bytes(key: KeyInput, text: Option<&str>) -> (r: Vec<u8>)
    ensures
        r@ == spec_key_bytes(key, text),
        key == KeyInput::Other ==> r@ == match text {
            Some(t) => t.spec_bytes(),
            None => Seq::<u8>::empty(),
        },
        key == KeyInput::Enter ==> r@ == seq![0x0du8],
        key == KeyInput::Backspace ==> r@ == seq![0x7fu8],
        key == KeyInput::Tab ==> r@ == seq![0x09u8],
        key == KeyInput::Escape ==> r@ == seq![0x1bu8],
        key == KeyInput::ArrowUp ==> r@ == seq![0x1bu8, 0x5bu8, 0x41u8],
        key == KeyInput::ArrowDown ==> r@ == seq![0x1bu8, 0x5bu8, 0x42u8],
        key == KeyInput::ArrowRight ==> r@ == seq![0x1bu8, 0x5bu8, 0x43u8],
        key == KeyInput::ArrowLeft ==> r@ == seq![0x1bu8, 0x5bu8, 0x44u8],
{
    proof {
        lemma_key_bytes_text(key, text);
    }
    match key {
        KeyInput::Enter => vec![0x0d],
        KeyInput::Backspace => vec![0x7f],
        KeyInput::Tab => vec![0x09],
        KeyInput::Escape => vec![0x1b],
        KeyInput::ArrowUp => vec![0x1b, 0x5b, 0x41],
        KeyInput::ArrowDown => vec![0x1b, 0x5b, 0x42],
        KeyInput::ArrowRight => vec![0x1b, 0x5b, 0x43],
        KeyInput::ArrowLeft => vec![0x1b, 0x5b, 0x44],
        KeyInput::Other => match text {
            Some(t) => vstd::slice::slice_to_vec(t.as_bytes()),
            None => Vec::new(),
        },
    }
}

/// The Unicode `White_Space` property.
pub open spec fn is_white_space(c: char) -> bool {
    let u = c as u32;
    ||| 0x09 <= u <= 0x0d
    ||| u == 0x20
    ||| u == 0x85
    ||| u == 0xa0
    ||| u == 0x1680
    ||| 0x2000 <= u <= 0x200a
    ||| u == 0x2028
    ||| u == 0x2029
    ||| u == 0x202f
    ||| u == 0x205f
    ||| u == 0x3000
}

/// Whether `c` has the Unicode `White_Space` property, as
/// `char::is_whitespace` (and so `str::trim_end`) decides it.
fn char_is_whitespace(c: char) -> (b: bool)
    ensures
        b == is_white_space(c),
{
    let u = c as u32;
    (0x09 <= u && u <= 0x0d) || u == 0x20 || u == 0x85 || u == 0xa0 || u == 0x1680 || (0x2000
        <= u && u <= 0x200a) || u == 0x2028 || u == 0x2029 || u == 0x202f || u == 0x205f || u
        == 0x3000
}

/// `String::push`: appends one character.
#[verifier::external_body]
fn string_push(s: &mut String, c: char)
    ensures
        final(s)@ == old(s)@.push(c),
{
    s.push(c)
}

/// `s` with its trailing white space removed.
pub open spec fn trim_end_white(s: Seq<char>) -> Seq<char>
    decreases s.len(),
{
    if s.len() > 0 && is_white_space(s.last()) {
        trim_end_white(s.drop_last())
    } else {
        s
    }
}

/// The grid snapshot: each row with its trailing white space trimmed,
/// followed by a newline.
pub open spec fn spec_snapshot(rows: Seq<Seq<char>>) -> Seq<char>
    decreases rows.len(),
{
    if rows.len() == 0 {
        Seq::empty()
    } else {
        spec_snapshot(rows.drop_last()) + trim_end_white(rows.last()) + seq!['\n']
    }
}

/// Trimming keeps a prefix of the row: what it removes is all white space,
/// and what it keeps is empty or ends in a character that is not.
pub proof fn lemma_trim_end_white(s: Seq<char>)
    ensures
        trim_end_white(s).len() <= s.len(),
        trim_end_white(s) == s.take(trim_end_white(s).len() as int),
        trim_end_white(s).len() == 0 || !is_white_space(trim_end_white(s).last()),
        forall|j: int| trim_end_white(s).len() <= j < s.len() ==> is_white_space(#[trigger] s[j]),
    decreases s.len(),
{
    if s.len() > 0 && is_white_space(s.last()) {
        let d = s.drop_last();
        lemma_trim_end_white(d);
        let t = trim_end_white(d);
        assert(t == s.take(t.len() as int)) by {
            assert(s.take(t.len() as int) =~= d.take(t.len() as int));
        }
        assert forall|j: int| t.len() <= j < s.len() implies is_white_space(#[trigger] s[j]) by {
            if j < d.len() {
                assert(s[j] == d[j]);
            }
        }
    } else {
        assert(s.take(s.len() as int) =~= s);
    }
}

/// The snapshot of no row is empty, and that of one row is the row with its
/// trailing white space trimmed, then a newline.
pub proof fn lemma_snapshot_single(row: Seq<char>)
    ensures
        spec_snapshot(Seq::<Seq<char>>::empty()) == Seq::<char>::empty(),
        spec_snapshot(seq![row]) == trim_end_white(row) + seq!['\n'],
{
    assert(seq![row].drop_last() =~= Seq::<Seq<char>>::empty());
    assert(Seq::<char>::empty() + trim_end_white(row) =~= trim_end_white(row));
}

/// The snapshot of two runs of rows, one after the other, is the snapshot
/// of the first followed by that of the second: no row is dropped, merged or
/// moved.
pub proof fn lemma_snapshot_append(a: Seq<Seq<char>>, b: Seq<Seq<char>>)
    ensures
        spec_snapshot(a + b) == spec_snapshot(a) + spec_snapshot(b),
    decreases b.len(),
{
    if b.len() == 0 {
        assert(a + b =~= a);
        assert(spec_snapshot(a) + Seq::<char>::empty() =~= spec_snapshot(a));
    } else {
        lemma_snapshot_append(a, b.drop_last());
        assert((a + b).drop_last() =~= a + b.drop_last());
        assert((a + b).last() == b.last());
        assert(spec_snapshot(a + b) =~= spec_snapshot(a) + spec_snapshot(b));
    }
}

/// The snapshot read back as lines (`str::lines`) gives one line per grid
/// row, in order: the row with its trailing white space trimmed. This holds
/// for any grid whose cells hold no newline.
pub proof fn lemma_snapshot_lines(rows: Seq<Seq<char>>)
    requires
        forall|k: int, j: int| 0 <= k < rows.len() && 0 <= j < rows[k].len() ==> #[trigger] rows[k][j] != '\n',
    ensures
        spec_lines(spec_snapshot(rows)) == rows.map_values(|row: Seq<char>| trim_end_white(row)),
    decreases rows.len(),
{
    if rows.len() == 0 {
        lemma_snapshot_single(seq![]);
        assert(spec_lines(Seq::<char>::empty()) == Seq::<Seq<char>>::empty());
        assert(rows.map_values(|row: Seq<char>| trim_end_white(row)) =~= Seq::<Seq<char>>::empty());
    } else {
        let first = rows[0];
        let rest = rows.drop_first();
        assert(rows =~= seq![first] + rest);
        lemma_snapshot_append(seq![first], rest);
        lemma_snapshot_single(first);
        assert forall|k: int, j: int| 0 <= k < rest.len() && 0 <= j < rest[k].len() implies #[trigger] rest[k][j]
            != '\n' by {
            assert(rest[k] == rows[k + 1]);
        }
        lemma_snapshot_lines(rest);
        let x = trim_end_white(first);
        lemma_trim_end_white(first);
        assert forall|j: int| 0 <= j < x.len() implies x[j] != '\n' by {
            assert(x[j] == first[j]);
            assert(rows[0][j] != '\n');
        }
        assert(is_white_space('\r'));
        lemma_lines_cons(x, spec_snapshot(rest));
        assert(spec_snapshot(rows) == x + seq!['\n'] + spec_snapshot(rest));
        assert(rows.map_values(|row: Seq<char>| trim_end_white(row)) =~= seq![x] + rest.map_values(
            |row: Seq<char>| trim_end_white(row),
        ));
    }
}

/// Length of `row` once its trailing white space is trimmed.
fn trimmed_len(row: &Vec<char>) -> (r: usize)
    ensures
        r <= row@.len(),
        row@.take(r as int) == trim_end_white(row@),
{
    let mut end = row.len();
    assert(row@.take(end as int) =~= row@);
    while end > 0 && char_is_whitespace(row[end - 1])
        invariant
            end <= row@.len(),
            trim_end_white(row@.take(end as int)) == trim_end_white(row@),
        decreases end,
    {
        assert(row@.take(end as int).drop_last() =~= row@.take(end - 1));
        end -= 1;
    }
    if end > 0 {
        assert(row@.take(end as int).last() == row@[end - 1]);
    }
    assert(trim_end_white(row@.take(end as int)) == row@.take(end as int));
    end
}

/// Snapshots the visible grid into one string: each row becomes a line,
/// with its trailing white space trimmed.
pub fn snapshot_grid(rows: &Vec<Vec<char>>) -> (r: String)
    ensures
        r@ == spec_snapshot(rows@.map_values(|row: Vec<char>| row@)),
        (forall|k: int, j: int| 0 <= k < rows@.len() && 0 <= j < rows@[k]@.len() ==> #[trigger] rows@[k]@[j]
            != '\n') ==> spec_lines(r@) == rows@.map_values(|row: Vec<char>| trim_end_white(row@)),
{
    let ghost views = rows@.map_values(|row: Vec<char>| row@);
    let mut out = String::new();
    let mut i: usize = 0;
    while i < rows.len()
        invariant
            i <= rows@.len(),
            views == rows@.map_values(|row: Vec<char>| row@),
            out@ == spec_snapshot(views.take(i as int)),
        decreases rows@.len() - i,
    {
        let row = &rows[i];
        let end = trimmed_len(row);
        let ghost before = out@;
        let mut j: usize = 0;
        while j < end
            invariant
                j <= end <= row@.len(),
                out@ == before + row@.take(j as int),
            decreases end - j,
        {
            string_push(&mut out, row[j]);
            assert(row@.take(j + 1) =~= row@.take(j as int).push(row@[j as int]));
            j += 1;
        }
        string_push(&mut out, '\n');
        proof {
            assert(views.take(i + 1).drop_last() =~= views.take(i as int));
            assert(views.take(i + 1).last() == row@);
        }
        i += 1;
    }
    assert(views.take(rows@.len() as int) =~= views);
    proof {
        if forall|k: int, j: int| 0 <= k < rows@.len() && 0 <= j < rows@[k]@.len() ==> #[trigger] rows@[k]@[j]
            != '\n' {
            assert forall|k: int, j: int| 0 <= k < views.len() && 0 <= j < views[k].len() implies #[trigger] views[k][j]
                != '\n' by {
                assert(views[k] == rows@[k]@);
                assert(rows@[k]@[j] != '\n');
            }
            lemma_snapshot_lines(views);
            assert(views.map_values(|row: Seq<char>| trim_end_white(row)) =~= rows@.map_values(
                |row: Vec<char>| trim_end_white(row@),
            ));
        }
    }
    out
}

} // verus!
