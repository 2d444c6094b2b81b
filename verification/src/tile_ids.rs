//! Tile selections written as comma-separated ids and inclusive ranges, such
//! as `"3, 7-9,12"`.
use vstd::prelude::*;
use vstd::string::{StrSliceExecFns, StringExecFns};
use crate::sorted::{increasing_u32, insert_sorted_u32};
use crate::text::chars_of;
use crate::world::{decimal, decimal_string};

verus! {

/// Unicode white space, as trimmed from both ends of every piece.
pub open spec fn is_ws(c: char) -> bool {
    let u = c as u32;
    (9 <= u && u <= 13) || u == 32 || u == 0x85 || u == 0xA0 || u == 0x1680 || (0x2000 <= u && u
        <= 0x200A) || u == 0x2028 || u == 0x2029 || u == 0x202F || u == 0x205F || u == 0x3000
}

pub open spec fn trim_start(s: Seq<char>) -> Seq<char>
    decreases s.len(),
{
    if s.len() > 0 && is_ws(s[0]) {
        trim_start(s.drop_first())
    } else {
        s
    }
}

pub open spec fn trim_end(s: Seq<char>) -> Seq<char>
    decreases s.len(),
{
    if s.len() > 0 && is_ws(s.last()) {
        trim_end(s.drop_last())
    } else {
        s
    }
}

/// `s` without leading and trailing white space.
pub open spec fn trim(s: Seq<char>) -> Seq<char> {
    trim_end(trim_start(s))
}

/// The pieces of `s` between separators; `n` separators give `n + 1` pieces.
pub open spec fn split_on(s: Seq<char>, sep: char) -> Seq<Seq<char>>
    decreases s.len(),
{
    if s.len() == 0 {
        seq![Seq::empty()]
    } else {
        let p = split_on(s.drop_last(), sep);
        if s.last() == sep {
            p.push(Seq::empty())
        } else {
            p.update(p.len() - 1, p.last().push(s.last()))
        }
    }
}

/// Position of the first `c` in `s`.
pub open spec fn first_index(s: Seq<char>, c: char) -> Option<int>
    decreases s.len(),
{
    if s.len() == 0 {
        None
    } else if s[0] == c {
        Some(0)
    } else {
        match first_index(s.drop_first(), c) {
            Some(i) => Some(i + 1),
            None => None,
        }
    }
}

pub open spec fn is_digit(c: char) -> bool {
    48 <= (c as u32) && (c as u32) <= 57
}

pub open spec fn digits_value(d: Seq<char>) -> nat
    decreases d.len(),
{
    if d.len() == 0 {
        0
    } else {
        digits_value(d.drop_last()) * 10 + ((d.last() as u32) - 48) as nat
    }
}

/// An unsigned 32-bit number in decimal: an optional `+`, then one or more
/// digits, with a value that fits.
pub open spec fn unsigned_digits(s: Seq<char>) -> Seq<char> {
    if s.len() > 0 && s[0] == '+' {
        s.drop_first()
    } else {
        s
    }
}

pub open spec fn all_digits(d: Seq<char>) -> bool {
    forall|i: int| 0 <= i < d.len() ==> is_digit(#[trigger] d[i])
}

pub open spec fn parse_u32(s: Seq<char>) -> Option<u32> {
    let d = unsigned_digits(s);
    if d.len() > 0 && all_digits(d) && digits_value(d) <= u32::MAX {
        Some(digits_value(d) as u32)
    } else {
        None
    }
}

/// Why a tile selection was refused.
#[derive(Debug, Clone, Copy, PartialEq, Eq, Structural)]
pub enum TileIdErrorKind {
    /// The text before `-` is not a number.
    InvalidRangeStart,
    /// The text after `-` is not a number.
    InvalidRangeEnd,
    /// The range ends before it starts.
    InvalidRange,
    /// The range ends past the largest tile id.
    RangeExceedsMax,
    /// A single id is not a number.
    InvalidTileId,
    /// A single id is past the largest tile id.
    TileIdExceedsMax,
}

/// A refused tile selection: the offending text (the range start or end as
/// written, or the whole trimmed piece) and, where one is involved, the
/// offending id.
#[derive(Debug)]
pub struct TileIdError {
    pub kind: TileIdErrorKind,
    pub text: String,
    pub value: u32,
}

/// The message shown for a refused selection whose largest tile id is
/// `max_tile_id`.
pub open spec fn error_message(kind: TileIdErrorKind, text: Seq<char>, value: u32, max_tile_id: u32) -> Seq<char> {
    match kind {
        TileIdErrorKind::InvalidRangeStart => "invalid tile id range start: "@ + text,
        TileIdErrorKind::InvalidRangeEnd => "invalid tile id range end: "@ + text,
        TileIdErrorKind::InvalidRange => "invalid tile range "@ + text,
        TileIdErrorKind::RangeExceedsMax => "tile range "@ + text + " exceeds max tile id "@ + decimal(max_tile_id as nat),
        TileIdErrorKind::InvalidTileId => "invalid tile id: "@ + text,
        TileIdErrorKind::TileIdExceedsMax => "tile id "@ + decimal(value as nat) + " exceeds max tile id "@ + decimal(
            max_tile_id as nat,
        ),
    }
}

impl TileIdError {
    /// The message shown for the error (see `error_message`).
    pub fn message(&self, max_tile_id: u32) -> (m: String)
        ensures
            m@ == error_message(self.kind, self.text@, self.value, max_tile_id),
    {
        let max = decimal_string(max_tile_id);
        match self.kind {
            TileIdErrorKind::InvalidRangeStart => String::from_str("invalid tile id range start: ").concat(self.text.as_str()),
            TileIdErrorKind::InvalidRangeEnd => String::from_str("invalid tile id range end: ").concat(self.text.as_str()),
            TileIdErrorKind::InvalidRange => String::from_str("invalid tile range ").concat(self.text.as_str()),
            TileIdErrorKind::RangeExceedsMax => String::from_str("tile range ").concat(self.text.as_str()).concat(
                " exceeds max tile id ",
            ).concat(max.as_str()),
            TileIdErrorKind::InvalidTileId => String::from_str("invalid tile id: ").concat(self.text.as_str()),
            TileIdErrorKind::TileIdExceedsMax => {
                let v = decimal_string(self.value);
                String::from_str("tile id ").concat(v.as_str()).concat(" exceeds max tile id ").concat(max.as_str())
            },
        }
    }
}

pub open spec fn id_range(start: u32, end: u32) -> Seq<u32> {
    Seq::new((end - start + 1) as nat, |i: int| (start + i) as u32)
}

/// The ids of one trimmed piece: nothing for an empty piece; `a-b` for the
/// inclusive range; otherwise a single id.
pub open spec fn parse_piece(t: Seq<char>, max: u32) -> Result<Seq<u32>, (TileIdErrorKind, Seq<char>, u32)> {
    if t.len() == 0 {
        Ok(Seq::empty())
    } else {
        match first_index(t, '-') {
            Some(d) => {
                let start_raw = t.take(d);
                let end_raw = t.skip(d + 1);
                match parse_u32(trim(start_raw)) {
                    None => Err((TileIdErrorKind::InvalidRangeStart, start_raw, 0)),
                    Some(start) => match parse_u32(trim(end_raw)) {
                        None => Err((TileIdErrorKind::InvalidRangeEnd, end_raw, 0)),
                        Some(end) => if start > end {
                            Err((TileIdErrorKind::InvalidRange, t, 0))
                        } else if end > max {
                            Err((TileIdErrorKind::RangeExceedsMax, t, end))
                        } else {
                            Ok(id_range(start, end))
                        },
                    },
                }
            },
            None => match parse_u32(t) {
                None => Err((TileIdErrorKind::InvalidTileId, t, 0)),
                Some(id) => if id > max {
                    Err((TileIdErrorKind::TileIdExceedsMax, t, id))
                } else {
                    Ok(seq![id])
                },
            },
        }
    }
}

/// The ids of the pieces, in order; the first refused piece decides the error.
pub open spec fn parse_pieces(pieces: Seq<Seq<char>>, max: u32) -> Result<Seq<u32>, (TileIdErrorKind, Seq<char>, u32)>
    decreases pieces.len(),
{
    if pieces.len() == 0 {
        Ok(Seq::empty())
    } else {
        match parse_pieces(pieces.drop_last(), max) {
            Err(e) => Err(e),
            Ok(ids) => match parse_piece(trim(pieces.last()), max) {
                Err(e) => Err(e),
                Ok(more) => Ok(ids + more),
            },
        }
    }
}

/// The ids a selection names, before ordering, or why it is refused.
pub open spec fn selection_ids(input: Seq<char>, max: u32) -> Result<Seq<u32>, (TileIdErrorKind, Seq<char>, u32)> {
    parse_pieces(split_on(input, ','), max)
}

pub open spec fn ok_ids(r: Result<Seq<u32>, (TileIdErrorKind, Seq<char>, u32)>) -> Seq<u32> {
    match r {
        Ok(ids) => ids,
        Err(_) => Seq::empty(),
    }
}

pub open spec fn error_view(e: TileIdError) -> (TileIdErrorKind, Seq<char>, u32) {
    (e.kind, e.text@, e.value)
}

// ---------------------------------------------------------------------------
// Proofs about the model
// ---------------------------------------------------------------------------

pub proof fn lemma_split_nonempty(s: Seq<char>, sep: char)
    ensures
        split_on(s, sep).len() >= 1,
    decreases s.len(),
{
    if s.len() > 0 {
        lemma_split_nonempty(s.drop_last(), sep);
    }
}

pub proof fn lemma_add_contains(a: Seq<u32>, b: Seq<u32>, y: u32)
    ensures
        (a + b).contains(y) <==> (a.contains(y) || b.contains(y)),
{
    if a.contains(y) {
        let i = choose|i: int| 0 <= i < a.len() && a[i] == y;
        assert((a + b)[i] == y);
    }
    if b.contains(y) {
        let i = choose|i: int| 0 <= i < b.len() && b[i] == y;
        assert((a + b)[a.len() + i] == y);
    }
    if (a + b).contains(y) {
        let i = choose|i: int| 0 <= i < (a + b).len() && (a + b)[i] == y;
        if i < a.len() {
            assert(a[i] == y);
        } else {
            assert(b[i - a.len()] == y);
        }
    }
}

pub proof fn lemma_digits_prefix(d: Seq<char>, j: int)
    requires
        0 <= j <= d.len(),
    ensures
        digits_value(d.take(j)) <= digits_value(d),
    decreases d.len(),
{
    if j < d.len() {
        assert(d.drop_last().take(j) =~= d.take(j));
        lemma_digits_prefix(d.drop_last(), j);
    } else {
        assert(d.take(j) =~= d);
    }
}

// ---------------------------------------------------------------------------
// Executable pieces
// ---------------------------------------------------------------------------

fn is_white(c: char) -> (b: bool)
    ensures
        b == is_ws(c),
{
    let u = c as u32;
    (9 <= u && u <= 13) || u == 32 || u == 0x85 || u == 0xA0 || u == 0x1680 || (0x2000 <= u && u
        <= 0x200A) || u == 0x2028 || u == 0x2029 || u == 0x202F || u == 0x205F || u == 0x3000
}

/// Bounds of the trimmed piece `cs[a..b]`.
fn trim_range(cs: &Vec<char>, a: usize, b: usize) -> (r: (usize, usize))
    requires
        a <= b <= cs@.len(),
    ensures
        a <= r.0 <= r.1 <= b,
        trim(cs@.subrange(a as int, b as int)) == cs@.subrange(r.0 as int, r.1 as int),
{
    let mut i = a;
    while i < b && is_white(cs[i])
        invariant
            a <= i <= b,
            b <= cs@.len(),
            trim_start(cs@.subrange(a as int, b as int)) == trim_start(cs@.subrange(i as int, b as int)),
        decreases b - i,
    {
        assert(cs@.subrange(i as int, b as int).drop_first() =~= cs@.subrange(i + 1, b as int));
        i = i + 1;
    }
    let mut j = b;
    while j > i && is_white(cs[j - 1])
        invariant
            a <= i <= j <= b,
            b <= cs@.len(),
            trim_end(cs@.subrange(i as int, b as int)) == trim_end(cs@.subrange(i as int, j as int)),
        decreases j - i,
    {
        assert(cs@.subrange(i as int, j as int).drop_last() =~= cs@.subrange(i as int, j - 1));
        j = j - 1;
    }
    (i, j)
}

/// The number written in `cs[a..b]` (see `parse_u32`).
fn parse_u32_range(cs: &Vec<char>, a: usize, b: usize) -> (r: Option<u32>)
    requires
        a <= b <= cs@.len(),
    ensures
        r == parse_u32(cs@.subrange(a as int, b as int)),
{
    let ghost s = cs@.subrange(a as int, b as int);
    let mut p = a;
    if p < b && cs[p] == '+' {
        p = p + 1;
    }
    let ghost d = cs@.subrange(p as int, b as int);
    assert(d =~= unsigned_digits(s));
    if p == b {
        return None;
    }
    assert(d.len() > 0);
    let mut value: u64 = 0;
    let mut i = p;
    while i < b
        invariant
            p <= i <= b,
            b <= cs@.len(),
            d == cs@.subrange(p as int, b as int),
            value == digits_value(d.take(i - p)),
            value <= u32::MAX,
            forall|k: int| 0 <= k < i - p ==> is_digit(#[trigger] d[k]),
            s == cs@.subrange(a as int, b as int),
            d == unsigned_digits(s),
            d.len() > 0,
        decreases b - i,
    {
        let c = cs[i];
        let u = c as u32;
        if !(48 <= u && u <= 57) {
            assert(!is_digit(d[i - p]));
            return None;
        }
        assert(d.take(i - p + 1).drop_last() =~= d.take(i - p));
        value = value * 10 + (u - 48) as u64;
        if value > 0xFFFF_FFFF {
            proof {
                lemma_digits_prefix(d, i - p + 1);
            }
            return None;
        }
        i = i + 1;
    }
    assert(d.take(d.len() as int) =~= d);
    Some(value as u32)
}

/// Position of the first `c` in `cs[a..b]`, relative to `a`.
fn find_char(cs: &Vec<char>, a: usize, b: usize, c: char) -> (r: Option<usize>)
    requires
        a <= b <= cs@.len(),
    ensures
        match r {
            Some(i) => first_index(cs@.subrange(a as int, b as int), c) == Some(i as int) && a + i < b,
            None => first_index(cs@.subrange(a as int, b as int), c) is None,
        },
{
    let mut i = b;
    let mut found: Option<usize> = None;
    while i > a
        invariant
            a <= i <= b,
            b <= cs@.len(),
            match found {
                Some(k) => first_index(cs@.subrange(i as int, b as int), c) == Some(k as int) && i + k < b,
                None => first_index(cs@.subrange(i as int, b as int), c) is None,
            },
        decreases i - a,
    {
        let j = i - 1;
        assert(cs@.subrange(j as int, b as int).drop_first() =~= cs@.subrange(i as int, b as int));
        if cs[j] == c {
            found = Some(0);
        } else {
            found = match found {
                Some(k) => Some(k + 1),
                None => None,
            };
        }
        i = j;
    }
    found
}

fn text_of(input: &str, cs: &Vec<char>, a: usize, b: usize) -> (t: String)
    requires
        cs@ == input@,
        a <= b <= cs@.len(),
    ensures
        t@ == cs@.subrange(a as int, b as int),
{
    String::from_str(input.substring_char(a, b))
}

/// Adds the ids of the trimmed piece `cs[a..b]` to `out`.
fn add_piece(input: &str, cs: &Vec<char>, a: usize, b: usize, max_tile_id: u32, out: &mut Vec<u32>) -> (r: Result<(), TileIdError>)
    requires
        cs@ == input@,
        a <= b <= cs@.len(),
        increasing_u32(old(out)@),
    ensures
        increasing_u32(final(out)@),
        match (r, parse_piece(cs@.subrange(a as int, b as int), max_tile_id)) {
            (Ok(()), Ok(ids)) => forall|y: u32| #[trigger] final(out)@.contains(y) <==> (old(out)@.contains(y) || ids.contains(y)),
            (Err(e), Err(f)) => error_view(e) == f,
            _ => false,
        },
{
    let ghost t = cs@.subrange(a as int, b as int);
    if a == b {
        proof {
            assert forall|y: u32| #[trigger] out@.contains(y) <==> (out@.contains(y) || Seq::<u32>::empty().contains(y)) by {}
        }
        return Ok(());
    }
    match find_char(cs, a, b, '-') {
        Some(d) => {
            let dash = a + d;
            assert(t.take(d as int) =~= cs@.subrange(a as int, dash as int));
            assert(t.skip(d + 1) =~= cs@.subrange(dash + 1, b as int));
            let (sa, sb) = trim_range(cs, a, dash);
            let start = match parse_u32_range(cs, sa, sb) {
                None => {
                    return Err(TileIdError { kind: TileIdErrorKind::InvalidRangeStart, text: text_of(input, cs, a, dash), value: 0 });
                },
                Some(v) => v,
            };
            let (ea, eb) = trim_range(cs, dash + 1, b);
            let end = match parse_u32_range(cs, ea, eb) {
                None => {
                    return Err(TileIdError { kind: TileIdErrorKind::InvalidRangeEnd, text: text_of(input, cs, dash + 1, b), value: 0 });
                },
                Some(v) => v,
            };
            if start > end {
                return Err(TileIdError { kind: TileIdErrorKind::InvalidRange, text: text_of(input, cs, a, b), value: 0 });
            }
            if end > max_tile_id {
                return Err(TileIdError { kind: TileIdErrorKind::RangeExceedsMax, text: text_of(input, cs, a, b), value: end });
            }
            let ghost before = out@;
            let mut v: u64 = start as u64;
            while v <= end as u64
                invariant
                    start <= v <= end + 1,
                    increasing_u32(out@),
                    forall|y: u32| #[trigger] out@.contains(y) <==> (before.contains(y) || (start <= y < v)),
                decreases end + 1 - v,
            {
                insert_sorted_u32(out, v as u32);
                v = v + 1;
            }
            proof {
                assert forall|y: u32| #[trigger] out@.contains(y) <==> (before.contains(y) || id_range(start, end).contains(y)) by {
                    if start <= y <= end {
                        assert(id_range(start, end)[y - start] == y);
                    }
                    if id_range(start, end).contains(y) {
                        let i = choose|i: int| 0 <= i < id_range(start, end).len() && id_range(start, end)[i] == y;
                    }
                }
            }
            Ok(())
        },
        None => {
            let id = match parse_u32_range(cs, a, b) {
                None => {
                    return Err(TileIdError { kind: TileIdErrorKind::InvalidTileId, text: text_of(input, cs, a, b), value: 0 });
                },
                Some(v) => v,
            };
            if id > max_tile_id {
                return Err(TileIdError { kind: TileIdErrorKind::TileIdExceedsMax, text: text_of(input, cs, a, b), value: id });
            }
            let ghost before = out@;
            insert_sorted_u32(out, id);
            proof {
                assert forall|y: u32| #[trigger] out@.contains(y) <==> (before.contains(y) || seq![id].contains(y)) by {
                    if y == id {
                        assert(seq![id][0] == y);
                    }
                }
            }
            Ok(())
        },
    }
}

/// The tile ids a selection names, in ascending order without repeats.
/// Pieces are separated by commas and trimmed; empty pieces are skipped; a
/// piece `a-b` names the inclusive range (each end trimmed), any other piece a
/// single id. Every id must be at most `max_tile_id`; the first piece that
/// breaks a rule decides the error.
pub fn parse_tile_id_ranges(input: &str, max_tile_id: u32) -> (r: Result<Vec<u32>, TileIdError>)
    ensures
        match (r, selection_ids(input@, max_tile_id)) {
            (Ok(out), Ok(ids)) => increasing_u32(out@) && forall|y: u32| #[trigger] out@.contains(y) <==> ids.contains(y),
            (Err(e), Err(f)) => error_view(e) == f,
            _ => false,
        },
        r matches Ok(out) ==> forall|i: int| 0 <= i < out@.len() ==> #[trigger] out@[i] <= max_tile_id,
{
    proof {
        lemma_selection_within_max(input@, max_tile_id);
    }
    let cs = chars_of(input);
    let n = cs.len();
    let mut out: Vec<u32> = Vec::new();
    let ghost mut done: Seq<Seq<char>> = Seq::empty();
    let mut a: usize = 0;
    let mut i: usize = 0;
    proof {
        assert(cs@.take(0) =~= Seq::<char>::empty());
        assert(cs@.subrange(0, 0) =~= Seq::<char>::empty());
    }
    while i < n
        invariant
            0 <= a <= i <= n,
            n == cs@.len(),
            cs@ == input@,
            split_on(cs@.take(i as int), ',') == done.push(cs@.subrange(a as int, i as int)),
            increasing_u32(out@),
            parse_pieces(done, max_tile_id) matches Ok(ids) && forall|y: u32| #[trigger] out@.contains(y) <==> ids.contains(y),
        decreases n - i,
    {
        proof {
            assert(cs@.take(i + 1).drop_last() =~= cs@.take(i as int));
            assert(cs@.take(i + 1).last() == cs@[i as int]);
            lemma_split_nonempty(cs@.take(i as int), ',');
        }
        if cs[i] == ',' {
            let (ta, tb) = trim_range(&cs, a, i);
            let ghost before = out@;
            let ghost prev_ids = ok_ids(parse_pieces(done, max_tile_id));
            let res = add_piece(input, &cs, ta, tb, max_tile_id, &mut out);
            let ghost piece = cs@.subrange(a as int, i as int);
            proof {
                assert(done.push(piece).drop_last() =~= done);
            }
            match res {
                Err(e) => {
                    proof {
                        lemma_prefix_error(cs@, i as int, done.push(piece), max_tile_id);
                    }
                    return Err(e);
                },
                Ok(()) => {},
            }
            proof {
                let more = ok_ids(parse_piece(trim(piece), max_tile_id));
                assert forall|y: u32| #[trigger] out@.contains(y) <==> (prev_ids + more).contains(y) by {
                    lemma_add_contains(prev_ids, more, y);
                }
                done = done.push(piece);
                assert(cs@.subrange(i + 1, i + 1) =~= Seq::<char>::empty());
            }
            a = i + 1;
        } else {
            proof {
                assert(cs@.subrange(a as int, i + 1) =~= cs@.subrange(a as int, i as int).push(cs@[i as int]));
                assert(done.push(cs@.subrange(a as int, i as int)).update(done.len() as int, cs@.subrange(a as int, i + 1)) =~= done.push(cs@.subrange(a as int, i + 1)));
            }
        }
        i = i + 1;
    }
    proof {
        assert(cs@.take(n as int) =~= cs@);
    }
    let (ta, tb) = trim_range(&cs, a, n);
    let ghost prev_ids = ok_ids(parse_pieces(done, max_tile_id));
    let ghost piece = cs@.subrange(a as int, n as int);
    let res = add_piece(input, &cs, ta, tb, max_tile_id, &mut out);
    proof {
        assert(done.push(piece).drop_last() =~= done);
    }
    match res {
        Err(e) => Err(e),
        Ok(()) => {
            proof {
                let more = ok_ids(parse_piece(trim(piece), max_tile_id));
                assert forall|y: u32| #[trigger] out@.contains(y) <==> (prev_ids + more).contains(y) by {
                    lemma_add_contains(prev_ids, more, y);
                }
                lemma_pieces_within_max(done, max_tile_id);
                lemma_piece_within_max(trim(piece), max_tile_id);
                assert forall|i: int| 0 <= i < out@.len() implies #[trigger] out@[i] <= max_tile_id by {
                    assert(out@.contains(out@[i]));
                    let k = choose|k: int| 0 <= k < (prev_ids + more).len() && (prev_ids + more)[k] == out@[i];
                    if k < prev_ids.len() {
                        assert((prev_ids + more)[k] == prev_ids[k]);
                    } else {
                        assert((prev_ids + more)[k] == more[k - prev_ids.len()]);
                    }
                }
            }
            Ok(out)
        },
    }
}

/// When the pieces before a separator end in an error, so does the whole
/// selection.
proof fn lemma_prefix_error(s: Seq<char>, i: int, pieces: Seq<Seq<char>>, max: u32)
    requires
        0 <= i < s.len(),
        s[i] == ',',
        split_on(s.take(i + 1), ',') == pieces.push(Seq::empty()),
        parse_pieces(pieces, max) is Err,
    ensures
        parse_pieces(split_on(s, ','), max) == parse_pieces(pieces, max),
    decreases s.len() - i,
{
    lemma_split_extends(s, i + 1);
    let all = split_on(s, ',');
    lemma_parse_prefix_error(all, pieces.len() as int, max, pieces);
}

/// The pieces of a prefix of `s`, but the last, are the first pieces of `s`.
proof fn lemma_split_extends(s: Seq<char>, k: int)
    requires
        0 <= k <= s.len(),
    ensures
        split_on(s, ',').len() >= split_on(s.take(k), ',').len(),
        forall|j: int| 0 <= j < split_on(s.take(k), ',').len() - 1 ==> split_on(s, ',')[j] == split_on(s.take(k), ',')[j],
    decreases s.len() - k,
{
    lemma_split_nonempty(s.take(k), ',');
    if k < s.len() {
        lemma_split_extends(s, k + 1);
        assert(s.take(k + 1).drop_last() =~= s.take(k));
        lemma_split_nonempty(s.take(k + 1), ',');
    } else {
        assert(s.take(k) =~= s);
    }
}

/// An error among the first `m` pieces is the error of all pieces.
proof fn lemma_parse_prefix_error(all: Seq<Seq<char>>, m: int, max: u32, pre: Seq<Seq<char>>)
    requires
        0 <= m <= all.len(),
        pre.len() == m,
        forall|j: int| 0 <= j < m ==> all[j] == pre[j],
        parse_pieces(pre, max) is Err,
    ensures
        parse_pieces(all, max) == parse_pieces(pre, max),
    decreases all.len(),
{
    if all.len() == m {
        assert(all =~= pre);
    } else {
        lemma_parse_prefix_error(all.drop_last(), m, max, pre);
    }
}

proof fn lemma_piece_within_max(t: Seq<char>, max: u32)
    ensures
        parse_piece(t, max) matches Ok(ids) ==> forall|i: int| 0 <= i < ids.len() ==> #[trigger] ids[i] <= max,
{
}

proof fn lemma_pieces_within_max(pieces: Seq<Seq<char>>, max: u32)
    ensures
        parse_pieces(pieces, max) matches Ok(ids) ==> forall|i: int| 0 <= i < ids.len() ==> #[trigger] ids[i] <= max,
    decreases pieces.len(),
{
    if pieces.len() > 0 {
        lemma_pieces_within_max(pieces.drop_last(), max);
        lemma_piece_within_max(trim(pieces.last()), max);
        if let Ok(ids) = parse_pieces(pieces, max) {
            let prev = parse_pieces(pieces.drop_last(), max)->Ok_0;
            let more = parse_piece(trim(pieces.last()), max)->Ok_0;
            assert(ids == prev + more);
            assert forall|i: int| 0 <= i < ids.len() implies #[trigger] ids[i] <= max by {
                if i < prev.len() {
                    assert(ids[i] == prev[i]);
                } else {
                    assert(ids[i] == more[i - prev.len()]);
                }
            }
        }
    }
}

/// Law: an accepted selection names no tile past `max_tile_id`.
pub proof fn lemma_selection_within_max(input: Seq<char>, max_tile_id: u32)
    ensures
        selection_ids(input, max_tile_id) matches Ok(ids) ==> forall|i: int| 0 <= i < ids.len() ==> #[trigger] ids[i] <= max_tile_id,
{
    lemma_pieces_within_max(split_on(input, ','), max_tile_id);
}

} // verus!
