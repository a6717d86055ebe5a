//! Paths: the text form and the list of steps that it denotes.
//!
//! A path starts with `$`, the whole document, and goes on with steps:
//! `.name`, `['name']` or `["name"]` for a member, `[7]` for an item, and
//! `.*` or `[*]` for every member or item.

use crate::error::{Error, ErrorKind, Failure};
use vstd::prelude::*;
use vstd::string::StrSliceExecFns;

verus! {

/// One step of a path.
#[derive(Debug, PartialEq)]
pub enum Segment {
    Key(String),
    Index(usize),
    All,
}

/// What a step stands for.
pub ghost enum Seg {
    Key(Seq<char>),
    Index(nat),
    All,
}

impl View for Segment {
    type V = Seg;

    open spec fn view(&self) -> Seg {
        match self {
            Segment::Key(k) => Seg::Key(k@),
            Segment::Index(i) => Seg::Index(*i as nat),
            Segment::All => Seg::All,
        }
    }
}

/// The steps that a list of segments stands for.
pub open spec fn steps(segments: Seq<Segment>) -> Seq<Seg> {
    Seq::new(segments.len(), |i: int| segments[i]@)
}

/// Whether a character can stand in a bare member name.
pub open spec fn is_name_char(c: char) -> bool {
    c != '.' && c != '['
}

/// Whether a character is a decimal digit.
pub open spec fn is_digit(c: char) -> bool {
    '0' <= c <= '9'
}

/// The end of the bare name that starts at `i`.
pub open spec fn name_end(s: Seq<char>, i: int) -> int
    decreases s.len() - i,
{
    if 0 <= i < s.len() && is_name_char(s[i]) {
        name_end(s, i + 1)
    } else {
        i
    }
}

/// The first position from `i` on that holds `q`, or the end of the text.
pub open spec fn quote_end(s: Seq<char>, i: int, q: char) -> int
    decreases s.len() - i,
{
    if 0 <= i < s.len() && s[i] != q {
        quote_end(s, i + 1, q)
    } else {
        i
    }
}

/// The end of the digits that start at `i`.
pub open spec fn digits_end(s: Seq<char>, i: int) -> int
    decreases s.len() - i,
{
    if 0 <= i < s.len() && is_digit(s[i]) {
        digits_end(s, i + 1)
    } else {
        i
    }
}

/// The number that the digits from `from` up to `to` write.
pub open spec fn digits_value(s: Seq<char>, from: int, to: int) -> nat
    decreases to - from,
{
    if to <= from || to > s.len() || from < 0 {
        0
    } else {
        digits_value(s, from, to - 1) * 10 + (s[to - 1] as nat - '0' as nat) as nat
    }
}

/// The step that starts at `i`, and where it ends; `None` where none does.
pub open spec fn step_at(s: Seq<char>, i: int) -> Option<(Seg, int)> {
    if !(0 <= i < s.len()) {
        None
    } else if s[i] == '.' {
        if i + 1 < s.len() && s[i + 1] == '*' {
            Some((Seg::All, i + 2))
        } else if name_end(s, i + 1) > i + 1 {
            Some((Seg::Key(s.subrange(i + 1, name_end(s, i + 1))), name_end(s, i + 1)))
        } else {
            None
        }
    } else if s[i] == '[' {
        if i + 2 < s.len() && s[i + 1] == '*' && s[i + 2] == ']' {
            Some((Seg::All, i + 3))
        } else if i + 1 < s.len() && (s[i + 1] == '\'' || s[i + 1] == '"') {
            let close = quote_end(s, i + 2, s[i + 1]);
            if close + 1 < s.len() && s[close + 1] == ']' {
                Some((Seg::Key(s.subrange(i + 2, close)), close + 2))
            } else {
                None
            }
        } else {
            let end = digits_end(s, i + 1);
            if end > i + 1 && end < s.len() && s[end] == ']' && digits_value(s, i + 1, end)
                <= usize::MAX {
                Some((Seg::Index(digits_value(s, i + 1, end)), end + 1))
            } else {
                None
            }
        }
    } else {
        None
    }
}

/// The steps written from `i` to the end of the text.
pub open spec fn steps_from(s: Seq<char>, i: int) -> Option<Seq<Seg>>
    decreases s.len() - i,
{
    if i < 0 || i > s.len() {
        None
    } else if i == s.len() {
        Some(Seq::empty())
    } else {
        match step_at(s, i) {
            Some((seg, j)) => if i < j <= s.len() {
                match steps_from(s, j) {
                    Some(rest) => Some(seq![seg] + rest),
                    None => None,
                }
            } else {
                None
            },
            None => None,
        }
    }
}

/// The steps that a path text denotes; `None` for a malformed one.
pub open spec fn parsed(s: Seq<char>) -> Option<Seq<Seg>> {
    if s.len() > 0 && s[0] == '$' {
        steps_from(s, 1)
    } else {
        None
    }
}

/// The failure for a malformed path.
pub open spec fn malformed() -> Failure {
    Failure { kind: ErrorKind::Path, msg: "ERR malformed path"@ }
}

proof fn lemma_name_end_bounds(s: Seq<char>, i: int)
    requires
        0 <= i <= s.len(),
    ensures
        i <= name_end(s, i) <= s.len(),
    decreases s.len() - i,
{
    if i < s.len() && is_name_char(s[i]) {
        lemma_name_end_bounds(s, i + 1);
    }
}

fn scan_name(path: &str, len: usize, start: usize) -> (end: usize)
    requires
        len == path@.len(),
        start <= len,
    ensures
        end == name_end(path@, start as int),
        start <= end <= len,
{
    let mut i: usize = start;
    while i < len
        invariant
            len == path@.len(),
            start <= i <= len,
            name_end(path@, start as int) == name_end(path@, i as int),
        decreases len - i,
    {
        let c = path.get_char(i);
        if c == '.' || c == '[' {
            return i;
        }
        i += 1;
    }
    i
}

fn scan_quote(path: &str, len: usize, start: usize, q: char) -> (end: usize)
    requires
        len == path@.len(),
        start <= len,
    ensures
        end == quote_end(path@, start as int, q),
        start <= end <= len,
{
    let mut i: usize = start;
    while i < len
        invariant
            len == path@.len(),
            start <= i <= len,
            quote_end(path@, start as int, q) == quote_end(path@, i as int, q),
        decreases len - i,
    {
        let c = path.get_char(i);
        if c == q {
            return i;
        }
        i += 1;
    }
    i
}

fn scan_digits(path: &str, len: usize, start: usize) -> (r: (usize, Option<usize>))
    requires
        len == path@.len(),
        start <= len,
    ensures
        r.0 == digits_end(path@, start as int),
        start <= r.0 <= len,
        match r.1 {
            Some(v) => v == digits_value(path@, start as int, r.0 as int),
            None => digits_value(path@, start as int, r.0 as int) > usize::MAX,
        },
{
    let mut i: usize = start;
    let mut value: Option<usize> = Some(0);
    while i < len
        invariant
            len == path@.len(),
            start <= i <= len,
            digits_end(path@, start as int) == digits_end(path@, i as int),
            match value {
                Some(v) => v == digits_value(path@, start as int, i as int),
                None => digits_value(path@, start as int, i as int) > usize::MAX,
            },
        decreases len - i,
    {
        let c = path.get_char(i);
        if !('0' <= c && c <= '9') {
            return (i, value);
        }
        let d: usize = (c as u32 - '0' as u32) as usize;
        assert(digits_value(path@, start as int, i + 1) == digits_value(
            path@,
            start as int,
            i as int,
        ) * 10 + d);
        value =
        match value {
            Some(v) => match v.checked_mul(10) {
                Some(w) => w.checked_add(d),
                None => None,
            },
            None => None,
        };
        i += 1;
    }
    (i, value)
}

/// The failure for a malformed path.
pub fn bad_path() -> (e: Error)
    ensures
        e@ == malformed(),
{
    Error::new(ErrorKind::Path, "ERR malformed path")
}

fn parse_step(path: &str, len: usize, i: usize) -> (r: Option<(Segment, usize)>)
    requires
        len == path@.len(),
        i < len,
    ensures
        match step_at(path@, i as int) {
            Some((seg, j)) => r matches Some((found, next)) && found@ == seg && next == j && i < j
                <= len,
            None => r is None,
        },
{
    let c = path.get_char(i);
    if c == '.' {
        if i + 1 < len && path.get_char(i + 1) == '*' {
            return Some((Segment::All, i + 2));
        }
        let end = scan_name(path, len, i + 1);
        if end > i + 1 {
            let key = path.substring_char(i + 1, end).to_owned();
            Some((Segment::Key(key), end))
        } else {
            None
        }
    } else if c == '[' {
        if len - i > 2 && path.get_char(i + 1) == '*' && path.get_char(i + 2) == ']' {
            return Some((Segment::All, i + 3));
        }
        if i + 1 < len && (path.get_char(i + 1) == '\'' || path.get_char(i + 1) == '"') {
            let q = path.get_char(i + 1);
            let close = scan_quote(path, len, i + 2, q);
            if close < len && close + 1 < len && path.get_char(close + 1) == ']' {
                let key = path.substring_char(i + 2, close).to_owned();
                return Some((Segment::Key(key), close + 2));
            }
            return None;
        }
        let (end, value) = scan_digits(path, len, i + 1);
        if end > i + 1 && end < len && path.get_char(end) == ']' {
            match value {
                Some(v) => Some((Segment::Index(v), end + 1)),
                None => None,
            }
        } else {
            None
        }
    } else {
        None
    }
}

/// Reads a path. It fails exactly on a text that denotes no list of steps.
pub fn parse_path(path: &str) -> (r: Result<Vec<Segment>, Error>)
    ensures
        match parsed(path@) {
            Some(p) => r is Ok && steps(r->Ok_0@) == p,
            None => r is Err && r->Err_0@ == malformed(),
        },
{
    let len = path.unicode_len();
    if len == 0 || path.get_char(0) != '$' {
        return Err(bad_path());
    }
    let mut out: Vec<Segment> = Vec::new();
    let mut i: usize = 1;
    while i < len
        invariant
            len == path@.len(),
            1 <= i <= len,
            parsed(path@) == match steps_from(path@, i as int) {
                Some(rest) => Some(steps(out@) + rest),
                None => None,
            },
        decreases len - i,
    {
        match parse_step(path, len, i) {
            Some((seg, j)) => {
                proof {
                    let rest0 = steps_from(path@, j as int);
                    if rest0 is Some {
                        assert(steps(out@.push(seg)) + rest0->0 =~= steps(out@) + (seq![seg@]
                            + rest0->0));
                    }
                }
                out.push(seg);
                i = j;
            },
            None => {
                return Err(bad_path());
            },
        }
    }
    proof {
        assert(steps(out@) + Seq::<Seg>::empty() =~= steps(out@));
    }
    Ok(out)
}

} // verus!
