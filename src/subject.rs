//! Extraction of a file-name-safe subject from message header text.
use vstd::prelude::*;
use crate::text::{chars_of, string_of};

verus! {

/// The characters kept in a name: ASCII letters, digits, `_`, `-` and space.
pub open spec fn is_name_char(c: char) -> bool {
    ('a' <= c && c <= 'z') || ('A' <= c && c <= 'Z') || ('0' <= c && c <= '9') || c == '_'
        || c == '-' || c == ' '
}

/// Unicode White_Space, the set that `str::trim` removes.
pub open spec fn is_white(c: char) -> bool {
    let u = c as u32;
    (0x9 <= u && u <= 0xd) || u == 0x20 || u == 0x85 || u == 0xa0 || u == 0x1680 || (0x2000 <= u
        && u <= 0x200a) || u == 0x2028 || u == 0x2029 || u == 0x202f || u == 0x205f || u == 0x3000
}

pub open spec fn trim_front(s: Seq<char>) -> Seq<char>
    decreases s.len(),
{
    if s.len() > 0 && is_white(s[0]) {
        trim_front(s.drop_first())
    } else {
        s
    }
}

pub open spec fn trim_back(s: Seq<char>) -> Seq<char>
    decreases s.len(),
{
    if s.len() > 0 && is_white(s.last()) {
        trim_back(s.drop_last())
    } else {
        s
    }
}

/// `s` without leading and trailing white space.
pub open spec fn trimmed(s: Seq<char>) -> Seq<char> {
    trim_back(trim_front(s))
}

/// The characters of `s` that may stand in a name, in order.
pub open spec fn name_chars(s: Seq<char>) -> Seq<char>
    decreases s.len(),
{
    if s.len() == 0 {
        s
    } else if is_name_char(s.last()) {
        name_chars(s.drop_last()).push(s.last())
    } else {
        name_chars(s.drop_last())
    }
}

pub open spec fn subject_prefix() -> Seq<char> {
    seq!['S', 'u', 'b', 'j', 'e', 'c', 't', ':']
}

/// Index of the first line break at or after `i`, or the length of `h`.
pub open spec fn line_end(h: Seq<char>, i: int) -> int
    decreases h.len() - i,
{
    if i >= h.len() || h[i] == '\n' {
        i
    } else {
        line_end(h, i + 1)
    }
}

/// The subject found in the lines of `h` that start at `i` or later.
pub open spec fn subject_from(h: Seq<char>, i: int) -> Option<Seq<char>>
    recommends
        0 <= i <= h.len(),
    decreases h.len() - i, 2int,
{
    if i < 0 || i > h.len() {
        None
    } else {
        let e = line_end(h, i);
        let t = trimmed(h.subrange(i, e));
        if t.len() >= 8 && t.subrange(0, 8) == subject_prefix() {
            Some(name_chars(t.subrange(8, t.len() as int)))
        } else if e >= h.len() {
            None
        } else {
            subject_from_next(h, i, e + 1)
        }
    }
}

pub open spec fn subject_from_next(h: Seq<char>, i: int, j: int) -> Option<Seq<char>>
    decreases h.len() - i, 0int,
{
    if i < j <= h.len() {
        subject_from(h, j)
    } else {
        None
    }
}

/// The subject of header text `h`: the first line that, trimmed, begins
/// with `Subject:`, with what follows the prefix reduced to name characters.
pub open spec fn subject_of(h: Seq<char>) -> Option<Seq<char>> {
    subject_from(h, 0)
}

proof fn lemma_line_end_bounds(h: Seq<char>, i: int)
    requires
        0 <= i <= h.len(),
    ensures
        i <= line_end(h, i) <= h.len(),
        line_end(h, i) < h.len() ==> h[line_end(h, i)] == '\n',
    decreases h.len() - i,
{
    if i < h.len() && h[i] != '\n' {
        lemma_line_end_bounds(h, i + 1);
    }
}

/// The line of `h` that starts at `j`.
pub open spec fn line_at(h: Seq<char>, j: int) -> Seq<char> {
    h.subrange(j, line_end(h, j))
}

/// `t` begins with `Subject:`.
pub open spec fn starts_subject(t: Seq<char>) -> bool {
    t.len() >= 8 && t.subrange(0, 8) == subject_prefix()
}

/// No line of `h` that starts at `i` or at a later line start begins with
/// `Subject:` once trimmed.
pub open spec fn no_subject_line_from(h: Seq<char>, i: int) -> bool {
    forall|j: int|
        i <= j <= h.len() && (j == i || h[j - 1] == '\n') ==> !starts_subject(
            trimmed(#[trigger] line_at(h, j)),
        )
}

proof fn lemma_line_end_no_break(h: Seq<char>, i: int, k: int)
    requires
        0 <= i <= k < line_end(h, i),
    ensures
        h[k] != '\n',
    decreases h.len() - i,
{
    if i < k {
        lemma_line_end_no_break(h, i + 1, k);
    }
}

proof fn lemma_no_subject_from(h: Seq<char>, i: int)
    requires
        0 <= i <= h.len(),
    ensures
        subject_from(h, i) is None <==> no_subject_line_from(h, i),
    decreases h.len() - i,
{
    let e = line_end(h, i);
    lemma_line_end_bounds(h, i);
    if starts_subject(trimmed(line_at(h, i))) {
        assert(!no_subject_line_from(h, i));
    } else if e >= h.len() {
        assert forall|j: int|
            i <= j <= h.len() && (j == i || h[j - 1] == '\n') implies !starts_subject(
            trimmed(#[trigger] line_at(h, j)),
        ) by {
            if j > i {
                lemma_line_end_no_break(h, i, j - 1);
            }
        }
    } else {
        lemma_no_subject_from(h, e + 1);
        if no_subject_line_from(h, e + 1) {
            assert forall|j: int|
                i <= j <= h.len() && (j == i || h[j - 1] == '\n') implies !starts_subject(
                trimmed(#[trigger] line_at(h, j)),
            ) by {
                if i < j <= e {
                    lemma_line_end_no_break(h, i, j - 1);
                }
            }
        }
        if no_subject_line_from(h, i) {
            assert forall|j: int|
                e + 1 <= j <= h.len() && (j == e + 1 || h[j - 1] == '\n') implies !starts_subject(
                trimmed(#[trigger] line_at(h, j)),
            ) by {
                assert(h[j - 1] == '\n');
            }
        }
    }
}

/// Header text has no subject exactly when none of its lines, trimmed,
/// begins with `Subject:`.
pub proof fn lemma_no_subject(h: Seq<char>)
    ensures
        subject_of(h) is None <==> (forall|j: int|
            0 <= j <= h.len() && (j == 0 || h[j - 1] == '\n') ==> !starts_subject(
                trimmed(#[trigger] line_at(h, j)),
            )),
{
    lemma_no_subject_from(h, 0);
}

fn is_white_char(c: char) -> (r: bool)
    ensures
        r == is_white(c),
{
    let u = c as u32;
    (0x9 <= u && u <= 0xd) || u == 0x20 || u == 0x85 || u == 0xa0 || u == 0x1680 || (0x2000 <= u
        && u <= 0x200a) || u == 0x2028 || u == 0x2029 || u == 0x202f || u == 0x205f || u == 0x3000
}

fn is_name_char_exec(c: char) -> (r: bool)
    ensures
        r == is_name_char(c),
{
    ('a' <= c && c <= 'z') || ('A' <= c && c <= 'Z') || ('0' <= c && c <= '9') || c == '_'
        || c == '-' || c == ' '
}

/// Bounds `[lo, hi)` of `v[start..end]` with white space trimmed off both ends.
fn trim_bounds(v: &Vec<char>, start: usize, end: usize) -> (r: (usize, usize))
    requires
        start <= end <= v@.len(),
    ensures
        start <= r.0 <= r.1 <= end,
        v@.subrange(r.0 as int, r.1 as int) == trimmed(v@.subrange(start as int, end as int)),
{
    let ghost s = v@.subrange(start as int, end as int);
    let mut lo: usize = start;
    while lo < end && is_white_char(v[lo])
        invariant
            start <= lo <= end <= v@.len(),
            s == v@.subrange(start as int, end as int),
            trim_front(s) == trim_front(v@.subrange(lo as int, end as int)),
        decreases end - lo,
    {
        proof {
            let t = v@.subrange(lo as int, end as int);
            assert(t.drop_first() =~= v@.subrange(lo + 1, end as int));
        }
        lo = lo + 1;
    }
    let ghost f = v@.subrange(lo as int, end as int);
    assert(trim_front(f) == f);
    let mut hi: usize = end;
    while hi > lo && is_white_char(v[hi - 1])
        invariant
            start <= lo <= hi <= end <= v@.len(),
            trim_back(f) == trim_back(v@.subrange(lo as int, hi as int)),
        decreases hi - lo,
    {
        proof {
            let t = v@.subrange(lo as int, hi as int);
            assert(t.drop_last() =~= v@.subrange(lo as int, hi - 1));
        }
        hi = hi - 1;
    }
    (lo, hi)
}

/// The name characters of `v[lo..hi]`.
fn keep_name_chars(v: &Vec<char>, lo: usize, hi: usize) -> (r: Vec<char>)
    requires
        lo <= hi <= v@.len(),
    ensures
        r@ == name_chars(v@.subrange(lo as int, hi as int)),
{
    let mut out: Vec<char> = Vec::new();
    let mut i: usize = lo;
    while i < hi
        invariant
            lo <= i <= hi <= v@.len(),
            out@ == name_chars(v@.subrange(lo as int, i as int)),
        decreases hi - i,
    {
        proof {
            let t = v@.subrange(lo as int, i + 1);
            assert(t.drop_last() =~= v@.subrange(lo as int, i as int));
        }
        if is_name_char_exec(v[i]) {
            out.push(v[i]);
        }
        i = i + 1;
    }
    out
}

/// The subject of `header` reduced to name characters, or `None` where no
/// line begins with `Subject:`.
pub fn get_subject(header: &str) -> (r: Option<String>)
    ensures
        r matches Some(s) ==> subject_of(header@) == Some(s@),
        r is None ==> subject_of(header@) is None,
{
    let v = chars_of(header);
    let n = v.len();
    let mut i: usize = 0;
    loop
        invariant
            n == v@.len(),
            v@ == header@,
            0 <= i <= n,
            subject_of(header@) == subject_from(v@, i as int),
        decreases n - i,
    {
        let mut e: usize = i;
        while e < n && v[e] != '\n'
            invariant
                i <= e <= n,
                n == v@.len(),
                line_end(v@, i as int) == line_end(v@, e as int),
            decreases n - e,
        {
            e = e + 1;
        }
        let (lo, hi) = trim_bounds(&v, i, e);
        if hi - lo >= 8 && v[lo] == 'S' && v[lo + 1] == 'u' && v[lo + 2] == 'b' && v[lo + 3] == 'j'
            && v[lo + 4] == 'e' && v[lo + 5] == 'c' && v[lo + 6] == 't' && v[lo + 7] == ':' {
            let kept = keep_name_chars(&v, lo + 8, hi);
            proof {
                let t = v@.subrange(lo as int, hi as int);
                assert(t.subrange(0, 8) =~= subject_prefix());
                assert(t.subrange(8, t.len() as int) =~= v@.subrange(lo + 8, hi as int));
            }
            return Some(string_of(&kept));
        }
        proof {
            let t = v@.subrange(lo as int, hi as int);
            assert(forall|k: int| 0 <= k < 8 && t.len() >= 8 ==> t[k] == #[trigger] t.subrange(0, 8)[k]);
        }
        if e >= n {
            return None;
        }
        i = e + 1;
    }
}

} // verus!
