//! Character-level text utilities shared by the record extractor, the
//! value parser and the string decoder.

use vstd::prelude::*;
use vstd::string::StrSliceExecFns;
use vstd::string::StringExecFns;

verus! {

use crate::is_space_char;

/// Collects the characters of a string slice into a vector.
pub fn chars_of_str(s: &str) -> (v: Vec<char>)
    ensures
        v@ == s@,
{
    let n = s.unicode_len();
    let mut v: Vec<char> = Vec::new();
    let mut i: usize = 0;
    while i < n
        invariant
            n == s@.len(),
            i <= n,
            v@ == s@.subrange(0, i as int),
        decreases n - i,
    {
        v.push(s.get_char(i));
        i = i + 1;
        proof {
            assert(v@ =~= s@.subrange(0, i as int));
        }
    }
    proof {
        assert(v@ =~= s@);
    }
    v
}

/// Relies on `String: FromIterator<char>`: collecting an iterator of
/// characters yields the string holding exactly those characters in order.
#[verifier::external_body]
pub fn chars_to_string(v: &Vec<char>) -> (s: String)
    ensures
        s@ == v@,
{
    v.iter().collect()
}

/// Copies the characters of `s` in positions `from..to` into a new vector.
pub fn subvec(s: &Vec<char>, from: usize, to: usize) -> (v: Vec<char>)
    requires
        from <= to <= s@.len(),
    ensures
        v@ == s@.subrange(from as int, to as int),
{
    let mut v: Vec<char> = Vec::new();
    let mut i: usize = from;
    while i < to
        invariant
            from <= i <= to <= s@.len(),
            v@ == s@.subrange(from as int, i as int),
        decreases to - i,
    {
        v.push(s[i]);
        i = i + 1;
        proof {
            assert(v@ =~= s@.subrange(from as int, i as int));
        }
    }
    v
}

/// True when the two string slices hold the same characters.
pub fn str_eq(a: &str, b: &str) -> (r: bool)
    ensures
        r == (a@ == b@),
{
    let sa = String::from_str(a);
    let sb = String::from_str(b);
    sa == sb
}

/// True when the character vector holds exactly the characters of `s`.
pub fn chars_eq_str(v: &Vec<char>, s: &str) -> (r: bool)
    ensures
        r == (v@ == s@),
{
    let n = s.unicode_len();
    if v.len() != n {
        proof {
            assert(v@ != s@);
        }
        return false;
    }
    let mut i: usize = 0;
    while i < n
        invariant
            n == s@.len(),
            v@.len() == n,
            i <= n,
            forall|j: int| 0 <= j < i ==> v@[j] == s@[j],
        decreases n - i,
    {
        if v[i] != s.get_char(i) {
            proof {
                assert(v@[i as int] != s@[i as int]);
            }
            return false;
        }
        i = i + 1;
    }
    proof {
        assert(v@ =~= s@);
    }
    true
}

/// True when `v` starts with the characters of `s` at position `from`.
pub fn chars_at_is_str(v: &Vec<char>, from: usize, s: &str) -> (r: bool)
    requires
        from <= v@.len(),
    ensures
        r == (from + s@.len() <= v@.len() && v@.subrange(
            from as int,
            from + s@.len(),
        ) == s@),
{
    let n = s.unicode_len();
    if n > v.len() - from {
        return false;
    }
    let mut i: usize = 0;
    while i < n
        invariant
            n == s@.len(),
            from + n <= v@.len(),
            from + n <= usize::MAX,
            i <= n,
            forall|j: int| 0 <= j < i ==> v@[from + j] == s@[j],
        decreases n - i,
    {
        if v[from + i] != s.get_char(i) {
            proof {
                assert(v@.subrange(from as int, from + s@.len())[i as int] != s@[i as int]);
            }
            return false;
        }
        i = i + 1;
    }
    proof {
        assert(v@.subrange(from as int, from + s@.len()) =~= s@);
    }
    true
}

/// Index just past the leading whitespace of `s`.
pub open spec fn spec_trim_start(s: Seq<char>) -> int
    decreases s.len(),
{
    if s.len() == 0 {
        0
    } else if is_space_char(s[0]) {
        1 + spec_trim_start(s.skip(1))
    } else {
        0
    }
}

/// Index just past the last non-whitespace character of `s`.
pub open spec fn spec_trim_end(s: Seq<char>) -> int
    decreases s.len(),
{
    if s.len() == 0 {
        0
    } else if is_space_char(s.last()) {
        spec_trim_end(s.drop_last())
    } else {
        s.len() as int
    }
}

/// `s` with leading and trailing whitespace removed.
pub open spec fn spec_trim(s: Seq<char>) -> Seq<char> {
    let e = spec_trim_end(s);
    let b = spec_trim_start(s.take(e))
    ;
    s.take(e).skip(b)
}

proof fn lemma_trim_start_le(s: Seq<char>)
    ensures
        0 <= spec_trim_start(s) <= s.len(),
    decreases s.len(),
{
    if s.len() > 0 && is_space_char(s[0]) {
        lemma_trim_start_le(s.skip(1));
    }
}

proof fn lemma_trim_end_le(s: Seq<char>)
    ensures
        0 <= spec_trim_end(s) <= s.len(),
    decreases s.len(),
{
    if s.len() > 0 && is_space_char(s.last()) {
        lemma_trim_end_le(s.drop_last());
    }
}

/// The bounds of the trimmed span are within the sequence.
pub proof fn lemma_trim_bounds(s: Seq<char>)
    ensures
        0 <= spec_trim_end(s) <= s.len(),
        0 <= spec_trim_start(s.take(spec_trim_end(s))) <= spec_trim_end(s),
        spec_trim(s).len() <= s.len(),
{
    lemma_trim_end_le(s);
    lemma_trim_start_le(s.take(spec_trim_end(s)));
}

/// Whether the character is whitespace for trimming purposes.
pub fn is_space(c: char) -> (r: bool)
    ensures
        r == is_space_char(c),
{
    c == ' ' || c == '\t' || c == '\r' || c == '\n'
}

/// Copies the span of `s` between positions `from` and `to`, with leading
/// and trailing whitespace removed.
pub fn trimmed_subvec(s: &Vec<char>, from: usize, to: usize) -> (v: Vec<char>)
    requires
        from <= to <= s@.len(),
    ensures
        v@ == spec_trim(s@.subrange(from as int, to as int)),
{
    let ghost orig = s@.subrange(from as int, to as int);
    proof {
        lemma_trim_bounds(orig);
    }
    let mut hi: usize = to;
    while hi > from && is_space(s[hi - 1])
        invariant
            from <= hi <= to <= s@.len(),
            spec_trim_end(orig) == spec_trim_end(s@.subrange(from as int, hi as int)),
        decreases hi,
    {
        proof {
            let cur = s@.subrange(from as int, hi as int);
            assert(cur.len() > 0 && is_space_char(cur.last()));
            assert(cur.drop_last() =~= s@.subrange(from as int, hi - 1));
        }
        hi = hi - 1;
    }
    proof {
        let cur = s@.subrange(from as int, hi as int);
        if hi > from {
            assert(!is_space_char(cur.last()));
            assert(spec_trim_end(cur) == cur.len());
        } else {
            assert(cur.len() == 0);
        }
        assert(spec_trim_end(orig) == hi - from);
        assert(orig.take(spec_trim_end(orig)) =~= s@.subrange(from as int, hi as int));
    }
    let mut lo: usize = from;
    while lo < hi && is_space(s[lo])
        invariant
            from <= lo <= hi <= s@.len(),
            orig.take(spec_trim_end(orig)) == s@.subrange(from as int, hi as int),
            spec_trim_start(s@.subrange(from as int, hi as int)) == (lo - from)
                + spec_trim_start(s@.subrange(lo as int, hi as int)),
        decreases hi - lo,
    {
        proof {
            let cur = s@.subrange(lo as int, hi as int);
            assert(cur.len() > 0 && is_space_char(cur[0]));
            assert(cur.skip(1) =~= s@.subrange(lo + 1, hi as int));
        }
        lo = lo + 1;
    }
    proof {
        let cur = s@.subrange(lo as int, hi as int);
        if lo < hi {
            assert(!is_space_char(cur[0]));
            assert(spec_trim_start(cur) == 0);
        } else {
            assert(cur.len() == 0);
        }
        assert(spec_trim_start(s@.subrange(from as int, hi as int)) == lo - from);
        assert(spec_trim(orig) =~= s@.subrange(lo as int, hi as int));
    }
    subvec(s, lo, hi)
}

/// Strict lexicographic order on character sequences by code point.
pub open spec fn lex_lt(a: Seq<char>, b: Seq<char>) -> bool
    decreases a.len(),
{
    if b.len() == 0 {
        false
    } else if a.len() == 0 {
        true
    } else if (a[0] as u32) < (b[0] as u32) {
        true
    } else if (a[0] as u32) > (b[0] as u32) {
        false
    } else {
        lex_lt(a.skip(1), b.skip(1))
    }
}

/// Compares two strings in lexicographic code-point order.
pub fn str_lt(a: &str, b: &str) -> (r: bool)
    ensures
        r == lex_lt(a@, b@),
{
    let an = a.unicode_len();
    let bn = b.unicode_len();
    let mut i: usize = 0;
    proof {
        assert(a@.skip(0) =~= a@);
        assert(b@.skip(0) =~= b@);
    }
    while i < an && i < bn
        invariant
            i <= an,
            i <= bn,
            an == a@.len(),
            bn == b@.len(),
            lex_lt(a@, b@) == lex_lt(a@.skip(i as int), b@.skip(i as int)),
            forall|t: int| 0 <= t < i ==> a@[t] == b@[t],
        decreases an - i,
    {
        let ca = a.get_char(i);
        let cb = b.get_char(i);
        proof {
            assert(a@.skip(i as int)[0] == ca);
            assert(b@.skip(i as int)[0] == cb);
            assert(a@.skip(i as int).skip(1) =~= a@.skip(i + 1));
            assert(b@.skip(i as int).skip(1) =~= b@.skip(i + 1));
        }
        let ua = ca as u32;
        let ub = cb as u32;
        if ua < ub {
            return true;
        }
        if ua > ub {
            return false;
        }
        proof {
            vstd::utf8::char_u32_cast(ca, ua);
            vstd::utf8::char_u32_cast(cb, ub);
            assert(ca == cb);
        }
        i = i + 1;
    }
    if i < bn {
        proof {
            assert(a@.skip(i as int).len() == 0);
            assert(b@.skip(i as int).len() > 0);
        }
        true
    } else {
        proof {
            assert(b@.skip(i as int).len() == 0);
        }
        false
    }
}

} // verus!
