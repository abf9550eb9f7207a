//! Matching and trimming of character sequences, as `str`'s pattern methods do with a
//! string pattern.

use vstd::prelude::*;
use crate::text::chars_of;

verus! {

/// `pat` occurs in `s` starting at index `i`.
pub open spec fn occurs_at(s: Seq<char>, pat: Seq<char>, i: int) -> bool {
    &&& 0 <= i
    &&& i + pat.len() <= s.len()
    &&& s.subrange(i, i + pat.len()) == pat
}

/// `s` begins with `pre`.
pub open spec fn starts_with(s: Seq<char>, pre: Seq<char>) -> bool {
    occurs_at(s, pre, 0)
}

/// `s` ends with `suf`.
pub open spec fn ends_with(s: Seq<char>, suf: Seq<char>) -> bool {
    occurs_at(s, suf, s.len() - suf.len())
}

/// `pat` occurs somewhere in `s`.
pub open spec fn contains_seq(s: Seq<char>, pat: Seq<char>) -> bool {
    exists|i: int| occurs_at(s, pat, i)
}

/// `s` with every trailing repetition of `suf` removed (`str::trim_end_matches`).
pub open spec fn trim_end_all(s: Seq<char>, suf: Seq<char>) -> Seq<char>
    decreases s.len(),
{
    if suf.len() > 0 && ends_with(s, suf) {
        trim_end_all(s.subrange(0, s.len() - suf.len()), suf)
    } else {
        s
    }
}

/// `s` with every leading repetition of `pre` removed (`str::trim_start_matches`).
pub open spec fn trim_start_all(s: Seq<char>, pre: Seq<char>) -> Seq<char>
    decreases s.len(),
{
    if pre.len() > 0 && starts_with(s, pre) {
        trim_start_all(s.subrange(pre.len() as int, s.len() as int), pre)
    } else {
        s
    }
}

/// Whether `pat` occurs in `s` at index `i`.
pub fn occurs_at_exec(s: &[char], pat: &[char], i: usize) -> (r: bool)
    ensures
        r == occurs_at(s@, pat@, i as int),
{
    if i > s.len() || pat.len() > s.len() - i {
        return false;
    }
    let mut k: usize = 0;
    while k < pat.len()
        invariant
            k <= pat.len(),
            i + pat.len() <= s.len(),
            forall|j: int| 0 <= j < k ==> s@[i + j] == pat@[j],
        decreases pat@.len() - k,
    {
        if s[i + k] != pat[k] {
            assert(s@.subrange(i as int, i + pat@.len())[k as int] != pat@[k as int]);
            return false;
        }
        k += 1;
    }
    assert(s@.subrange(i as int, i + pat@.len()) =~= pat@);
    true
}

/// Whether `s` begins with `pre`.
pub fn starts_with_exec(s: &[char], pre: &[char]) -> (r: bool)
    ensures
        r == starts_with(s@, pre@),
{
    occurs_at_exec(s, pre, 0)
}

/// Whether `s` ends with `suf`.
pub fn ends_with_exec(s: &[char], suf: &[char]) -> (r: bool)
    ensures
        r == ends_with(s@, suf@),
{
    if suf.len() > s.len() {
        false
    } else {
        occurs_at_exec(s, suf, s.len() - suf.len())
    }
}

/// Whether `pat` occurs somewhere in `s`.
pub fn contains_exec(s: &[char], pat: &[char]) -> (r: bool)
    ensures
        r == contains_seq(s@, pat@),
{
    if pat.len() > s.len() {
        proof {
            assert forall|i: int| !occurs_at(s@, pat@, i) by {}
        }
        return false;
    }
    let last = s.len() - pat.len();
    let mut i: usize = 0;
    while i < last
        invariant
            i <= last,
            last == s@.len() - pat@.len(),
            forall|j: int| 0 <= j < i ==> !occurs_at(s@, pat@, j),
        decreases last - i,
    {
        if occurs_at_exec(s, pat, i) {
            return true;
        }
        i += 1;
    }
    if occurs_at_exec(s, pat, last) {
        return true;
    }
    proof {
        assert forall|j: int| !occurs_at(s@, pat@, j) by {
            if 0 <= j && j + pat@.len() <= s@.len() {
                assert(j <= last);
            }
        }
    }
    false
}

/// Whether `s` equals `lit`.
pub fn is_text(s: &[char], lit: &str) -> (r: bool)
    ensures
        r == (s@ == lit@),
{
    let l = chars_of(lit);
    if s.len() != l.len() {
        return false;
    }
    let b = occurs_at_exec(s, l.as_slice(), 0);
    proof {
        assert(s@.subrange(0, l@.len() as int) =~= s@);
    }
    b
}

/// Whether `s` begins with `lit`.
pub fn starts_with_text(s: &[char], lit: &str) -> (r: bool)
    ensures
        r == starts_with(s@, lit@),
{
    let l = chars_of(lit);
    starts_with_exec(s, l.as_slice())
}

/// Whether `s` ends with `lit`.
pub fn ends_with_text(s: &[char], lit: &str) -> (r: bool)
    ensures
        r == ends_with(s@, lit@),
{
    let l = chars_of(lit);
    ends_with_exec(s, l.as_slice())
}

/// Whether `lit` occurs in `s`.
pub fn contains_text(s: &[char], lit: &str) -> (r: bool)
    ensures
        r == contains_seq(s@, lit@),
{
    let l = chars_of(lit);
    contains_exec(s, l.as_slice())
}

/// `s` with every trailing repetition of `lit` removed.
pub fn trim_end_text(s: &[char], lit: &str) -> (r: Vec<char>)
    ensures
        r@ == trim_end_all(s@, lit@),
{
    let l = chars_of(lit);
    let mut end: usize = s.len();
    let mut prefix: Vec<char> = vstd::slice::slice_to_vec(s);
    while l.len() > 0 && ends_with_exec(prefix.as_slice(), l.as_slice())
        invariant
            end <= s@.len(),
            prefix@ == s@.subrange(0, end as int),
            l@ == lit@,
            trim_end_all(s@, lit@) == trim_end_all(prefix@, lit@),
        decreases end,
    {
        end = end - l.len();
        prefix.truncate(end);
        assert(prefix@ =~= s@.subrange(0, end as int));
    }
    prefix
}

/// `s` with every leading repetition of `lit` removed.
pub fn trim_start_text(s: &[char], lit: &str) -> (r: Vec<char>)
    ensures
        r@ == trim_start_all(s@, lit@),
{
    let l = chars_of(lit);
    let mut start: usize = 0;
    let mut rest: Vec<char> = vstd::slice::slice_to_vec(s);
    while l.len() > 0 && starts_with_exec(rest.as_slice(), l.as_slice())
        invariant
            start <= s@.len(),
            rest@ == s@.subrange(start as int, s@.len() as int),
            l@ == lit@,
            trim_start_all(s@, lit@) == trim_start_all(rest@, lit@),
        decreases s@.len() - start,
    {
        assert(l@.len() <= rest@.len());
        assert(rest@.len() == s@.len() - start);
        assert(start + l.len() <= s.len());
        start = start + l.len();
        let mut next: Vec<char> = Vec::new();
        let mut k: usize = start;
        while k < s.len()
            invariant
                start <= k <= s@.len(),
                next@ == s@.subrange(start as int, k as int),
            decreases s@.len() - k,
        {
            next.push(s[k]);
            k += 1;
            assert(next@ =~= s@.subrange(start as int, k as int));
        }
        proof {
            assert(rest@.subrange(l@.len() as int, rest@.len() as int) =~= next@);
        }
        rest = next;
    }
    rest
}

} // verus!
