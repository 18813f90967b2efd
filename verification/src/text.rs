//! Character-sequence search helpers shared by the filter splitter and
//! the source selector: substring occurrence, first occurrence, and
//! whole-string equality, each with an exact specification.

use vstd::prelude::*;

verus! {

/// The pattern `pat` occurs in `s` starting at index `i`.
pub open spec fn occurs_at(s: Seq<char>, pat: Seq<char>, i: int) -> bool {
    0 <= i && i + pat.len() <= s.len() && s.subrange(i, i + pat.len() as int) == pat
}

/// The pattern `pat` occurs somewhere in `s`.
pub open spec fn contains_seq(s: Seq<char>, pat: Seq<char>) -> bool {
    exists|i: int| occurs_at(s, pat, i)
}

/// Index of the first occurrence of `pat` in `s` at or after `from`,
/// or -1 when there is none.
pub open spec fn find_from(s: Seq<char>, pat: Seq<char>, from: nat) -> int
    decreases s.len() + 1 - from,
{
    if from + pat.len() > s.len() {
        -1
    } else if occurs_at(s, pat, from as int) {
        from as int
    } else {
        find_from(s, pat, (from + 1) as nat)
    }
}

/// Index of the first occurrence of `pat` in `s`, or -1 when `s` does
/// not contain `pat`.
pub open spec fn find_seq(s: Seq<char>, pat: Seq<char>) -> int {
    find_from(s, pat, 0)
}

/// `find_from` returns -1 exactly when no occurrence lies at or after
/// `from`; otherwise it returns the least occurrence index from there.
pub proof fn lemma_find_from(s: Seq<char>, pat: Seq<char>, from: nat)
    ensures
        find_from(s, pat, from) == -1 ==> forall|i: int|
            from <= i ==> !occurs_at(s, pat, i),
        find_from(s, pat, from) != -1 ==> {
            &&& from <= find_from(s, pat, from)
            &&& occurs_at(s, pat, find_from(s, pat, from))
            &&& forall|i: int|
                from <= i < find_from(s, pat, from) ==> !occurs_at(s, pat, i)
        },
    decreases s.len() + 1 - from,
{
    if from + pat.len() > s.len() {
        assert forall|i: int| from <= i implies !occurs_at(s, pat, i) by {}
    } else if occurs_at(s, pat, from as int) {
    } else {
        lemma_find_from(s, pat, (from + 1) as nat);
    }
}

/// `find_seq` finds the first occurrence, and -1 means no occurrence.
pub proof fn lemma_find_seq(s: Seq<char>, pat: Seq<char>)
    ensures
        find_seq(s, pat) == -1 <==> !contains_seq(s, pat),
        find_seq(s, pat) != -1 ==> {
            &&& 0 <= find_seq(s, pat)
            &&& occurs_at(s, pat, find_seq(s, pat))
            &&& forall|i: int| 0 <= i < find_seq(s, pat) ==> !occurs_at(s, pat, i)
        },
{
    lemma_find_from(s, pat, 0);
}

/// Whether `pat` occurs in `s` starting exactly at index `i`.
fn match_at(s: &str, pat: &str, i: usize, s_len: usize, pat_len: usize) -> (r: bool)
    requires
        s_len == s@.len(),
        pat_len == pat@.len(),
        i + pat_len <= s_len,
    ensures
        r == occurs_at(s@, pat@, i as int),
{
    let mut j: usize = 0;
    while j < pat_len
        invariant
            s_len == s@.len(),
            pat_len == pat@.len(),
            i + pat_len <= s_len,
            0 <= j <= pat_len,
            forall|k: int| 0 <= k < j ==> s@[i + k] == pat@[k],
        decreases pat_len - j,
    {
        if s.get_char(i + j) != pat.get_char(j) {
            proof {
                assert(s@.subrange(i as int, i + pat@.len() as int)[j as int] != pat@[j as int]);
            }
            return false;
        }
        j = j + 1;
    }
    proof {
        assert(s@.subrange(i as int, i + pat@.len() as int) =~= pat@);
    }
    true
}

/// Index of the first occurrence of `pat` in `s`, when there is one.
pub fn find_sub(s: &str, pat: &str) -> (r: Option<usize>)
    ensures
        match r {
            Some(i) => find_seq(s@, pat@) == i,
            None => find_seq(s@, pat@) == -1,
        },
{
    let s_len = s.unicode_len();
    let pat_len = pat.unicode_len();
    if pat_len == 0 {
        proof {
            assert(s@.subrange(0, 0) =~= pat@);
            lemma_find_seq(s@, pat@);
        }
        return Some(0);
    }
    if pat_len > s_len {
        proof {
            assert forall|i: int| !occurs_at(s@, pat@, i) by {}
        }
        return None;
    }
    let mut i: usize = 0;
    while i <= s_len - pat_len
        invariant
            s_len == s@.len(),
            pat_len == pat@.len(),
            1 <= pat_len <= s_len,
            0 <= i <= s_len - pat_len + 1,
            forall|k: int| 0 <= k < i ==> !occurs_at(s@, pat@, k),
        decreases s_len - i,
    {
        if match_at(s, pat, i, s_len, pat_len) {
            proof {
                lemma_find_seq(s@, pat@);
            }
            return Some(i);
        }
        i = i + 1;
    }
    proof {
        assert forall|k: int| !occurs_at(s@, pat@, k) by {}
        lemma_find_seq(s@, pat@);
    }
    None
}

/// Whether `s` contains `pat` anywhere.
pub fn contains_sub(s: &str, pat: &str) -> (r: bool)
    ensures
        r == contains_seq(s@, pat@),
{
    proof {
        lemma_find_seq(s@, pat@);
    }
    find_sub(s, pat).is_some()
}

/// Whether `s` starts with `pat`.
pub fn starts_with_sub(s: &str, pat: &str) -> (r: bool)
    ensures
        r == occurs_at(s@, pat@, 0),
{
    let s_len = s.unicode_len();
    let pat_len = pat.unicode_len();
    if pat_len > s_len {
        return false;
    }
    match_at(s, pat, 0, s_len, pat_len)
}

/// Character-wise string equality.
pub fn str_eq(a: &str, b: &str) -> (r: bool)
    ensures
        r == (a@ == b@),
{
    let a_len = a.unicode_len();
    let b_len = b.unicode_len();
    if a_len != b_len {
        return false;
    }
    let mut i: usize = 0;
    while i < a_len
        invariant
            a_len == a@.len(),
            b_len == b@.len(),
            a_len == b_len,
            0 <= i <= a_len,
            forall|k: int| 0 <= k < i ==> a@[k] == b@[k],
        decreases a_len - i,
    {
        if a.get_char(i) != b.get_char(i) {
            return false;
        }
        i = i + 1;
    }
    proof {
        assert(a@ =~= b@);
    }
    true
}

} // verus!
