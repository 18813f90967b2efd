//! Filter-graph splitter: derives independent video and audio filter
//! chains from one user-supplied filter-graph text.
//!
//! The text may name a video output link `[c_v_out]` and an audio
//! output link `[c_a_out]`.  Splitting happens at whichever marker
//! comes first; each half then loses its outer link labels (an
//! optional `;`/`[label]` pair at the very start, a `[label]` at the
//! very end), while inner link labels are preserved.  A text that
//! begins with the fixed video input link `[v_in]` keeps that link on
//! the video chain.

use vstd::prelude::*;

use crate::text::contains_seq;
use crate::text::contains_sub;
use crate::text::find_seq;
use crate::text::find_sub;
use crate::text::lemma_find_seq;
use crate::text::occurs_at;
use crate::text::starts_with_sub;

verus! {

/// Output link label that ends the video chain.
pub open spec fn video_out_marker() -> Seq<char> {
    seq!['[', 'c', '_', 'v', '_', 'o', 'u', 't', ']']
}

/// Output link label that ends the audio chain.
pub open spec fn audio_out_marker() -> Seq<char> {
    seq!['[', 'c', '_', 'a', '_', 'o', 'u', 't', ']']
}

/// Input link label that feeds the video chain.
pub open spec fn video_in_marker() -> Seq<char> {
    seq!['[', 'v', '_', 'i', 'n', ']']
}

proof fn lemma_video_out_strlit()
    ensures
        "[c_v_out]"@ == video_out_marker(),
{
    reveal_strlit("[c_v_out]");
    assert("[c_v_out]"@ =~= video_out_marker());
}

proof fn lemma_audio_out_strlit()
    ensures
        "[c_a_out]"@ == audio_out_marker(),
{
    reveal_strlit("[c_a_out]");
    assert("[c_a_out]"@ =~= audio_out_marker());
}

proof fn lemma_video_in_strlit()
    ensures
        "[v_in]"@ == video_in_marker(),
{
    reveal_strlit("[v_in]");
    assert("[v_in]"@ =~= video_in_marker());
}

/// Index of the first `[` in `s` at or after `from`, or `s.len()`.
pub open spec fn first_lbracket_from(s: Seq<char>, from: nat) -> int
    decreases s.len() - from,
{
    if from >= s.len() {
        s.len() as int
    } else if s[from as int] == '[' {
        from as int
    } else {
        first_lbracket_from(s, from + 1)
    }
}

/// Largest index in `[lo, hi)` where `s` holds `c`, or -1.
pub open spec fn last_index_in(s: Seq<char>, c: char, lo: int, hi: int) -> int
    decreases hi - lo,
{
    if hi <= lo {
        -1
    } else if s[hi - 1] == c {
        hi - 1
    } else {
        last_index_in(s, c, lo, hi - 1)
    }
}

pub proof fn lemma_first_lbracket_from(s: Seq<char>, from: nat)
    requires
        from <= s.len(),
    ensures
        from <= first_lbracket_from(s, from) <= s.len(),
        first_lbracket_from(s, from) < s.len() ==> s[first_lbracket_from(s, from)] == '[',
        forall|j: int| from <= j < first_lbracket_from(s, from) ==> s[j] != '[',
    decreases s.len() - from,
{
    if from >= s.len() {
    } else if s[from as int] == '[' {
    } else {
        lemma_first_lbracket_from(s, from + 1);
    }
}

pub proof fn lemma_last_index_in(s: Seq<char>, c: char, lo: int, hi: int)
    requires
        0 <= lo,
    ensures
        last_index_in(s, c, lo, hi) == -1 ==> forall|j: int| lo <= j < hi ==> s[j] != c,
        last_index_in(s, c, lo, hi) != -1 ==> {
            &&& lo <= last_index_in(s, c, lo, hi) < hi
            &&& s[last_index_in(s, c, lo, hi)] == c
            &&& forall|j: int| last_index_in(s, c, lo, hi) < j < hi ==> s[j] != c
        },
    decreases hi - lo,
{
    if hi <= lo {
    } else if s[hi - 1] == c {
    } else {
        lemma_last_index_in(s, c, lo, hi - 1);
        let r = last_index_in(s, c, lo, hi - 1);
        assert(last_index_in(s, c, lo, hi) == r);
        if r == -1 {
            assert forall|j: int| lo <= j < hi implies s[j] != c by {
                if j < hi - 1 {
                    assert(s[j] != c);
                } else {
                    assert(j == hi - 1);
                }
            }
        } else {
            assert forall|j: int| r < j < hi implies s[j] != c by {
                if j < hi - 1 {
                    assert(s[j] != c);
                } else {
                    assert(j == hi - 1);
                }
            }
        }
    }
}

/// Text left after removing an optional leading `;` and an optional
/// leading `[label]` link, as the strip pattern does on each half.
pub open spec fn strip_leading(s: Seq<char>) -> Seq<char> {
    let start: int = if s.len() > 0 && s[0] == ';' {
        1
    } else {
        0
    };
    if start < s.len() && s[start] == '[' {
        let bound = first_lbracket_from(s, (start + 1) as nat);
        let close = last_index_in(s, ']', start + 2, bound);
        if close >= 0 {
            s.subrange(close + 1, s.len() as int)
        } else {
            s.subrange(start, s.len() as int)
        }
    } else {
        s.subrange(start, s.len() as int)
    }
}

/// Text left after removing a `[label]` link that closes the text.
pub open spec fn strip_trailing(s: Seq<char>) -> Seq<char> {
    if s.len() >= 3 && s[s.len() - 1] == ']' {
        let open = last_index_in(s, '[', 0, s.len() - 1);
        if 0 <= open && open + 3 <= s.len() {
            s.subrange(0, open)
        } else {
            s
        }
    } else {
        s
    }
}

/// Outer link labels removed from both ends, inner ones preserved.
pub open spec fn strip_labels(s: Seq<char>) -> Seq<char> {
    strip_trailing(strip_leading(s))
}

/// Index of the first `[` in `s` at or after `from`, or the length.
fn first_lbracket_exec(s: &str, from: usize, n: usize) -> (r: usize)
    requires
        n == s@.len(),
        from <= n,
    ensures
        r == first_lbracket_from(s@, from as nat),
        from <= r <= n,
{
    let mut k = from;
    while k < n
        invariant
            n == s@.len(),
            from <= k <= n,
            first_lbracket_from(s@, from as nat) == first_lbracket_from(s@, k as nat),
        decreases n - k,
    {
        if s.get_char(k) == '[' {
            return k;
        }
        k = k + 1;
    }
    k
}

/// Largest index in `[lo, hi)` where `s` holds `c`, when there is one.
fn last_index_exec(s: &str, c: char, lo: usize, hi: usize) -> (r: Option<usize>)
    requires
        hi <= s@.len(),
        lo <= hi,
    ensures
        match r {
            Some(j) => last_index_in(s@, c, lo as int, hi as int) == j && lo <= j < hi,
            None => last_index_in(s@, c, lo as int, hi as int) == -1,
        },
{
    let mut k = hi;
    while k > lo
        invariant
            hi <= s@.len(),
            lo <= k <= hi,
            last_index_in(s@, c, lo as int, hi as int) == last_index_in(s@, c, lo as int, k as int),
        decreases k,
    {
        if s.get_char(k - 1) == c {
            return Some(k - 1);
        }
        k = k - 1;
    }
    None
}

/// Removes the outer link labels of a filter chain half.
pub fn strip_links(s: &str) -> (r: String)
    ensures
        r@ == strip_labels(s@),
{
    let n = s.unicode_len();
    let start0: usize = if n > 0 && s.get_char(0) == ';' {
        1
    } else {
        0
    };
    let start: usize = if start0 < n && s.get_char(start0) == '[' {
        let bound = first_lbracket_exec(s, start0 + 1, n);
        if start0 + 2 <= bound {
            match last_index_exec(s, ']', start0 + 2, bound) {
                Some(close) => close + 1,
                None => start0,
            }
        } else {
            start0
        }
    } else {
        start0
    };
    let t = s.substring_char(start, n);
    proof {
        assert(t@ == strip_leading(s@));
    }
    let m = n - start;
    if m >= 3 && t.get_char(m - 1) == ']' {
        match last_index_exec(t, '[', 0, m - 1) {
            Some(open) => {
                if open <= m - 3 {
                    String::from_str(t.substring_char(0, open))
                } else {
                    String::from_str(t)
                }
            },
            None => String::from_str(t),
        }
    } else {
        String::from_str(t)
    }
}

/// Result of splitting one filter-graph text.  `malformed` is set
/// when the text has content but no recognized output link, so that
/// the caller can log exactly one warning; the filter is skipped, not
/// fatal.
pub struct FilterSplit {
    pub video: String,
    pub audio: String,
    pub malformed: bool,
}

/// The split before the video input link is restored: (video chain,
/// audio chain, malformed).
pub open spec fn spec_split_base(s: Seq<char>) -> (Seq<char>, Seq<char>, bool) {
    if contains_seq(s, video_out_marker()) && contains_seq(s, audio_out_marker()) {
        let vp = find_seq(s, video_out_marker());
        let ap = find_seq(s, audio_out_marker());
        let dpos = if vp > ap {
            ap
        } else {
            vp
        };
        let first = s.subrange(0, dpos);
        let second = s.subrange(dpos + 9, s.len() as int);
        if contains_seq(second, audio_out_marker()) {
            (strip_labels(first), strip_labels(second), false)
        } else {
            (strip_labels(second), strip_labels(first), false)
        }
    } else if contains_seq(s, video_out_marker()) {
        (strip_labels(s), Seq::<char>::empty(), false)
    } else if contains_seq(s, audio_out_marker()) {
        (Seq::<char>::empty(), strip_labels(s), false)
    } else if s.len() > 0 && s != seq!['~'] {
        (Seq::<char>::empty(), Seq::<char>::empty(), true)
    } else {
        (Seq::<char>::empty(), Seq::<char>::empty(), false)
    }
}

/// The full split: as `spec_split_base`, and a text that begins with
/// the video input link keeps that link on the video chain.
pub open spec fn spec_split_filter(s: Seq<char>) -> (Seq<char>, Seq<char>, bool) {
    let base = spec_split_base(s);
    if occurs_at(s, video_in_marker(), 0) {
        (video_in_marker() + base.0, base.1, base.2)
    } else {
        base
    }
}

/// Splits a filter-graph text into its video and audio chains.
pub fn split_filter(filter: &str) -> (r: FilterSplit)
    ensures
        r.video@ == spec_split_filter(filter@).0,
        r.audio@ == spec_split_filter(filter@).1,
        r.malformed == spec_split_filter(filter@).2,
{
    proof {
        lemma_video_out_strlit();
        lemma_audio_out_strlit();
        lemma_video_in_strlit();
        lemma_find_seq(filter@, video_out_marker());
        lemma_find_seq(filter@, audio_out_marker());
    }
    let n = filter.unicode_len();
    let v_found = find_sub(filter, "[c_v_out]");
    let a_found = find_sub(filter, "[c_a_out]");
    let video: String;
    let audio: String;
    let malformed: bool;
    match (v_found, a_found) {
        (Some(vp), Some(ap)) => {
            let dpos = if vp > ap {
                ap
            } else {
                vp
            };
            let first = filter.substring_char(0, dpos);
            let second = filter.substring_char(dpos + 9, n);
            let first_stripped = strip_links(first);
            let second_stripped = strip_links(second);
            if contains_sub(second, "[c_a_out]") {
                video = first_stripped;
                audio = second_stripped;
            } else {
                video = second_stripped;
                audio = first_stripped;
            }
            malformed = false;
        },
        (Some(_), None) => {
            video = strip_links(filter);
            audio = String::new();
            malformed = false;
        },
        (None, Some(_)) => {
            video = String::new();
            audio = strip_links(filter);
            malformed = false;
        },
        (None, None) => {
            video = String::new();
            audio = String::new();
            malformed = n > 0 && !(n == 1 && filter.get_char(0) == '~');
            proof {
                if n == 1 && filter@[0] == '~' {
                    assert(filter@ =~= seq!['~']);
                }
                if filter@ == seq!['~'] {
                    assert(filter@[0] == '~');
                }
            }
        },
    }
    if starts_with_sub(filter, "[v_in]") {
        let mut prefixed = String::from_str("[v_in]");
        prefixed.append(video.as_str());
        FilterSplit { video: prefixed, audio, malformed }
    } else {
        FilterSplit { video, audio, malformed }
    }
}

/// Splits a filter-graph text into its video and audio chains.
pub fn filter_node(filter: &str) -> (r: (String, String))
    ensures
        r.0@ == spec_split_filter(filter@).0,
        r.1@ == spec_split_filter(filter@).1,
{
    let split = split_filter(filter);
    (split.video, split.audio)
}

/// A chain with no link brackets and no leading `;`: the strip step
/// leaves such a text unchanged.
pub open spec fn clean_chain(c: Seq<char>) -> bool {
    &&& forall|i: int| 0 <= i < c.len() ==> c[i] != '['
    &&& (c.len() > 0 ==> c[0] != ';')
}

/// Shape facts about the three link markers.
proof fn lemma_marker_shape()
    ensures
        video_out_marker().len() == 9,
        audio_out_marker().len() == 9,
        video_in_marker().len() == 6,
        video_out_marker()[0] == '[',
        audio_out_marker()[0] == '[',
        video_in_marker()[0] == '[',
        video_out_marker()[1] == 'c',
        audio_out_marker()[1] == 'c',
        video_in_marker()[1] == 'v',
        video_out_marker()[8] == ']',
        audio_out_marker()[8] == ']',
        video_out_marker()[3] == 'v',
        audio_out_marker()[3] == 'a',
        forall|k: int| 1 <= k < 9 ==> video_out_marker()[k] != '[',
        forall|k: int| 1 <= k < 9 ==> audio_out_marker()[k] != '[',
{
    let vm = video_out_marker();
    let am = audio_out_marker();
    assert forall|k: int| 1 <= k < 9 implies vm[k] != '[' by {
        if k == 1 {
            assert(vm[1] == 'c');
        } else if k == 2 {
            assert(vm[2] == '_');
        } else if k == 3 {
            assert(vm[3] == 'v');
        } else if k == 4 {
            assert(vm[4] == '_');
        } else if k == 5 {
            assert(vm[5] == 'o');
        } else if k == 6 {
            assert(vm[6] == 'u');
        } else if k == 7 {
            assert(vm[7] == 't');
        } else {
            assert(vm[8] == ']');
        }
    }
    assert forall|k: int| 1 <= k < 9 implies am[k] != '[' by {
        if k == 1 {
            assert(am[1] == 'c');
        } else if k == 2 {
            assert(am[2] == '_');
        } else if k == 3 {
            assert(am[3] == 'a');
        } else if k == 4 {
            assert(am[4] == '_');
        } else if k == 5 {
            assert(am[5] == 'o');
        } else if k == 6 {
            assert(am[6] == 'u');
        } else if k == 7 {
            assert(am[7] == 't');
        } else {
            assert(am[8] == ']');
        }
    }
}

/// A text without `[` contains no link marker.
proof fn lemma_clean_no_marker(c: Seq<char>, m: Seq<char>)
    requires
        forall|i: int| 0 <= i < c.len() ==> c[i] != '[',
        m.len() > 0,
        m[0] == '[',
    ensures
        !contains_seq(c, m),
{
    assert forall|i: int| !occurs_at(c, m, i) by {
        if occurs_at(c, m, i) {
            assert(c.subrange(i, i + m.len() as int)[0] == m[0]);
            assert(c[i] == '[');
        }
    }
}

/// The strip step leaves a clean chain unchanged.
proof fn lemma_strip_clean(c: Seq<char>)
    requires
        clean_chain(c),
    ensures
        strip_labels(c) == c,
{
    assert(c.subrange(0, c.len() as int) =~= c);
    assert(strip_leading(c) == c);
    if c.len() >= 3 && c[c.len() - 1] == ']' {
        lemma_last_index_in(c, '[', 0, c.len() - 1);
        let open = last_index_in(c, '[', 0, c.len() - 1);
        if open != -1 {
            assert(c[open] == '[');
        }
    }
    assert(strip_trailing(c) == c);
}

/// The strip step on a clean chain closed by a marker removes exactly
/// the marker.
proof fn lemma_strip_chain_marker(c: Seq<char>, m: Seq<char>)
    requires
        clean_chain(c),
        m.len() == 9,
        m[0] == '[',
        m[8] == ']',
        forall|k: int| 1 <= k < 9 ==> m[k] != '[',
    ensures
        strip_labels(c + m) == c,
{
    let s = c + m;
    let n = s.len() as int;
    let cl = c.len() as int;
    assert forall|i: int| 0 <= i < cl implies s[i] == c[i] by {}
    assert forall|i: int| cl <= i < n implies s[i] == m[i - cl] by {}
    if c.len() == 0 {
        assert(s =~= m);
        lemma_first_lbracket_from(m, 1);
        let b = first_lbracket_from(m, 1);
        if b < 9 {
            assert(m[b] == '[');
            assert(false);
        }
        assert(last_index_in(m, ']', 2, 9) == 8);
        assert(strip_leading(m) == m.subrange(9, 9));
        assert(m.subrange(9, 9) =~= c);
        assert(strip_trailing(c) == c);
    } else {
        assert(s[0] == c[0]);
        assert(s.subrange(0, n) =~= s);
        assert(strip_leading(s) == s);
        assert(s[n - 1] == m[8]);
        lemma_last_index_in(s, '[', 0, n - 1);
        let open = last_index_in(s, '[', 0, n - 1);
        assert(s[cl] == '[');
        assert(cl < n - 1);
        if open == -1 {
            assert(s[cl] != '[');
            assert(false);
        }
        if open < cl {
            assert(s[cl] != '[');
            assert(false);
        }
        if open > cl {
            assert(s[open] == m[open - cl]);
            assert(false);
        }
        assert(open == cl);
        assert(strip_trailing(s) == s.subrange(0, cl));
        assert(s.subrange(0, cl) =~= c);
    }
}

/// Two marker-terminated chains written as one filter-graph text:
/// the first chain, its output marker, the second chain, its output
/// marker.  With `video_first` the first chain is the video one.
pub open spec fn chain_text(c1: Seq<char>, c2: Seq<char>, video_first: bool) -> Seq<char> {
    if video_first {
        c1 + video_out_marker() + c2 + audio_out_marker()
    } else {
        c1 + audio_out_marker() + c2 + video_out_marker()
    }
}

/// Law: a text made of two clean, marker-terminated chains splits
/// into exactly those chains, in either marker order; no marker token
/// leaks into either chain, no warning is raised, and putting the
/// chains back around the markers reconstructs the text.
pub proof fn lemma_split_recovers_chains(c1: Seq<char>, c2: Seq<char>, video_first: bool)
    requires
        clean_chain(c1),
        clean_chain(c2),
    ensures
        ({
            let s = chain_text(c1, c2, video_first);
            let r = spec_split_filter(s);
            &&& r.0 == if video_first {
                c1
            } else {
                c2
            }
            &&& r.1 == if video_first {
                c2
            } else {
                c1
            }
            &&& !r.2
            &&& !contains_seq(r.0, video_out_marker())
            &&& !contains_seq(r.0, audio_out_marker())
            &&& !contains_seq(r.1, video_out_marker())
            &&& !contains_seq(r.1, audio_out_marker())
            &&& (if video_first {
                chain_text(r.0, r.1, true)
            } else {
                chain_text(r.1, r.0, false)
            }) == s
        }),
{
    lemma_marker_shape();
    let vm = video_out_marker();
    let am = audio_out_marker();
    let m1 = if video_first {
        vm
    } else {
        am
    };
    let m2 = if video_first {
        am
    } else {
        vm
    };
    let s = chain_text(c1, c2, video_first);
    let p1 = c1.len() as int;
    let p2: int = c1.len() as int + 9 + c2.len() as int;
    let n = s.len() as int;
    assert(s == c1 + m1 + c2 + m2);
    assert(n == p2 + 9);
    assert forall|i: int| 0 <= i < p1 implies s[i] == c1[i] by {}
    assert forall|i: int| p1 <= i < p1 + 9 implies s[i] == m1[i - p1] by {}
    assert forall|i: int| p1 + 9 <= i < p2 implies s[i] == c2[i - (p1 + 9)] by {}
    assert forall|i: int| p2 <= i < n implies s[i] == m2[i - p2] by {}
    assert(vm != am) by {
        assert(vm[3] != am[3]);
    }
    // the only bracket positions are the two marker starts
    assert forall|i: int| 0 <= i < n && s[i] == '[' implies i == p1 || i == p2 by {
        if i < p1 {
            assert(s[i] == c1[i]);
        } else if p1 < i < p1 + 9 {
            assert(s[i] == m1[i - p1]);
        } else if p1 + 9 <= i < p2 {
            assert(s[i] == c2[i - (p1 + 9)]);
        } else if p2 < i {
            assert(s[i] == m2[i - p2]);
        }
    }
    // each marker occurs exactly at its own start
    assert(s.subrange(p1, p1 + 9) =~= m1);
    assert(s.subrange(p2, p2 + 9) =~= m2);
    assert(occurs_at(s, m1, p1));
    assert(occurs_at(s, m2, p2));
    assert forall|i: int| occurs_at(s, m1, i) implies i == p1 by {
        assert(s.subrange(i, i + 9)[0] == m1[0]);
        assert(s[i] == '[');
        if i == p2 {
            assert(s.subrange(p2, p2 + 9) == m1);
            assert(m1 == m2);
            assert(false);
        }
    }
    assert forall|i: int| occurs_at(s, m2, i) implies i == p2 by {
        assert(s.subrange(i, i + 9)[0] == m2[0]);
        assert(s[i] == '[');
        if i == p1 {
            assert(s.subrange(p1, p1 + 9) == m2);
            assert(m1 == m2);
            assert(false);
        }
    }
    assert(contains_seq(s, vm));
    assert(contains_seq(s, am));
    lemma_find_seq(s, vm);
    lemma_find_seq(s, am);
    let vp = find_seq(s, vm);
    let ap = find_seq(s, am);
    assert(vp == if video_first {
        p1
    } else {
        p2
    });
    assert(ap == if video_first {
        p2
    } else {
        p1
    });
    let dpos = if vp > ap {
        ap
    } else {
        vp
    };
    assert(dpos == p1);
    let first = s.subrange(0, p1);
    let second = s.subrange(p1 + 9, n);
    assert(first =~= c1);
    assert(second =~= c2 + m2);
    // the second half holds the audio marker exactly when the audio
    // marker came second
    if video_first {
        assert(second.subrange(c2.len() as int, c2.len() as int + 9) =~= am) by {
            assert forall|k: int| 0 <= k < 9 implies second[c2.len() + k] == am[k] by {
                assert(second[c2.len() + k] == s[p1 + 9 + c2.len() + k]);
            }
        }
        assert(occurs_at(second, am, c2.len() as int));
        assert(contains_seq(second, am));
    } else {
        assert forall|i: int| !occurs_at(second, am, i) by {
            if occurs_at(second, am, i) {
                assert(second.subrange(i, i + 9)[0] == am[0]);
                assert(second[i] == '[');
                assert(s[p1 + 9 + i] == '[');
                assert(p1 + 9 + i == p2);
                assert(second.subrange(i, i + 9) =~= s.subrange(p2, p2 + 9));
                assert(m2 == am);
                assert(false);
            }
        }
        assert(!contains_seq(second, am));
    }
    lemma_strip_clean(c1);
    lemma_strip_chain_marker(c2, m2);
    assert(spec_split_base(s).0 == if video_first {
        c1
    } else {
        c2
    });
    assert(spec_split_base(s).1 == if video_first {
        c2
    } else {
        c1
    });
    assert(!spec_split_base(s).2);
    // the text does not begin with the video input link
    assert(!occurs_at(s, video_in_marker(), 0)) by {
        if occurs_at(s, video_in_marker(), 0) {
            if c1.len() > 0 {
                assert(s.subrange(0, 6)[0] == video_in_marker()[0]);
                assert(s[0] == '[');
                assert(c1[0] == '[');
            } else {
                assert(s.subrange(0, 6)[1] == video_in_marker()[1]);
                assert(s[1] == m1[1]);
                assert(m1[1] == 'c');
            }
        }
    }
    // no marker leaks into either chain
    lemma_clean_no_marker(c1, vm);
    lemma_clean_no_marker(c1, am);
    lemma_clean_no_marker(c2, vm);
    lemma_clean_no_marker(c2, am);
}

/// Law: for every text holding both output markers, the two halves
/// the split works on put the text back together around the first
/// marker, so nothing of the text is lost before stripping.
pub proof fn lemma_split_point(s: Seq<char>)
    requires
        contains_seq(s, video_out_marker()),
        contains_seq(s, audio_out_marker()),
    ensures
        ({
            let vp = find_seq(s, video_out_marker());
            let ap = find_seq(s, audio_out_marker());
            let dpos = if vp > ap {
                ap
            } else {
                vp
            };
            let delim = if vp > ap {
                audio_out_marker()
            } else {
                video_out_marker()
            };
            s == s.subrange(0, dpos) + delim + s.subrange(dpos + 9, s.len() as int)
        }),
{
    lemma_marker_shape();
    lemma_find_seq(s, video_out_marker());
    lemma_find_seq(s, audio_out_marker());
    let vp = find_seq(s, video_out_marker());
    let ap = find_seq(s, audio_out_marker());
    let dpos = if vp > ap {
        ap
    } else {
        vp
    };
    let delim = if vp > ap {
        audio_out_marker()
    } else {
        video_out_marker()
    };
    assert(occurs_at(s, delim, dpos));
    assert(s.subrange(dpos, dpos + 9) == delim);
    assert(s =~= s.subrange(0, dpos) + s.subrange(dpos, dpos + 9) + s.subrange(
        dpos + 9,
        s.len() as int,
    ));
}

/// Law: a non-empty text that names no output link and is not the
/// disabled sentinel `~` (and does not begin with the video input
/// link) is skipped: both chains come back empty, with one warning.
pub proof fn lemma_malformed_filter_skipped(s: Seq<char>)
    requires
        !contains_seq(s, video_out_marker()),
        !contains_seq(s, audio_out_marker()),
        s.len() > 0,
        s != seq!['~'],
        !occurs_at(s, video_in_marker(), 0),
    ensures
        spec_split_filter(s) == (Seq::<char>::empty(), Seq::<char>::empty(), true),
{
}

/// Law: whenever the text begins with the video input link, the video
/// chain of the split begins with it too, whatever the markers did.
pub proof fn lemma_video_in_link_kept(s: Seq<char>)
    requires
        occurs_at(s, video_in_marker(), 0),
    ensures
        occurs_at(spec_split_filter(s).0, video_in_marker(), 0),
{
    let base = spec_split_base(s);
    let prefixed = video_in_marker() + base.0;
    assert(prefixed.subrange(0, video_in_marker().len() as int) =~= video_in_marker());
}

} // verus!
