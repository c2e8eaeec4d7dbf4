//! Substring search over byte buffers: the specification of what it means
//! for a needle to occur in a haystack, a verified naive search, and a
//! trusted multi-pattern scan that delegates to the `aho_corasick` crate.

use vstd::prelude::*;

verus! {

/// `needle` matches `hay` exactly at position `i`.
pub open spec fn match_at(hay: Seq<u8>, needle: Seq<u8>, i: int) -> bool {
    &&& 0 <= i
    &&& i + needle.len() <= hay.len()
    &&& hay.subrange(i, i + needle.len() as int) == needle
}

/// `needle` occurs somewhere in `hay`.
pub open spec fn contains_sub(hay: Seq<u8>, needle: Seq<u8>) -> bool {
    exists|i: int| match_at(hay, needle, i)
}

/// Whether `needle` matches `hay` at position `i` (checked byte by byte).
pub fn is_match_at(hay: &Vec<u8>, needle: &Vec<u8>, i: usize) -> (r: bool)
    requires
        i + needle@.len() <= hay@.len(),
    ensures
        r == match_at(hay@, needle@, i as int),
{
    let n = hay.len();
    let mut j: usize = 0;
    while j < needle.len()
        invariant
            0 <= j <= needle@.len(),
            i + needle@.len() <= hay@.len(),
            n == hay@.len(),
            forall|t: int| 0 <= t < j ==> hay@[i + t] == needle@[t],
        decreases needle@.len() - j,
    {
        if hay[i + j] != needle[j] {
            assert(hay@.subrange(i as int, i + needle@.len() as int)[j as int] != needle@[j as int]);
            return false;
        }
        j += 1;
    }
    assert(hay@.subrange(i as int, i + needle@.len() as int) =~= needle@);
    true
}

/// First position at or after `from` where `needle` occurs in `hay`,
/// or `None` when there is no such position.
pub fn find_sub_from(hay: &Vec<u8>, needle: &Vec<u8>, from: usize) -> (r: Option<usize>)
    ensures
        match r {
            Some(i) => {
                &&& from <= i
                &&& match_at(hay@, needle@, i as int)
                &&& forall|t: int| from <= t < i ==> !match_at(hay@, needle@, t)
            },
            None => forall|t: int| from <= t ==> !match_at(hay@, needle@, t),
        },
{
    if needle.len() > hay.len() {
        assert(forall|t: int| from <= t ==> !match_at(hay@, needle@, t));
        return None;
    }
    let last = hay.len() - needle.len();
    if from > last {
        assert(forall|t: int| from <= t ==> !match_at(hay@, needle@, t));
        return None;
    }
    let mut i: usize = from;
    loop
        invariant
            from <= i <= last,
            last == hay@.len() - needle@.len(),
            forall|t: int| from <= t < i ==> !match_at(hay@, needle@, t),
        decreases last - i,
    {
        if is_match_at(hay, needle, i) {
            return Some(i);
        }
        if i == last {
            assert(forall|t: int| from <= t ==> !match_at(hay@, needle@, t));
            return None;
        }
        i += 1;
    }
}

/// `needle` occurs somewhere in `hay`.
pub fn contains_sub_exec(hay: &Vec<u8>, needle: &Vec<u8>) -> (r: bool)
    ensures
        r == contains_sub(hay@, needle@),
{
    match find_sub_from(hay, needle, 0) {
        Some(i) => {
            assert(match_at(hay@, needle@, i as int));
            true
        },
        None => {
            assert(forall|t: int| !match_at(hay@, needle@, t));
            false
        },
    }
}

/// Relies on `aho_corasick::AhoCorasick`: with the default (standard) match
/// kind, `try_find_overlapping_iter` reports every match of every pattern at
/// every position, so pattern `k` is reported somewhere iff it occurs as a
/// substring of the haystack. Returns `None` when the automaton cannot be
/// built or searched for these patterns.
#[verifier::external_body]
pub(crate) fn ac_scan(hay: &Vec<u8>, needles: &Vec<Vec<u8>>) -> (r: Option<Vec<bool>>)
    ensures
        match r {
            Some(v) => {
                &&& v@.len() == needles@.len()
                &&& forall|k: int|
                    0 <= k < needles@.len() ==> v@[k] == contains_sub(hay@, needles@[k]@)
            },
            None => true,
        },
{
    let ac = aho_corasick::AhoCorasick::new(needles.iter()).ok()?;
    let it = ac.try_find_overlapping_iter(hay.as_slice()).ok()?;
    let mut found = vec![false; needles.len()];
    for m in it {
        let k = m.pattern().as_usize();
        if k < found.len() {
            found[k] = true;
        }
    }
    Some(found)
}

/// Presence of each needle in the haystack: the multi-pattern scan when it
/// is available, otherwise the verified naive search, needle by needle.
pub fn contains_each(hay: &Vec<u8>, needles: &Vec<Vec<u8>>) -> (r: Vec<bool>)
    ensures
        r@.len() == needles@.len(),
        forall|k: int| 0 <= k < needles@.len() ==> r@[k] == contains_sub(hay@, needles@[k]@),
{
    match ac_scan(hay, needles) {
        Some(v) => v,
        None => {
            let mut out: Vec<bool> = Vec::new();
            let mut k: usize = 0;
            while k < needles.len()
                invariant
                    0 <= k <= needles@.len(),
                    out@.len() == k,
                    forall|t: int| 0 <= t < k ==> out@[t] == contains_sub(hay@, needles@[t]@),
                decreases needles@.len() - k,
            {
                let b = contains_sub_exec(hay, &needles[k]);
                out.push(b);
                k += 1;
            }
            out
        },
    }
}

} // verus!
