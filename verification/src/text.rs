//! Verified text predicates: string equality, substring search, and the
//! classification of provider error messages into transient and fatal.
//!
//! The orchestrator distinguishes transient provider failures from fatal ones
//! by the two documented substring signals: the eventual-consistency message
//! of a spot-request describe call, and the broken-transport messages of the
//! terminate call.

use vstd::prelude::*;

verus! {

/// `needle` occurs in `hay` starting at index `i`.
pub open spec fn matches_at(hay: Seq<char>, needle: Seq<char>, i: int) -> bool {
    0 <= i && i + needle.len() <= hay.len()
        && hay.subrange(i, i + needle.len() as int) == needle
}

/// `needle` occurs somewhere in `hay`.
pub open spec fn contains_seq(hay: Seq<char>, needle: Seq<char>) -> bool {
    exists|i: int| matches_at(hay, needle, i)
}

/// Character-for-character equality of two string slices.
pub fn str_eq(a: &str, b: &str) -> (r: bool)
    ensures
        r == (a@ == b@),
{
    let alen = a.unicode_len();
    let blen = b.unicode_len();
    if alen != blen {
        return false;
    }
    let mut j: usize = 0;
    while j < alen
        invariant
            alen == a@.len(),
            alen == b@.len(),
            j <= alen,
            forall|k: int| 0 <= k < j ==> a@[k] == b@[k],
        decreases alen - j,
    {
        if a.get_char(j) != b.get_char(j) {
            return false;
        }
        j += 1;
    }
    proof {
        assert(a@ =~= b@);
    }
    true
}

/// Substring search: does `needle` occur anywhere in `hay`?
pub fn contains_str(hay: &str, needle: &str) -> (r: bool)
    ensures
        r == contains_seq(hay@, needle@),
{
    let hlen = hay.unicode_len();
    let nlen = needle.unicode_len();
    if nlen == 0 {
        proof {
            assert(hay@.subrange(0, 0) =~= needle@);
            assert(matches_at(hay@, needle@, 0));
        }
        return true;
    }
    if nlen > hlen {
        return false;
    }
    let end = hlen - nlen;
    let mut i: usize = 0;
    while i <= end
        invariant
            hlen == hay@.len(),
            nlen == needle@.len(),
            0 < nlen <= hlen,
            end == hlen - nlen,
            i <= end + 1,
            forall|x: int| 0 <= x < i ==> !matches_at(hay@, needle@, x),
        decreases end + 1 - i,
    {
        let mut ok = true;
        let mut j: usize = 0;
        while j < nlen && ok
            invariant
                hlen == hay@.len(),
                nlen == needle@.len(),
                0 < nlen <= hlen,
                end == hlen - nlen,
                i <= end,
                j <= nlen,
                ok ==> forall|k: int| 0 <= k < j ==> hay@[i + k] == needle@[k],
                !ok ==> !matches_at(hay@, needle@, i as int),
            decreases nlen - j, (if ok { 1int } else { 0int }),
        {
            if hay.get_char(i + j) != needle.get_char(j) {
                proof {
                    if matches_at(hay@, needle@, i as int) {
                        assert(hay@.subrange(i as int, i + nlen as int)[j as int]
                            == needle@[j as int]);
                    }
                }
                ok = false;
            } else {
                j += 1;
            }
        }
        if ok {
            proof {
                assert(hay@.subrange(i as int, i + nlen as int) =~= needle@);
                assert(matches_at(hay@, needle@, i as int));
            }
            return true;
        }
        i += 1;
    }
    proof {
        assert forall|x: int| !matches_at(hay@, needle@, x) by {
            if 0 <= x && x + needle@.len() <= hay@.len() {
                assert(x < i);
            }
        }
    }
    false
}

/// The eventual-consistency signal of the spot-request describe call: the
/// provider has not yet propagated a freshly created request id.  Only this
/// message is retried; every other describe failure is fatal.
pub open spec fn transient_describe_failure(msg: Seq<char>) -> bool {
    contains_seq(msg, "The spot instance request ID"@) && contains_seq(msg, "does not exist"@)
}

/// Classify a describe-spot-requests failure message.
pub fn is_transient_describe_failure(msg: &str) -> (r: bool)
    ensures
        r == transient_describe_failure(msg@),
{
    contains_str(msg, "The spot instance request ID") && contains_str(msg, "does not exist")
}

/// The broken-transport signals of the terminate call, retried indefinitely;
/// every other terminate failure is fatal.
pub open spec fn transient_terminate_failure(msg: Seq<char>) -> bool {
    contains_seq(msg, "Pooled stream disconnected"@) || contains_seq(msg, "broken pipe"@)
}

/// Classify a terminate-instances failure message.
pub fn is_transient_terminate_failure(msg: &str) -> (r: bool)
    ensures
        r == transient_terminate_failure(msg@),
{
    contains_str(msg, "Pooled stream disconnected") || contains_str(msg, "broken pipe")
}

} // verus!
