//! Name similarity for "did you mean" suggestions.
//!
//! Two names are similar when, lower-cased, one contains the other or they
//! are close: their lengths differ by at most three bytes and at least 60% of
//! the longer one's length is matched by equal characters at equal positions.

use crate::text::chars_of;
use vstd::prelude::*;
use vstd::utf8::encode_utf8;

verus! {

/// The lower-case form of a string, as `str::to_lowercase` computes it.
pub uninterp spec fn lowercase(s: Seq<char>) -> Seq<char>;

/// `str::to_lowercase`: the lower-case form of `s`.
#[verifier::external_body]
pub(crate) fn to_lowercase(s: &str) -> (r: String)
    ensures
        r@ == lowercase(s@),
{
    s.to_lowercase()
}

/// Whether `needle` occurs in `hay` as a run of consecutive characters.
pub open spec fn is_substring(needle: Seq<char>, hay: Seq<char>) -> bool {
    exists|i: int|
        0 <= i && i + needle.len() <= hay.len() && #[trigger] hay.subrange(i, i + needle.len())
            == needle
}

/// Whether `needle` stands in `hay` at the position `at`.
fn stands_at(hay: &Vec<char>, needle: &Vec<char>, at: usize) -> (r: bool)
    requires
        at + needle.len() <= hay.len(),
    ensures
        r == (hay@.subrange(at as int, at + needle@.len()) == needle@),
{
    let n = needle.len();
    let ghost window = hay@.subrange(at as int, at + n);
    let mut j: usize = 0;
    while j < n
        invariant
            n == needle.len(),
            j <= n,
            at + n <= hay.len(),
            window == hay@.subrange(at as int, at + n),
            forall|k: int| 0 <= k < j ==> window[k] == needle@[k],
        decreases n - j,
    {
        if hay[at + j] != needle[j] {
            proof {
                assert(window[j as int] != needle@[j as int]);
            }
            return false;
        }
        j = j + 1;
    }
    proof {
        assert(window =~= needle@);
    }
    true
}

/// Whether `needle` occurs in `hay`.
pub fn str_contains(hay: &str, needle: &str) -> (r: bool)
    ensures
        r == is_substring(needle@, hay@),
{
    let straw = chars_of(hay);
    let wanted = chars_of(needle);
    if wanted.len() > straw.len() {
        return false;
    }
    let last = straw.len() - wanted.len();
    let mut i: usize = 0;
    while i < last
        invariant
            straw@ == hay@,
            wanted@ == needle@,
            wanted.len() <= straw.len(),
            last == straw.len() - wanted.len(),
            i <= last,
            forall|k: int|
                0 <= k < i ==> #[trigger] hay@.subrange(k, k + needle@.len()) != needle@,
        decreases last - i,
    {
        if stands_at(&straw, &wanted, i) {
            return true;
        }
        i = i + 1;
    }
    stands_at(&straw, &wanted, last)
}

/// How many positions below `n` hold the same character in `a` and in `b`.
pub open spec fn matches_below(a: Seq<char>, b: Seq<char>, n: int) -> nat
    decreases n,
{
    if n <= 0 {
        0
    } else {
        matches_below(a, b, n - 1) + if a[n - 1] == b[n - 1] {
            1nat
        } else {
            0nat
        }
    }
}

/// How many positions hold the same character in both strings.
pub open spec fn common_positions(a: Seq<char>, b: Seq<char>) -> nat {
    matches_below(
        a,
        b,
        if a.len() <= b.len() {
            a.len() as int
        } else {
            b.len() as int
        },
    )
}

/// Whether two strings are close: their byte lengths differ by at most three,
/// and the characters that agree in place make up at least 60% of the longer
/// byte length. Two empty strings are close.
pub open spec fn close(a: Seq<char>, b: Seq<char>) -> bool {
    let la = encode_utf8(a).len() as int;
    let lb = encode_utf8(b).len() as int;
    let longer = if la >= lb {
        la
    } else {
        lb
    };
    let shorter = if la >= lb {
        lb
    } else {
        la
    };
    if longer - shorter > 3 {
        false
    } else if longer == 0 {
        true
    } else {
        (common_positions(a, b) * 100) as int / longer >= 60
    }
}

/// Whether a lower-cased name is similar to a lower-cased target: one contains
/// the other, or they are close.
pub open spec fn similar_lowered(name: Seq<char>, target: Seq<char>) -> bool {
    is_substring(target, name) || is_substring(name, target) || close(target, name)
}

/// Whether `name` is similar enough to `target` to be suggested for it.
pub open spec fn similar(name: Seq<char>, target: Seq<char>) -> bool {
    similar_lowered(lowercase(name), lowercase(target))
}

/// Simple check if two strings are "close enough".
///
/// Not an edit distance: a quick heuristic for suggestions.
pub fn levenshtein_close(a: &str, b: &str) -> (r: bool)
    ensures
        r == close(a@, b@),
{
    let la: usize = a.as_bytes().len();
    let lb: usize = b.as_bytes().len();
    let longer: usize = if la >= lb {
        la
    } else {
        lb
    };
    let shorter: usize = if la >= lb {
        lb
    } else {
        la
    };
    if longer - shorter > 3 {
        return false;
    }
    let first = chars_of(a);
    let second = chars_of(b);
    let n: usize = if first.len() <= second.len() {
        first.len()
    } else {
        second.len()
    };
    let mut common: usize = 0;
    let mut i: usize = 0;
    while i < n
        invariant
            i <= n,
            n <= first@.len(),
            n <= second@.len(),
            first@ == a@,
            second@ == b@,
            common == matches_below(a@, b@, i as int),
            common <= i,
        decreases n - i,
    {
        if first[i] == second[i] {
            common = common + 1;
        }
        i = i + 1;
    }
    if longer == 0 {
        return true;
    }
    let scaled: u128 = (common as u128) * 100;
    scaled / (longer as u128) >= 60
}

/// Whether a lower-cased name is similar to a lower-cased target.
pub fn lowered_names_similar(name: &str, target: &str) -> (r: bool)
    ensures
        r == similar_lowered(name@, target@),
{
    str_contains(name, target) || str_contains(target, name) || levenshtein_close(target, name)
}

/// Whether `name` is similar enough to `target` to be suggested for it.
pub fn names_similar(name: &str, target: &str) -> (r: bool)
    ensures
        r == similar(name@, target@),
{
    let lowered_name = to_lowercase(name);
    let lowered_target = to_lowercase(target);
    lowered_names_similar(lowered_name.as_str(), lowered_target.as_str())
}

} // verus!
