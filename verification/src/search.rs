//! Searching sequences from the front.
use vstd::prelude::*;

verus! {

/// The first index of `s` whose element satisfies `p`, or -1.
pub open spec fn first_index<T>(s: Seq<T>, p: spec_fn(T) -> bool) -> int
    decreases s.len(),
{
    if s.len() == 0 {
        -1
    } else if p(s[0]) {
        0
    } else {
        let rest = first_index(s.drop_first(), p);
        if rest < 0 {
            -1
        } else {
            rest + 1
        }
    }
}

/// Where no element before `k` satisfies `p`, the first index is `k` if
/// `s[k]` does, and -1 if `k` is the end.
pub proof fn lemma_first_index_at<T>(s: Seq<T>, p: spec_fn(T) -> bool, k: int)
    requires
        0 <= k <= s.len(),
        forall|j: int| 0 <= j < k ==> !p(#[trigger] s[j]),
    ensures
        k < s.len() && p(s[k]) ==> first_index(s, p) == k,
        k == s.len() ==> first_index(s, p) == -1,
    decreases k,
{
    if k > 0 {
        assert forall|j: int| 0 <= j < k - 1 implies !p(#[trigger] s.drop_first()[j]) by {
            assert(s.drop_first()[j] == s[j + 1]);
        }
        lemma_first_index_at(s.drop_first(), p, k - 1);
        assert(!p(s[0]));
        if k < s.len() {
            assert(s.drop_first()[k - 1] == s[k]);
        }
    }
}

/// The first index is -1 exactly when no element satisfies `p`; otherwise
/// it is an index whose element satisfies `p` and before which none does.
pub proof fn lemma_first_index_is_first<T>(s: Seq<T>, p: spec_fn(T) -> bool)
    ensures
        first_index(s, p) == -1 <==> forall|j: int| 0 <= j < s.len() ==> !p(#[trigger] s[j]),
        first_index(s, p) != -1 ==> 0 <= first_index(s, p) < s.len() && p(s[first_index(s, p)]) && forall|
            j: int,
        | 0 <= j < first_index(s, p) ==> !p(#[trigger] s[j]),
    decreases s.len(),
{
    if s.len() > 0 && !p(s[0]) {
        lemma_first_index_is_first(s.drop_first(), p);
        assert forall|j: int| 1 <= j < s.len() implies s[j] == s.drop_first()[j - 1] by {}
        if first_index(s.drop_first(), p) == -1 {
            assert forall|j: int| 0 <= j < s.len() implies !p(#[trigger] s[j]) by {
                if j > 0 {
                    assert(s[j] == s.drop_first()[j - 1]);
                }
            }
        } else {
            let r = first_index(s.drop_first(), p);
            assert(s[r + 1] == s.drop_first()[r]);
            assert forall|j: int| 0 <= j < r + 1 implies !p(#[trigger] s[j]) by {
                if j > 0 {
                    assert(s[j] == s.drop_first()[j - 1]);
                }
            }
        }
    }
}

} // verus!
