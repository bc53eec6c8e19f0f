use vstd::prelude::*;

verus! {

/// `s` lengthened to `n` elements with copies of `fill`, or `s` itself when it has at least `n`.
pub open spec fn pad_to<T>(s: Seq<T>, n: int, fill: T) -> Seq<T> {
    if n <= s.len() {
        s
    } else {
        s + Seq::new((n - s.len()) as nat, |i: int| fill)
    }
}

/// `s` cut or lengthened to exactly `n` elements, as `Vec::resize` does.
pub open spec fn resized<T>(s: Seq<T>, n: int, fill: T) -> Seq<T> {
    if n <= s.len() {
        s.take(n)
    } else {
        pad_to(s, n, fill)
    }
}

/// How many `true` values `s` starts with.
pub open spec fn leading_true_count(s: Seq<bool>) -> nat
    decreases s.len(),
{
    if s.len() == 0 || !s[0] {
        0
    } else {
        1 + leading_true_count(s.drop_first())
    }
}

/// The leading run of `true` values is all `true`, and ends at the end or at a `false`.
pub proof fn lemma_leading_true_count(s: Seq<bool>)
    ensures
        leading_true_count(s) <= s.len(),
        forall|i: int| 0 <= i < leading_true_count(s) ==> #[trigger] s[i],
        leading_true_count(s) < s.len() ==> !s[leading_true_count(s) as int],
    decreases s.len(),
{
    if s.len() > 0 && s[0] {
        lemma_leading_true_count(s.drop_first());
        assert forall|i: int| 0 <= i < leading_true_count(s) implies #[trigger] s[i] by {
            if i > 0 {
                assert(s[i] == s.drop_first()[i - 1]);
            }
        }
    }
}

/// A count `k` with the two properties of the leading run is its length.
pub proof fn lemma_leading_true_count_unique(s: Seq<bool>, k: int)
    requires
        0 <= k <= s.len(),
        forall|i: int| 0 <= i < k ==> #[trigger] s[i],
        k < s.len() ==> !s[k],
    ensures
        leading_true_count(s) == k,
    decreases s.len(),
{
    if k > 0 {
        assert(s[0]);
        let t = s.drop_first();
        assert forall|i: int| 0 <= i < k - 1 implies #[trigger] t[i] by {
            assert(s[i + 1]);
        }
        if k - 1 < t.len() {
            assert(!s[k]);
            assert(t[k - 1] == s[k]);
        }
        lemma_leading_true_count_unique(t, k - 1);
    }
}

} // verus!
