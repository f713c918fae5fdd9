//! The mathematics shared by the two container variants: turning the *set*
//! of matching pattern indices that the engine reports into the *sequence*
//! of indices in ascending order, and selecting the values that stand at
//! those indices.
use vstd::prelude::*;

verus! {

/// The indices below `n` that belong to `m`, as a sequence in ascending
/// order. This is the order in which a lookup yields its values.
pub open spec fn ascending_members(m: Set<int>, n: int) -> Seq<int>
    decreases n,
{
    if n <= 0 {
        Seq::empty()
    } else if m.contains(n - 1) {
        ascending_members(m, n - 1).push(n - 1)
    } else {
        ascending_members(m, n - 1)
    }
}

/// The values standing at the given indices, in the order the indices come.
pub open spec fn selected<V>(values: Seq<V>, idxs: Seq<int>) -> Seq<V> {
    idxs.map(|_t: int, j: int| values[j])
}

/// `ascending_members(m, n)` is strictly ascending, and holds exactly the
/// members of `m` that lie in `[0, n)`.
pub proof fn lemma_ascending_members_properties(m: Set<int>, n: int)
    ensures
        forall|a: int, b: int|
            0 <= a < b < ascending_members(m, n).len() ==> ascending_members(m, n)[a]
                < ascending_members(m, n)[b],
        forall|a: int|
            0 <= a < ascending_members(m, n).len() ==> 0 <= #[trigger] ascending_members(m, n)[a]
                < n && m.contains(ascending_members(m, n)[a]),
        forall|j: int| #[trigger]
            ascending_members(m, n).contains(j) <==> (0 <= j < n && m.contains(j)),
    decreases n,
{
    if n <= 0 {
        assert(forall|j: int| !ascending_members(m, n).contains(j));
    } else {
        lemma_ascending_members_properties(m, n - 1);
        let prev = ascending_members(m, n - 1);
        if m.contains(n - 1) {
            let cur = prev.push(n - 1);
            assert forall|j: int| prev.contains(j) implies cur.contains(j) by {
                let i = choose|i: int| 0 <= i < prev.len() && prev[i] == j;
                assert(cur[i] == j);
            }
            assert forall|j: int| #[trigger] cur.contains(j) implies (j == n - 1
                || prev.contains(j)) by {
                let i = choose|i: int| 0 <= i < cur.len() && cur[i] == j;
                if i < prev.len() {
                    assert(prev[i] == j);
                }
            }
            assert(cur[prev.len() as int] == n - 1);
            assert(cur.contains(n - 1));
        }
    }
}

/// `ascending_members(m, n)` is non-empty exactly when `m` holds some index
/// in `[0, n)`.
pub proof fn lemma_ascending_members_nonempty(m: Set<int>, n: int)
    ensures
        ascending_members(m, n).len() > 0 <==> exists|j: int| 0 <= j < n && m.contains(j),
{
    lemma_ascending_members_properties(m, n);
    if ascending_members(m, n).len() > 0 {
        assert(ascending_members(m, n).contains(ascending_members(m, n)[0]));
    }
    if exists|j: int| 0 <= j < n && m.contains(j) {
        let j = choose|j: int| 0 <= j < n && m.contains(j);
        assert(ascending_members(m, n).contains(j));
    }
}

/// Any strictly ascending sequence over `[0, n)` whose membership agrees
/// with `m` is `ascending_members(m, n)` itself: the engine's report, sorted
/// and duplicate-free, determines the lookup order completely.
pub proof fn lemma_ascending_members_unique(m: Set<int>, n: int, s: Seq<int>)
    requires
        forall|a: int, b: int| 0 <= a < b < s.len() ==> s[a] < s[b],
        forall|a: int| 0 <= a < s.len() ==> 0 <= #[trigger] s[a] < n,
        forall|j: int|
            0 <= j < n ==> (m.contains(j) <==> exists|a: int|
                0 <= a < s.len() && #[trigger] s[a] == j),
    ensures
        s == ascending_members(m, n),
    decreases n,
{
    if n <= 0 {
        assert(s.len() == 0) by {
            if s.len() > 0 {
                assert(0 <= s[0] < n);
            }
        }
        assert(s =~= ascending_members(m, n));
    } else {
        if m.contains(n - 1) {
            let a = choose|a: int| 0 <= a < s.len() && s[a] == n - 1;
            assert(a == s.len() - 1) by {
                if a < s.len() - 1 {
                    assert(s[a] < s[s.len() - 1]);
                    assert(0 <= s[s.len() - 1] < n);
                }
            }
            let head = s.drop_last();
            assert forall|j: int| 0 <= j < n - 1 implies (m.contains(j) <==> exists|b: int|
                0 <= b < head.len() && #[trigger] head[b] == j) by {
                if m.contains(j) {
                    let b = choose|b: int| 0 <= b < s.len() && #[trigger] s[b] == j;
                    assert(b != s.len() - 1);
                    assert(head[b] == j);
                }
                if exists|b: int| 0 <= b < head.len() && #[trigger] head[b] == j {
                    let b = choose|b: int| 0 <= b < head.len() && #[trigger] head[b] == j;
                    assert(s[b] == j);
                }
            }
            lemma_ascending_members_unique(m, n - 1, head);
            assert(s =~= head.push(n - 1));
        } else {
            assert forall|a: int| 0 <= a < s.len() implies 0 <= #[trigger] s[a] < n - 1 by {
                assert(m.contains(s[a]));
            }
            lemma_ascending_members_unique(m, n - 1, s);
        }
    }
}

} // verus!
