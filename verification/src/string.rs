//! The text-keyed container: patterns are matched against Unicode text keys.
use vstd::prelude::*;

use crate::PatternError;
use crate::matching::ascending_members;
use crate::matching::lemma_ascending_members_nonempty;
use crate::matching::lemma_ascending_members_properties;
use crate::matching::lemma_ascending_members_unique;
use crate::matching::selected;

verus! {

/// The set of indices of the patterns in `patterns` that match somewhere in
/// the text key `key`. Which patterns match is decided by the pattern
/// engine; it depends on the patterns and the key alone.
pub uninterp spec fn matched_indices(patterns: Seq<Seq<char>>, key: Seq<char>) -> Set<int>;

/// Whether the pattern engine accepts every expression in `patterns` and
/// compiles the list into one matcher. It depends on the patterns alone.
pub uninterp spec fn compiles(patterns: Seq<Seq<char>>) -> bool;

/// The list of pattern expressions a compiled matcher was built from, in
/// the order they were supplied.
pub uninterp spec fn patterns_of(set: regex::RegexSet) -> Seq<Seq<char>>;

#[verifier::external_type_specification]
#[verifier::external_body]
pub struct ExRegexSet(regex::RegexSet);

/// Relies on `regex::RegexSet::new`: compilation succeeds or fails as a
/// function of the expressions alone, and on success the matcher holds
/// exactly the given expressions in order.
#[verifier::external_body]
fn compile_set(exprs: &Vec<String>) -> (r: Result<regex::RegexSet, PatternError>)
    ensures
        (r is Ok) == compiles(exprs@.map(|_t: int, s: String| s@)),
        r matches Ok(set) ==> patterns_of(set) == exprs@.map(|_t: int, s: String| s@),
{
    match regex::RegexSet::new(exprs) {
        Ok(set) => Ok(set),
        Err(regex::Error::Syntax(msg)) => Err(PatternError::Syntax(msg)),
        Err(regex::Error::CompiledTooBig(limit)) => Err(PatternError::CompiledTooBig(limit)),
        Err(_) => Err(PatternError::Unknown),
    }
}

/// Relies on `regex::RegexSet::matches`: it reports the index of each
/// pattern that matches the key, in ascending order, without duplicates,
/// each below the number of patterns.
#[verifier::external_body]
fn set_matches(set: &regex::RegexSet, key: &str) -> (r: Vec<usize>)
    ensures
        forall|a: int, b: int| 0 <= a < b < r@.len() ==> r@[a] < r@[b],
        forall|a: int| 0 <= a < r@.len() ==> (#[trigger] r@[a]) < patterns_of(*set).len(),
        forall|j: int|
            0 <= j < patterns_of(*set).len() ==> (#[trigger] matched_indices(
                patterns_of(*set),
                key@,
            ).contains(j) <==> exists|a: int| 0 <= a < r@.len() && #[trigger] r@[a] == j),
{
    set.matches(key).into_iter().collect()
}

/// Whether at least one of `patterns` matches the key.
pub open spec fn has_match(patterns: Seq<Seq<char>>, key: Seq<char>) -> bool {
    exists|j: int| 0 <= j < patterns.len() && #[trigger] matched_indices(patterns, key).contains(j)
}

/// Relies on `regex::RegexSet::is_match`: true if and only if at least one
/// pattern in the set matches the key.
#[verifier::external_body]
fn set_is_match(set: &regex::RegexSet, key: &str) -> (r: bool)
    ensures
        r == has_match(patterns_of(*set), key@),
{
    set.is_match(key)
}

/// The sequence a lookup yields: the values whose pattern matches the key,
/// in ascending order of pattern index.
pub open spec fn lookup<V>(patterns: Seq<Seq<char>>, values: Seq<V>, key: Seq<char>) -> Seq<V> {
    selected(values, ascending_members(matched_indices(patterns, key), patterns.len() as int))
}

/// The abstract content of a [`RegexMap`]: the pattern expressions and the
/// values, two parallel sequences paired by position.
#[verifier::ext_equal]
#[verifier::reject_recursive_types(V)]
pub ghost struct RegexMapView<V> {
    pub patterns: Seq<Seq<char>>,
    pub values: Seq<V>,
}

/// Associative container whose keys are regular expressions over text: a
/// lookup returns every value whose pattern matches the given key.
///
/// Built once from an ordered list of (expression, value) pairs and
/// immutable afterwards.
pub struct RegexMap<V> {
    set: regex::RegexSet,
    values: Vec<V>,
}

impl<V> View for RegexMap<V> {
    type V = RegexMapView<V>;

    closed spec fn view(&self) -> RegexMapView<V> {
        RegexMapView { patterns: patterns_of(self.set), values: self.values@ }
    }
}

impl<V> RegexMap<V> {
    /// One value per pattern, paired by position.
    #[verifier::type_invariant]
    spec fn well_formed(self) -> bool {
        patterns_of(self.set).len() == self.values@.len()
    }

    /// Create a `RegexMap` from a list of (expression, value) pairs. Fails
    /// with the engine's error when some expression does not compile, and
    /// then yields no container.
    pub fn new(items: Vec<(String, V)>) -> (r: Result<Self, PatternError>)
        ensures
            (r is Ok) == compiles(items@.map(|_t: int, p: (String, V)| p.0@)),
            r matches Ok(m) ==> {
                &&& m@.patterns == items@.map(|_t: int, p: (String, V)| p.0@)
                &&& m@.values == items@.map(|_t: int, p: (String, V)| p.1)
                &&& m@.patterns.len() == items@.len()
                &&& m@.values.len() == items@.len()
            },
    {
        let ghost orig: Seq<(String, V)> = items@;
        let mut items = items;
        let mut exprs: Vec<String> = Vec::new();
        let mut values: Vec<V> = Vec::new();
        while items.len() > 0
            invariant
                exprs@.len() == values@.len(),
                exprs@.len() + items@.len() == orig.len(),
                exprs@ == orig.take(exprs@.len() as int).map(|_t: int, p: (String, V)| p.0),
                values@ == orig.take(exprs@.len() as int).map(|_t: int, p: (String, V)| p.1),
                items@ == orig.skip(exprs@.len() as int),
            decreases items@.len(),
        {
            let ghost k = exprs@.len() as int;
            let pair = items.remove(0);
            exprs.push(pair.0);
            values.push(pair.1);
            proof {
                assert(orig.skip(k)[0] == orig[k]);
                assert(exprs@ =~= orig.take(k + 1).map(|_t: int, p: (String, V)| p.0));
                assert(values@ =~= orig.take(k + 1).map(|_t: int, p: (String, V)| p.1));
                assert(items@ =~= orig.skip(k + 1));
            }
        }
        proof {
            assert(orig.take(orig.len() as int) =~= orig);
            assert(exprs@.map(|_t: int, s: String| s@) =~= orig.map(
                |_t: int, p: (String, V)| p.0@,
            ));
        }
        match compile_set(&exprs) {
            Ok(set) => Ok(RegexMap { set, values }),
            Err(e) => Err(e),
        }
    }

    /// Return the values whose pattern matches `key`, in the order the
    /// patterns were supplied at construction; each matching pattern
    /// contributes its value exactly once. A key matching no pattern yields
    /// the empty vector.
    pub fn get<'a>(&'a self, key: &str) -> (r: Vec<&'a V>)
        ensures
            r@.len() == lookup(self@.patterns, self@.values, key@).len(),
            forall|t: int|
                0 <= t < r@.len() ==> r@[t] == lookup(self@.patterns, self@.values, key@)[t],
    {
        proof {
            use_type_invariant(&*self);
        }
        let idxs = set_matches(&self.set, key);
        let ghost m = matched_indices(self@.patterns, key@);
        let ghost n = self@.patterns.len() as int;
        let ghost g = idxs@.map(|_t: int, x: usize| x as int);
        proof {
            assert forall|j: int|
                0 <= j < n implies (m.contains(j) <==> exists|a: int|
                0 <= a < g.len() && #[trigger] g[a] == j) by {
                if m.contains(j) {
                    let a = choose|a: int| 0 <= a < idxs@.len() && #[trigger] idxs@[a] == j;
                    assert(g[a] == j);
                }
                if exists|a: int| 0 <= a < g.len() && #[trigger] g[a] == j {
                    let a = choose|a: int| 0 <= a < g.len() && #[trigger] g[a] == j;
                    assert(idxs@[a] == j);
                }
            }
            lemma_ascending_members_unique(m, n, g);
        }
        let mut out: Vec<&V> = Vec::new();
        let mut i: usize = 0;
        while i < idxs.len()
            invariant
                i <= idxs@.len(),
                out@.len() == i,
                g == idxs@.map(|_t: int, x: usize| x as int),
                forall|a: int| 0 <= a < idxs@.len() ==> (#[trigger] idxs@[a]) < self.values@.len(),
                forall|t: int| 0 <= t < i ==> out@[t] == self@.values[g[t]],
            decreases idxs@.len() - i,
        {
            out.push(&self.values[idxs[i]]);
            i += 1;
        }
        out
    }

    /// True if and only if at least one pattern matches `key`; equivalent
    /// to `get(key)` yielding at least one value.
    pub fn contains_key(&self, key: &str) -> (r: bool)
        ensures
            r == has_match(self@.patterns, key@),
    {
        proof {
            use_type_invariant(&*self);
        }
        set_is_match(&self.set, key)
    }
}

/// Law: a lookup yields exactly the values of the matching patterns, in
/// strictly ascending order of pattern index. With the matching indices
/// `i_1 < i_2 < ... < i_m`, the lookup is `values[i_1], ..., values[i_m]`.
pub proof fn lemma_lookup_ordered<V>(patterns: Seq<Seq<char>>, values: Seq<V>, key: Seq<char>)
    ensures
        ({
            let idxs = ascending_members(matched_indices(patterns, key), patterns.len() as int);
            &&& lookup(patterns, values, key).len() == idxs.len()
            &&& forall|t: int|
                0 <= t < idxs.len() ==> lookup(patterns, values, key)[t] == values[idxs[t]]
            &&& forall|a: int, b: int| 0 <= a < b < idxs.len() ==> idxs[a] < idxs[b]
            &&& forall|j: int| #[trigger]
                idxs.contains(j) <==> (0 <= j < patterns.len() && matched_indices(
                    patterns,
                    key,
                ).contains(j))
        }),
{
    lemma_ascending_members_properties(matched_indices(patterns, key), patterns.len() as int);
}

/// Law: lookup is a function of the container's content and the key alone,
/// so repeated lookups with the same key yield identical sequences.
pub proof fn lemma_lookup_idempotent<V>(
    patterns: Seq<Seq<char>>,
    values: Seq<V>,
    key: Seq<char>,
    r1: Seq<V>,
    r2: Seq<V>,
)
    requires
        r1 == lookup(patterns, values, key),
        r2 == lookup(patterns, values, key),
    ensures
        r1 == r2,
{
}

/// Law: membership and lookup agree: a key has a match if and only if the
/// lookup yields at least one value.
pub proof fn lemma_contains_iff_lookup_nonempty<V>(
    patterns: Seq<Seq<char>>,
    values: Seq<V>,
    key: Seq<char>,
)
    ensures
        has_match(patterns, key) <==> lookup(patterns, values, key).len() > 0,
{
    lemma_ascending_members_nonempty(matched_indices(patterns, key), patterns.len() as int);
}

/// Law: a key matching zero patterns yields the empty sequence and no
/// membership.
pub proof fn lemma_no_match_empty<V>(patterns: Seq<Seq<char>>, values: Seq<V>, key: Seq<char>)
    requires
        forall|j: int|
            0 <= j < patterns.len() ==> !(#[trigger] matched_indices(patterns, key).contains(j)),
    ensures
        !has_match(patterns, key),
        lookup(patterns, values, key) == Seq::<V>::empty(),
{
    lemma_ascending_members_nonempty(matched_indices(patterns, key), patterns.len() as int);
    assert(lookup(patterns, values, key) =~= Seq::<V>::empty());
}

} // verus!
