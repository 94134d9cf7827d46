//! The search for the repository that provides a package.
//!
//! The search alternates between decisions, taken here, and queries of
//! remote package indexes, made by the caller: [`Resolution::next_step`]
//! names the provider to consult next, and [`Resolution::record_answer`]
//! takes its answer.

use vstd::prelude::*;
use crate::order::{
    lemma_insert_at, lemma_sort_by_name, lemma_sorted_unique, name_less, name_lt, sort_by_name,
    sorted_by_name,
};
use crate::provider::{conversion, convert_to_repo_provider, ProviderView, RepositoryDefinition, RepositoryProvider};

verus! {

/// The definition directory could not be listed.
#[derive(Clone, Debug)]
pub struct DefinitionFetchError {
    pub reason: String,
}

/// A repository's package index could not be consulted.
#[derive(Clone, Debug)]
pub struct QueryError {
    pub reason: String,
}

/// What a provider answered when asked for the package.
pub type QueryAnswer = Result<bool, QueryError>;

/// Only an affirmative answer is a match; a negative answer and a failed
/// query alike are not.
pub open spec fn answer_matches(a: QueryAnswer) -> bool {
    match a {
        Ok(b) => b,
        Err(_) => false,
    }
}

/// The providers that the valid definitions among `defs` convert into, in the order of `defs`.
pub open spec fn valid_providers(defs: Seq<RepositoryDefinition>) -> Seq<ProviderView>
    decreases defs.len(),
{
    if defs.len() == 0 {
        Seq::empty()
    } else {
        let rest = valid_providers(defs.drop_last());
        match conversion(defs.last()) {
            Ok(p) => rest.push(p),
            Err(_) => rest,
        }
    }
}

/// The providers consulted for the definitions `defs`, in the order they are consulted.
pub open spec fn candidates_of(defs: Seq<RepositoryDefinition>) -> Seq<ProviderView> {
    sort_by_name(valid_providers(defs))
}

/// The position of the first `true` in `m`.
pub open spec fn first_match(m: Seq<bool>) -> Option<int>
    decreases m.len(),
{
    if m.len() == 0 {
        None
    } else {
        match first_match(m.drop_last()) {
            Some(i) => Some(i),
            None => if m.last() {
                Some(m.len() - 1)
            } else {
                None
            },
        }
    }
}

/// The provider chosen among `cands`, where `m[i]` tells whether `cands[i]` holds the package.
pub open spec fn chosen(cands: Seq<ProviderView>, m: Seq<bool>) -> Option<ProviderView> {
    match first_match(m) {
        Some(i) => Some(cands[i]),
        None => None,
    }
}

/// Whether each answer is a match.
pub open spec fn matches_of(answers: Seq<QueryAnswer>) -> Seq<bool> {
    answers.map_values(|a: QueryAnswer| answer_matches(a))
}

/// The abstract values of a sequence of providers.
pub open spec fn views_of(ps: Seq<RepositoryProvider>) -> Seq<ProviderView> {
    ps.map_values(|p: RepositoryProvider| p@)
}

/// What the search asks of its caller next.
#[derive(Clone, Copy, Debug, PartialEq, Eq, Structural)]
pub enum Step {
    /// Query the candidate at this position for the package.
    Query(usize),
    /// The candidate at this position holds the package: the search is over.
    Found(usize),
    /// No candidate holds the package: the search is over.
    Exhausted,
}

/// One search for a package among the providers of a listing.
pub struct Resolution {
    candidates: Vec<RepositoryProvider>,
    consulted: usize,
    found: bool,
    matched: Ghost<Seq<bool>>,
}

impl Resolution {
    /// The candidates, in the order in which they are consulted.
    pub closed spec fn candidates(&self) -> Seq<ProviderView> {
        views_of(self.candidates@)
    }

    /// For each candidate consulted so far, whether it answered with a match.
    pub closed spec fn matched(&self) -> Seq<bool> {
        self.matched@
    }

    pub closed spec fn wf(&self) -> bool {
        &&& self.consulted == self.matched@.len()
        &&& self.consulted <= self.candidates@.len()
        &&& self.found == (first_match(self.matched@) is Some)
        &&& self.found ==> first_match(self.matched@) == Some(self.consulted - 1)
    }

    /// Starts a search among the valid definitions of `defs`, ordered by name.
    ///
    /// An invalid definition is left out; it never stops the search.
    pub fn new(defs: &Vec<RepositoryDefinition>) -> (r: Resolution)
        ensures
            r.wf(),
            r.candidates() == candidates_of(defs@),
            r.matched() == Seq::<bool>::empty(),
    {
        let mut cands: Vec<RepositoryProvider> = Vec::new();
        let mut i: usize = 0;
        while i < defs.len()
            invariant
                i <= defs@.len(),
                views_of(cands@) == sort_by_name(valid_providers(defs@.take(i as int))),
            decreases defs@.len() - i,
        {
            assert(defs@.take(i + 1).drop_last() =~= defs@.take(i as int));
            match convert_to_repo_provider(&defs[i]) {
                Some(p) => {
                    let mut j: usize = cands.len();
                    while j > 0 && name_less(p.name().as_str(), cands[j - 1].name().as_str())
                        invariant
                            j <= cands@.len(),
                            forall|k: int| j <= k < cands@.len() ==> name_lt(p@.name, #[trigger] cands@[k]@.name),
                        decreases j,
                    {
                        j = j - 1;
                    }
                    proof {
                        let s = views_of(cands@);
                        assert(valid_providers(defs@.take(i + 1)) == valid_providers(defs@.take(i as int)).push(p@));
                        assert(valid_providers(defs@.take(i as int)).push(p@).drop_last() =~= valid_providers(defs@.take(i as int)));
                        assert forall|k: int| j <= k < s.len() implies name_lt(p@.name, #[trigger] s[k].name) by {
                            assert(s[k] == cands@[k]@);
                        }
                        lemma_insert_at(s, p@, j as int);
                    }
                    let ghost before = cands@;
                    let ghost pv = p@;
                    cands.insert(j, p);
                    proof {
                        assert(views_of(cands@) =~= views_of(before).insert(j as int, pv));
                    }
                },
                None => {},
            }
            i = i + 1;
        }
        assert(defs@.take(defs@.len() as int) =~= defs@);
        proof {
            assert(first_match(Seq::<bool>::empty()) is None);
        }
        Resolution { candidates: cands, consulted: 0, found: false, matched: Ghost(Seq::empty()) }
    }

    /// Starts a search on the result of listing the definition directory.
    ///
    /// A failed listing is the one error of a search: it is handed back as
    /// it came, and no provider is built.
    pub fn from_listing(listing: Result<Vec<RepositoryDefinition>, DefinitionFetchError>) -> (r: Result<Resolution, DefinitionFetchError>)
        ensures
            match listing {
                Ok(defs) => r is Ok && r->Ok_0.wf() && r->Ok_0.candidates() == candidates_of(defs@)
                    && r->Ok_0.matched() == Seq::<bool>::empty(),
                Err(e) => r == Err::<Resolution, DefinitionFetchError>(e),
            },
    {
        match listing {
            Ok(defs) => Ok(Resolution::new(&defs)),
            Err(e) => Err(e),
        }
    }

    /// The number of candidates.
    pub fn candidate_count(&self) -> (r: usize)
        ensures
            r == self.candidates().len(),
    {
        self.candidates.len()
    }

    /// The candidate at position `i`.
    pub fn candidate(&self, i: usize) -> (r: &RepositoryProvider)
        requires
            i < self.candidates().len(),
        ensures
            r@ == self.candidates()[i as int],
    {
        &self.candidates[i]
    }

    /// The number of candidates consulted so far.
    pub fn consulted(&self) -> (r: usize)
        requires
            self.wf(),
        ensures
            r == self.matched().len(),
    {
        self.consulted
    }

    /// What the caller is to do next: query the next candidate in order,
    /// until one has answered with a match or none is left.
    pub fn next_step(&self) -> (r: Step)
        requires
            self.wf(),
        ensures
            match first_match(self.matched()) {
                Some(i) => r == Step::Found(i as usize),
                None => if self.matched().len() < self.candidates().len() {
                    r == Step::Query(self.matched().len() as usize)
                } else {
                    r == Step::Exhausted
                },
            },
    {
        if self.found {
            Step::Found(self.consulted - 1)
        } else if self.consulted < self.candidates.len() {
            Step::Query(self.consulted)
        } else {
            Step::Exhausted
        }
    }

    /// Records the answer of the candidate that [`Resolution::next_step`] asked
    /// to be queried. A failed query counts as a negative answer.
    pub fn record_answer(&mut self, answer: &QueryAnswer)
        requires
            old(self).wf(),
            first_match(old(self).matched()) is None,
            old(self).matched().len() < old(self).candidates().len(),
        ensures
            final(self).wf(),
            final(self).candidates() == old(self).candidates(),
            final(self).matched() == old(self).matched().push(answer_matches(*answer)),
    {
        let n = self.candidates.len();
        let hit = match answer {
            Ok(b) => *b,
            Err(_) => false,
        };
        proof {
            assert(self.candidates().len() == n);
            let m = self.matched@.push(hit);
            assert(m.drop_last() =~= self.matched@);
        }
        self.matched = Ghost(self.matched@.push(hit));
        self.consulted = self.consulted + 1;
        self.found = hit;
    }

    /// The outcome of the search: the candidate that answered with a match,
    /// if any did.
    pub fn into_result(self) -> (r: Option<RepositoryProvider>)
        requires
            self.wf(),
        ensures
            match chosen(self.candidates(), self.matched()) {
                Some(v) => r is Some && r->Some_0@ == v,
                None => r is None,
            },
    {
        if self.found {
            let mut cands = self.candidates;
            let p = cands.swap_remove(self.consulted - 1);
            Some(p)
        } else {
            None
        }
    }
}

/// Chooses among `providers` the first whose answer in `answers` is a match,
/// where `answers[i]` is what `providers[i]` answered.
///
/// This serves a caller that queries all candidates at once: the choice
/// still goes by the order of the candidates, not by the order in which the
/// answers came.
pub fn choose_repository_provider(providers: Vec<RepositoryProvider>, answers: &Vec<QueryAnswer>) -> (r: Option<RepositoryProvider>)
    requires
        answers@.len() == providers@.len(),
    ensures
        match chosen(views_of(providers@), matches_of(answers@)) {
            Some(v) => r is Some && r->Some_0@ == v,
            None => r is None,
        },
{
    let mut i: usize = 0;
    while i < answers.len()
        invariant
            answers@.len() == providers@.len(),
            i <= answers@.len(),
            first_match(matches_of(answers@.take(i as int))) is None,
        decreases answers@.len() - i,
    {
        let ghost m = matches_of(answers@.take(i + 1));
        proof {
            assert(m.drop_last() =~= matches_of(answers@.take(i as int)));
        }
        let hit = match &answers[i] {
            Ok(b) => *b,
            Err(_) => false,
        };
        if hit {
            proof {
                lemma_first_match_prefix(matches_of(answers@), i as int + 1);
                assert(matches_of(answers@).take(i + 1) =~= m);
            }
            let mut providers = providers;
            let p = providers.swap_remove(i);
            return Some(p);
        }
        i = i + 1;
    }
    assert(answers@.take(answers@.len() as int) =~= answers@);
    None
}

/// The chosen position is the earliest match: the candidate there answered
/// with a match and none before it did; where there is none, no candidate
/// answered with a match.
pub proof fn lemma_first_match_is_earliest(m: Seq<bool>)
    ensures
        match first_match(m) {
            Some(i) => 0 <= i < m.len() && m[i] && forall|k: int| 0 <= k < i ==> !#[trigger] m[k],
            None => forall|k: int| 0 <= k < m.len() ==> !#[trigger] m[k],
        },
    decreases m.len(),
{
    if m.len() > 0 {
        let d = m.drop_last();
        lemma_first_match_is_earliest(d);
        assert forall|k: int| 0 <= k < d.len() implies d[k] == m[k] by {}
    }
}

/// A first match within a prefix is the first match of the whole.
pub proof fn lemma_first_match_prefix(m: Seq<bool>, n: int)
    requires
        0 <= n <= m.len(),
        first_match(m.take(n)) is Some,
    ensures
        first_match(m) == first_match(m.take(n)),
    decreases m.len() - n,
{
    if n < m.len() {
        assert(m.take(n + 1).drop_last() =~= m.take(n));
        lemma_first_match_prefix(m, n + 1);
    } else {
        assert(m.take(n) =~= m);
    }
}

/// Converting a listing in two parts converts each part.
pub proof fn lemma_valid_providers_append(a: Seq<RepositoryDefinition>, b: Seq<RepositoryDefinition>)
    ensures
        valid_providers(a + b) == valid_providers(a) + valid_providers(b),
    decreases b.len(),
{
    if b.len() == 0 {
        assert(a + b =~= a);
        assert(valid_providers(a) + valid_providers(b) =~= valid_providers(a));
    } else {
        lemma_valid_providers_append(a, b.drop_last());
        assert((a + b).drop_last() =~= a + b.drop_last());
        assert((a + b).last() == b.last());
        match conversion(b.last()) {
            Ok(p) => {
                assert(valid_providers(a) + valid_providers(b.drop_last()).push(p)
                    =~= (valid_providers(a) + valid_providers(b.drop_last())).push(p));
            },
            Err(_) => {},
        }
    }
}

/// The valid providers of a listing depend on which definitions it holds, not on their order.
pub proof fn lemma_valid_providers_permutation(d1: Seq<RepositoryDefinition>, d2: Seq<RepositoryDefinition>)
    requires
        d1.to_multiset() == d2.to_multiset(),
    ensures
        valid_providers(d1).to_multiset() == valid_providers(d2).to_multiset(),
    decreases d1.len(),
{
    broadcast use vstd::seq_lib::group_to_multiset_ensures;

    if d1.len() == 0 {
        assert(d2.to_multiset().len() == 0);
        assert(d2 =~= d1);
    } else {
        let x = d1.last();
        assert(d1.to_multiset().count(x) > 0);
        assert(d2.contains(x));
        let k = choose|k: int| 0 <= k < d2.len() && d2[k] == x;
        let rest = d2.remove(k);
        assert(d1.drop_last() =~= d1.remove(d1.len() - 1));
        lemma_valid_providers_permutation(d1.drop_last(), rest);
        let front = d2.take(k);
        let back = d2.skip(k + 1);
        assert(rest =~= front + back);
        assert(d2 =~= (front + seq![x]) + back);
        lemma_valid_providers_append(front, back);
        lemma_valid_providers_append(front + seq![x], back);
        lemma_valid_providers_append(front, seq![x]);
        assert(seq![x].drop_last() =~= Seq::<RepositoryDefinition>::empty());
        assert(seq![x].last() == x);
        assert(valid_providers(Seq::<RepositoryDefinition>::empty()) == Seq::<ProviderView>::empty());
        vstd::seq_lib::lemma_multiset_commutative(valid_providers(front), valid_providers(back));
        vstd::seq_lib::lemma_multiset_commutative(valid_providers(front), valid_providers(seq![x]));
        vstd::seq_lib::lemma_multiset_commutative(
            valid_providers(front) + valid_providers(seq![x]),
            valid_providers(back),
        );
        match conversion(x) {
            Ok(p) => {
                assert(valid_providers(seq![x]) =~= seq![p]);
                assert(seq![p] =~= Seq::<ProviderView>::empty().push(p));
                assert(valid_providers(d2).to_multiset() =~= valid_providers(rest).to_multiset().insert(p));
            },
            Err(_) => {
                assert(valid_providers(seq![x]) =~= Seq::<ProviderView>::empty());
                assert(valid_providers(d2).to_multiset() =~= valid_providers(rest).to_multiset());
            },
        }
    }
}

/// The candidates of a search are the valid providers of its listing, each
/// once, ordered by name.
pub proof fn lemma_candidates_ordered(defs: Seq<RepositoryDefinition>)
    ensures
        sorted_by_name(candidates_of(defs)),
        candidates_of(defs).to_multiset() == valid_providers(defs).to_multiset(),
        forall|i: int, j: int| 0 <= i < j < candidates_of(defs).len()
            ==> !name_lt(#[trigger] candidates_of(defs)[j].name, #[trigger] candidates_of(defs)[i].name),
{
    lemma_sort_by_name(valid_providers(defs));
}

/// A search does not depend on the order in which the directory lists the
/// definitions: where no two valid definitions share a name, two listings
/// of the same definitions give the same candidates in the same order, and
/// so, against the same answers, the same provider or none.
pub proof fn lemma_search_independent_of_listing_order(
    d1: Seq<RepositoryDefinition>,
    d2: Seq<RepositoryDefinition>,
    answers: spec_fn(ProviderView) -> bool,
)
    requires
        d1.to_multiset() == d2.to_multiset(),
        forall|i: int, j: int| 0 <= i < j < valid_providers(d1).len()
            ==> #[trigger] valid_providers(d1)[i].name != #[trigger] valid_providers(d1)[j].name,
    ensures
        candidates_of(d1) == candidates_of(d2),
        chosen(candidates_of(d1), candidates_of(d1).map_values(answers))
            == chosen(candidates_of(d2), candidates_of(d2).map_values(answers)),
{
    broadcast use vstd::seq_lib::group_to_multiset_ensures;

    let v1 = valid_providers(d1);
    lemma_valid_providers_permutation(d1, d2);
    lemma_sort_by_name(v1);
    lemma_sort_by_name(valid_providers(d2));
    let c1 = candidates_of(d1);
    assert forall|x: ProviderView, y: ProviderView|
        c1.contains(x) && c1.contains(y) && x.name == y.name implies x == y by {
        assert(c1.to_multiset().count(x) > 0 && c1.to_multiset().count(y) > 0);
        assert(v1.contains(x) && v1.contains(y));
        let i = choose|i: int| 0 <= i < v1.len() && v1[i] == x;
        let j = choose|j: int| 0 <= j < v1.len() && v1[j] == y;
        if i < j {
            assert(v1[i].name != v1[j].name);
        } else if j < i {
            assert(v1[j].name != v1[i].name);
        }
    }
    lemma_sorted_unique(c1, candidates_of(d2));
}

} // verus!
