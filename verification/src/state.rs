//! The mock registry: the single shared, mutable mapping from id to active
//! mock, with append, lookup, delete, delete-all and the find path that
//! selects the lowest-id matching mock (bumping its counter) or assembles a
//! scored rejection.

use vstd::prelude::*;
use crate::data::{
    ActiveMock, HttpMockRequest, MockDefinition, MockView, DefView, ReqView, ReqsView,
    RequestRequirements,
};
use crate::matchers::{Mismatch, regex_valid, regex_matches};
use crate::matching::{
    spec_matches, request_matches, mismatches_for, score_of_mismatches, mm_models, all_entries,
    total_score, all_best,
};

verus! {

/// Mathematical view of the registry: the id generator and the stored
/// mocks in ascending id order.
#[verifier::ext_equal]
pub struct RegistryView {
    pub next_id: int,
    pub mocks: Seq<MockView>,
}

/// Well-formedness: ids are strictly increasing, start at 1, and
/// every stored id is below the generator.
pub open spec fn reg_wf(s: RegistryView) -> bool {
    &&& s.next_id >= 1
    &&& forall|i: int, j: int|
        0 <= i < j < s.mocks.len() ==> (#[trigger] s.mocks[i]).id < (#[trigger] s.mocks[j]).id
    &&& forall|i: int| 0 <= i < s.mocks.len() ==> 1 <= (#[trigger] s.mocks[i]).id < s.next_id
}

/// Some stored mock has this id.
pub open spec fn has_id(s: RegistryView, id: int) -> bool {
    exists|i: int| 0 <= i < s.mocks.len() && (#[trigger] s.mocks[i]).id == id
}

/// The least index at or after `i` whose mock has this id.
pub open spec fn first_index_of(ms: Seq<MockView>, id: int, i: int) -> Option<int>
    decreases ms.len() - i,
{
    if i < 0 || i >= ms.len() {
        None
    } else if ms[i].id == id {
        Some(i)
    } else {
        first_index_of(ms, id, i + 1)
    }
}

/// The least index at or after `i` whose mock the request matches.
pub open spec fn first_match_from(ms: Seq<MockView>, req: ReqView, i: int) -> Option<int>
    decreases ms.len() - i,
{
    if i < 0 || i >= ms.len() {
        None
    } else if spec_matches(req, ms[i].definition.request) {
        Some(i)
    } else {
        first_match_from(ms, req, i + 1)
    }
}

/// A definition is valid when every regex facet holds only valid patterns.
pub open spec fn def_valid(rr: ReqsView) -> bool {
    &&& (rr.path_matches matches Some(ps) ==> forall|i: int|
        0 <= i < ps.len() ==> regex_valid(#[trigger] ps[i]))
    &&& (rr.body_matches matches Some(ps) ==> forall|i: int|
        0 <= i < ps.len() ==> regex_valid(#[trigger] ps[i]))
}

/// The mock with its counter bumped by one.
pub open spec fn bump(m: MockView) -> MockView {
    MockView { id: m.id, call_counter: m.call_counter + 1, definition: m.definition }
}

// ------------------------------------------------------------------
// Transitions
// ------------------------------------------------------------------

/// What `add_new_mock` does: append a fresh mock under the next id, or
/// leave the registry unchanged when the definition is invalid.
pub open spec fn spec_add(s: RegistryView, d: DefView) -> RegistryView {
    if def_valid(d.request) {
        RegistryView {
            next_id: s.next_id + 1,
            mocks: s.mocks.push(MockView { id: s.next_id, call_counter: 0, definition: d }),
        }
    } else {
        s
    }
}

/// What `delete_one` does: remove the mock with this id, if present.
pub open spec fn spec_delete(s: RegistryView, id: int) -> RegistryView {
    match first_index_of(s.mocks, id, 0) {
        None => s,
        Some(i) => RegistryView { next_id: s.next_id, mocks: s.mocks.remove(i) },
    }
}

/// What `delete_all` does: clear the mapping; the id generator is not
/// reset.
pub open spec fn spec_delete_all(s: RegistryView) -> RegistryView {
    RegistryView { next_id: s.next_id, mocks: Seq::empty() }
}

/// What `find_for` does to the registry: bump the first matching mock's
/// counter; a miss changes nothing.
pub open spec fn spec_find(s: RegistryView, req: ReqView) -> RegistryView {
    match first_match_from(s.mocks, req, 0) {
        None => s,
        Some(i) => RegistryView { next_id: s.next_id, mocks: s.mocks.update(i, bump(s.mocks[i])) },
    }
}

// ------------------------------------------------------------------
// The registry itself
// ------------------------------------------------------------------

/// The registry's shared state.
#[derive(Debug)]
pub struct MockServerState {
    pub mocks: Vec<ActiveMock>,
    pub next_id: usize,
}

impl View for MockServerState {
    type V = RegistryView;

    open spec fn view(&self) -> RegistryView {
        RegistryView {
            next_id: self.next_id as int,
            mocks: self.mocks@.map_values(|m: ActiveMock| m@),
        }
    }
}

/// Why no mock was served: the closest mock's failing facets, and a
/// condensed (id, total score) summary of every candidate.
#[derive(Debug)]
pub struct Rejection {
    pub best_match_id: Option<usize>,
    pub mismatches: Vec<Mismatch>,
    pub scores: Vec<(usize, u128)>,
}

/// The index the engine reports as closest: minimal total score, earliest
/// (lowest id) on ties.
pub open spec fn is_best_index(s: RegistryView, req: ReqView, bi: int) -> bool {
    &&& 0 <= bi < s.mocks.len()
    &&& forall|j: int|
        0 <= j < s.mocks.len() ==> total_score(req, s.mocks[bi].definition.request) <= total_score(
            req,
            (#[trigger] s.mocks[j]).definition.request,
        )
    &&& forall|j: int|
        0 <= j < bi ==> total_score(req, (#[trigger] s.mocks[j]).definition.request) > total_score(
            req,
            s.mocks[bi].definition.request,
        )
}

/// What a well-formed rejection holds: nothing for an empty registry; else
/// the closest mock's id, its mismatches flagged `best_match`, and one
/// (id, total score) summary per candidate.
pub open spec fn rejection_ok(rej: Rejection, s: RegistryView, req: ReqView) -> bool {
    &&& if s.mocks.len() == 0 {
        rej.best_match_id is None && rej.mismatches@.len() == 0 && rej.scores@.len() == 0
    } else {
        exists|bi: int|
            {
                &&& #[trigger] is_best_index(s, req, bi)
                &&& rej.best_match_id == Some(s.mocks[bi].id as usize)
                &&& mm_models(rej.mismatches@) == all_entries(req, s.mocks[bi].definition.request)
                &&& all_best(rej.mismatches@, true)
            }
    }
    &&& rej.scores@.len() == s.mocks.len()
    &&& forall|i: int|
        0 <= i < s.mocks.len() ==> ((#[trigger] rej.scores@[i]).0 as int == s.mocks[i].id
            && rej.scores@[i].1 as nat == total_score(req, s.mocks[i].definition.request))
}

/// Every pattern of a regex facet list compiles.
fn all_regex_valid(pats: &Vec<String>) -> (r: bool)
    ensures
        r == forall|i: int| 0 <= i < pats.deep_view().len() ==> regex_valid(
            #[trigger] pats.deep_view()[i],
        ),
{
    let ghost pv = pats.deep_view();
    let mut i: usize = 0;
    while i < pats.len()
        invariant
            0 <= i <= pats.len(),
            pv == pats.deep_view(),
            pv.len() == pats@.len(),
            forall|j: int| 0 <= j < i ==> regex_valid(#[trigger] pv[j]),
        decreases pats.len() - i,
    {
        proof {
            assert(pv[i as int] == pats@[i as int]@);
        }
        match regex_matches(pats[i].as_str(), "") {
            None => {
                return false;
            },
            Some(_) => {},
        }
        i = i + 1;
    }
    true
}

/// Whether every regex facet of a definition holds only valid patterns.
pub fn check_def_valid(rr: &RequestRequirements) -> (r: bool)
    ensures
        r == def_valid(rr@),
{
    match &rr.path_matches {
        Some(ps) => {
            proof {
                assert(rr@.path_matches == Some(ps.deep_view()));
            }
            if !all_regex_valid(ps) {
                proof {
                    let pv = ps.deep_view();
                    assert(!(forall|i: int| 0 <= i < pv.len() ==> regex_valid(#[trigger] pv[i])));
                    assert(rr@.path_matches matches Some(p2) && p2 == pv);
                    assert(!def_valid(rr@));
                }
                return false;
            }
            proof {
                let pv = ps.deep_view();
                assert(forall|i: int| 0 <= i < pv.len() ==> regex_valid(#[trigger] pv[i]));
            }
        },
        None => {},
    }
    match &rr.body_matches {
        Some(ps) => {
            proof {
                assert(rr@.body_matches == Some(ps.deep_view()));
            }
            if !all_regex_valid(ps) {
                proof {
                    let pv = ps.deep_view();
                    assert(!(forall|i: int| 0 <= i < pv.len() ==> regex_valid(#[trigger] pv[i])));
                    assert(rr@.body_matches matches Some(p2) && p2 == pv);
                    assert(!def_valid(rr@));
                }
                return false;
            }
            proof {
                let pv = ps.deep_view();
                assert(forall|i: int| 0 <= i < pv.len() ==> regex_valid(#[trigger] pv[i]));
            }
        },
        None => {},
    }
    true
}


impl MockServerState {
    /// A fresh registry: no mocks, ids start at 1.
    pub fn new() -> (r: MockServerState)
        ensures
            r@.next_id == 1,
            r@.mocks.len() == 0,
            reg_wf(r@),
    {
        let r = MockServerState { mocks: Vec::new(), next_id: 1 };
        proof {
            assert(r@.mocks =~= Seq::<MockView>::empty());
        }
        r
    }

    /// Stores a definition under the next id and returns that id; a
    /// definition with an invalid regex is rejected and nothing is stored.
    pub fn add_new_mock(&mut self, mock: MockDefinition) -> (r: Result<usize, String>)
        requires
            reg_wf(old(self)@),
            old(self)@.next_id < usize::MAX,
        ensures
            reg_wf(final(self)@),
            final(self)@ == spec_add(old(self)@, mock@),
            r matches Ok(id) ==> def_valid(mock@.request) && id as int == old(self)@.next_id,
            r is Err <==> !def_valid(mock@.request),
    {
        if !check_def_valid(&mock.request) {
            proof {
                assert(self@ =~= spec_add(old(self)@, mock@));
            }
            return Err("invalid regex pattern in mock definition".to_owned());
        }
        let id = self.next_id;
        self.next_id = self.next_id + 1;
        let ghost oldmocks = self@.mocks;
        self.mocks.push(ActiveMock { id, call_counter: 0, definition: mock });
        proof {
            assert(self@.mocks =~= oldmocks.push(
                MockView { id: id as int, call_counter: 0, definition: mock@ },
            ));
            assert(self@ =~= spec_add(old(self)@, mock@));
            assert forall|i: int, j: int| 0 <= i < j < self@.mocks.len() implies (
            #[trigger] self@.mocks[i]).id < (#[trigger] self@.mocks[j]).id by {
                if j < self@.mocks.len() - 1 {
                    assert(old(self)@.mocks[i].id < old(self)@.mocks[j].id);
                }
            }
        }
        Ok(id)
    }

    /// A snapshot of the mock with this id, counter included.
    pub fn read_one(&self, mock_id: usize) -> (r: Option<ActiveMock>)
        ensures
            match first_index_of(self@.mocks, mock_id as int, 0) {
                None => r is None,
                Some(i) => r matches Some(m) && m@ == self@.mocks[i],
            },
            r is Some <==> has_id(self@, mock_id as int),
    {
        let ghost msv = self@.mocks;
        let mut i: usize = 0;
        while i < self.mocks.len()
            invariant
                0 <= i <= self.mocks.len(),
                msv == self@.mocks,
                msv.len() == self.mocks@.len(),
                first_index_of(msv, mock_id as int, 0) == first_index_of(msv, mock_id as int, i as int),
            decreases self.mocks.len() - i,
        {
            proof {
                assert(msv[i as int] == self.mocks@[i as int]@);
            }
            if self.mocks[i].id == mock_id {
                proof {
                    assert(msv[i as int].id == mock_id as int);
                    assert(has_id(self@, mock_id as int));
                }
                return Some(self.mocks[i].duplicate());
            }
            assert(first_index_of(msv, mock_id as int, i as int) == first_index_of(
                msv,
                mock_id as int,
                i + 1,
            ));
            i = i + 1;
        }
        assert(first_index_of(msv, mock_id as int, i as int) is None);
        proof {
            crate::laws::lemma_first_index_char(msv, mock_id as int, 0);
        }
        None
    }

    /// Removes the mock with this id; reports whether one was removed.
    pub fn delete_one(&mut self, mock_id: usize) -> (r: bool)
        requires
            reg_wf(old(self)@),
        ensures
            reg_wf(final(self)@),
            final(self)@ == spec_delete(old(self)@, mock_id as int),
            r == has_id(old(self)@, mock_id as int),
            !has_id(final(self)@, mock_id as int),
    {
        let ghost msv = self@.mocks;
        let mut i: usize = 0;
        while i < self.mocks.len()
            invariant
                0 <= i <= self.mocks.len(),
                self@ == old(self)@,
                reg_wf(old(self)@),
                msv == self@.mocks,
                msv.len() == self.mocks@.len(),
                first_index_of(msv, mock_id as int, 0) == first_index_of(msv, mock_id as int, i as int),
                forall|j: int| 0 <= j < i ==> (#[trigger] msv[j]).id != mock_id as int,
            decreases self.mocks.len() - i,
        {
            proof {
                assert(msv[i as int] == self.mocks@[i as int]@);
            }
            if self.mocks[i].id == mock_id {
                proof {
                    assert(first_index_of(msv, mock_id as int, i as int) == Some(i as int));
                }
                self.mocks.remove(i);
                proof {
                    assert(self@.mocks =~= msv.remove(i as int));
                    assert(self@ =~= spec_delete(old(self)@, mock_id as int));
                    assert forall|a: int, b: int| 0 <= a < b < self@.mocks.len() implies (
                    #[trigger] self@.mocks[a]).id < (#[trigger] self@.mocks[b]).id by {
                        let a0 = if a < i as int { a } else { a + 1 };
                        let b0 = if b < i as int { b } else { b + 1 };
                        assert(self@.mocks[a] == msv[a0]);
                        assert(self@.mocks[b] == msv[b0]);
                        assert(msv[a0].id < msv[b0].id);
                    }
                    assert forall|a: int| 0 <= a < self@.mocks.len() implies !((
                    #[trigger] self@.mocks[a]).id == mock_id as int) by {
                        let a0 = if a < i as int { a } else { a + 1 };
                        assert(self@.mocks[a] == msv[a0]);
                        if a0 > i as int {
                            assert(msv[i as int].id < msv[a0].id);
                        }
                    }
                }
                return true;
            }
            assert(first_index_of(msv, mock_id as int, i as int) == first_index_of(
                msv,
                mock_id as int,
                i + 1,
            ));
            i = i + 1;
        }
        assert(first_index_of(msv, mock_id as int, i as int) is None);
        proof {
            assert(self@ =~= spec_delete(old(self)@, mock_id as int));
        }
        false
    }

    /// Routes a request: serves the
    /// lowest-id mock whose every set facet matches, bumping exactly its
    /// counter by one; with no match, returns a rejection naming the
    /// minimum-total-score mock (ties to the lowest id), its mismatches
    /// flagged as the best match, and a per-candidate score summary. The
    /// registry changes only by the winner's counter bump.
    #[verifier::rlimit(60)]
    pub fn find_for(&mut self, req: &HttpMockRequest) -> (r: Result<ActiveMock, Rejection>)
        requires
            reg_wf(old(self)@),
            forall|i: int|
                0 <= i < old(self)@.mocks.len() ==> (#[trigger] old(self)@.mocks[i]).call_counter
                    < usize::MAX,
        ensures
            reg_wf(final(self)@),
            final(self)@ == spec_find(old(self)@, req@),
            match first_match_from(old(self)@.mocks, req@, 0) {
                Some(i) => r matches Ok(m) && m@ == bump(old(self)@.mocks[i]),
                None => r matches Err(rej) && rejection_ok(rej, old(self)@, req@) && (old(
                    self,
                )@.mocks.len() > 0 ==> rej.mismatches@.len() > 0),
            },
    {
        let ghost msv = self@.mocks;
        let mut i: usize = 0;
        while i < self.mocks.len()
            invariant
                0 <= i <= self.mocks.len(),
                self@ == old(self)@,
                reg_wf(old(self)@),
                forall|k: int|
                    0 <= k < old(self)@.mocks.len() ==> (
                    #[trigger] old(self)@.mocks[k]).call_counter < usize::MAX,
                msv == self@.mocks,
                msv.len() == self.mocks@.len(),
                first_match_from(msv, req@, 0) == first_match_from(msv, req@, i as int),
            decreases self.mocks.len() - i,
        {
            proof {
                assert(msv[i as int] == self.mocks@[i as int]@);
            }
            if request_matches(req, &self.mocks[i].definition.request) {
                proof {
                    assert(first_match_from(msv, req@, i as int) == Some(i as int));
                }
                let cur = &self.mocks[i];
                let bumped = ActiveMock {
                    id: cur.id,
                    call_counter: cur.call_counter + 1,
                    definition: cur.definition.duplicate(),
                };
                proof {
                    assert(bumped@ == bump(msv[i as int]));
                }
                let snapshot = bumped.duplicate();
                self.mocks[i] = bumped;
                proof {
                    assert(self@.mocks =~= msv.update(i as int, bump(msv[i as int])));
                    assert(self@ =~= spec_find(old(self)@, req@));
                    assert forall|a: int, b: int| 0 <= a < b < self@.mocks.len() implies (
                    #[trigger] self@.mocks[a]).id < (#[trigger] self@.mocks[b]).id by {
                        assert(msv[a].id < msv[b].id);
                    }
                }
                return Ok(snapshot);
            }
            assert(first_match_from(msv, req@, i as int) == first_match_from(msv, req@, i + 1));
            i = i + 1;
        }
        assert(first_match_from(msv, req@, i as int) is None);

        // No mock matched: score every candidate and name the closest.
        let mut scores: Vec<(usize, u128)> = Vec::new();
        let mut best_i: usize = 0;
        let mut best_score: u128 = 0;
        let mut have: bool = false;
        let mut j: usize = 0;
        while j < self.mocks.len()
            invariant
                0 <= j <= self.mocks.len(),
                self@ == old(self)@,
                msv == self@.mocks,
                msv.len() == self.mocks@.len(),
                scores@.len() == j,
                forall|k: int|
                    0 <= k < j ==> ((#[trigger] scores@[k]).0 as int == msv[k].id
                        && scores@[k].1 as nat == total_score(req@, msv[k].definition.request)),
                have == (j > 0),
                have ==> 0 <= best_i < j,
                have ==> best_score as nat == total_score(req@, msv[best_i as int].definition.request),
                forall|k: int|
                    0 <= k < j ==> total_score(req@, msv[best_i as int].definition.request)
                        <= total_score(req@, (#[trigger] msv[k]).definition.request),
                forall|k: int|
                    0 <= k < best_i ==> total_score(req@, (#[trigger] msv[k]).definition.request)
                        > total_score(req@, msv[best_i as int].definition.request),
            decreases self.mocks.len() - j,
        {
            proof {
                assert(msv[j as int] == self.mocks@[j as int]@);
            }
            let ms = mismatches_for(req, &self.mocks[j].definition.request, false);
            let sc = score_of_mismatches(&ms);
            scores.push((self.mocks[j].id, sc));
            if !have || sc < best_score {
                best_i = j;
                best_score = sc;
                have = true;
            }
            j = j + 1;
        }
        if !have {
            let rej = Rejection {
                best_match_id: None,
                mismatches: Vec::new(),
                scores,
            };
            proof {
                assert(self@ =~= spec_find(old(self)@, req@));
            }
            return Err(rej);
        }
        let best_ms = mismatches_for(req, &self.mocks[best_i].definition.request, true);
        proof {
            assert(msv[best_i as int] == self.mocks@[best_i as int]@);
            crate::laws::lemma_first_match_char(msv, req@, 0);
            crate::matching::lemma_matches_iff_no_mismatches(
                req@,
                msv[best_i as int].definition.request,
            );
            assert(best_ms@.len() > 0);
        }
        let rej = Rejection {
            best_match_id: Some(self.mocks[best_i].id),
            mismatches: best_ms,
            scores,
        };
        proof {
            assert(self@ =~= spec_find(old(self)@, req@));
            assert(is_best_index(old(self)@, req@, best_i as int));
            assert(rejection_ok(rej, old(self)@, req@));
        }
        Err(rej)
    }

    /// Clears the registry; the id generator keeps its value, so ids stay
    /// monotonic across the process lifetime.
    pub fn delete_all(&mut self)
        requires
            reg_wf(old(self)@),
        ensures
            reg_wf(final(self)@),
            final(self)@ == spec_delete_all(old(self)@),
            final(self)@.mocks.len() == 0,
    {
        self.mocks.clear();
        proof {
            assert(self@.mocks =~= Seq::<MockView>::empty());
            assert(self@ =~= spec_delete_all(old(self)@));
        }
    }
}

} // verus!
