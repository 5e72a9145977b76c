//! The registry's laws: what holds across arbitrary operation sequences.
//!
//! `RegistryOp` and `run` give a mathematical account of any interleaving
//! of registry calls; every executable operation's `ensures` ties it to
//! the matching `step`, so these lemmas speak about the real code.

use vstd::prelude::*;
use crate::data::{DefView, ReqView};
use crate::state::{
    RegistryView, reg_wf, has_id, first_index_of, first_match_from, spec_add, spec_delete,
    spec_delete_all, spec_find, def_valid, bump,
};

verus! {

/// One registry operation, as the trace model sees it.
pub enum RegistryOp {
    AddMock(DefView),
    DeleteMock(int),
    DeleteAllMocks,
    FindFor(ReqView),
}

/// The registry after one operation.
pub open spec fn step(s: RegistryView, op: RegistryOp) -> RegistryView {
    match op {
        RegistryOp::AddMock(d) => spec_add(s, d),
        RegistryOp::DeleteMock(id) => spec_delete(s, id),
        RegistryOp::DeleteAllMocks => spec_delete_all(s),
        RegistryOp::FindFor(req) => spec_find(s, req),
    }
}

/// The registry after a sequence of operations.
pub open spec fn run(s: RegistryView, ops: Seq<RegistryOp>) -> RegistryView
    decreases ops.len(),
{
    if ops.len() == 0 {
        s
    } else {
        run(step(s, ops[0]), ops.skip(1))
    }
}

/// `first_index_of` finds the first occurrence: a hit names an index with
/// that id and none before it; a miss means no index at or after `lo` has
/// it.
pub proof fn lemma_first_index_char(ms: Seq<crate::data::MockView>, id: int, lo: int)
    requires
        0 <= lo,
    ensures
        match first_index_of(ms, id, lo) {
            Some(w) => lo <= w < ms.len() && ms[w].id == id && forall|j: int|
                lo <= j < w ==> (#[trigger] ms[j]).id != id,
            None => forall|j: int| lo <= j < ms.len() ==> (#[trigger] ms[j]).id != id,
        },
    decreases ms.len() - lo,
{
    if lo < ms.len() && ms[lo].id != id {
        lemma_first_index_char(ms, id, lo + 1);
    }
}

/// `first_match_from` finds the first matching mock, and nothing earlier
/// matches.
pub proof fn lemma_first_match_char(ms: Seq<crate::data::MockView>, req: ReqView, lo: int)
    requires
        0 <= lo,
    ensures
        match first_match_from(ms, req, lo) {
            Some(w) => lo <= w < ms.len() && crate::matching::spec_matches(
                req,
                ms[w].definition.request,
            ) && forall|j: int|
                lo <= j < w ==> !crate::matching::spec_matches(
                    req,
                    (#[trigger] ms[j]).definition.request,
                ),
            None => forall|j: int|
                lo <= j < ms.len() ==> !crate::matching::spec_matches(
                    req,
                    (#[trigger] ms[j]).definition.request,
                ),
        },
    decreases ms.len() - lo,
{
    if lo < ms.len() && !crate::matching::spec_matches(req, ms[lo].definition.request) {
        lemma_first_match_char(ms, req, lo + 1);
    }
}

/// One step keeps the registry well-formed, never lowers the id
/// generator, and introduces no id below the old generator.
pub proof fn lemma_step_wf(s: RegistryView, op: RegistryOp)
    requires
        reg_wf(s),
    ensures
        reg_wf(step(s, op)),
        step(s, op).next_id >= s.next_id,
        forall|id: int| has_id(step(s, op), id) ==> has_id(s, id) || id >= s.next_id,
{
    let t = step(s, op);
    match op {
        RegistryOp::AddMock(d) => {
            if def_valid(d.request) {
                assert forall|id: int| has_id(t, id) implies has_id(s, id) || id >= s.next_id by {
                    let w = choose|i: int|
                        0 <= i < t.mocks.len() && (#[trigger] t.mocks[i]).id == id;
                    if w < s.mocks.len() {
                        assert(s.mocks[w].id == id);
                    }
                }
            }
        },
        RegistryOp::DeleteMock(id2) => {
            lemma_first_index_char(s.mocks, id2, 0);
            match first_index_of(s.mocks, id2, 0) {
                None => {},
                Some(w) => {
                    assert forall|a: int, b: int| 0 <= a < b < t.mocks.len() implies (
                    #[trigger] t.mocks[a]).id < (#[trigger] t.mocks[b]).id by {
                        let a0 = if a < w {
                            a
                        } else {
                            a + 1
                        };
                        let b0 = if b < w {
                            b
                        } else {
                            b + 1
                        };
                        assert(t.mocks[a] == s.mocks[a0]);
                        assert(t.mocks[b] == s.mocks[b0]);
                        assert(s.mocks[a0].id < s.mocks[b0].id);
                    }
                    assert forall|a: int| 0 <= a < t.mocks.len() implies 1 <= (
                    #[trigger] t.mocks[a]).id < t.next_id by {
                        let a0 = if a < w {
                            a
                        } else {
                            a + 1
                        };
                        assert(t.mocks[a] == s.mocks[a0]);
                    }
                    assert forall|id: int| has_id(t, id) implies has_id(s, id) || id
                        >= s.next_id by {
                        let v = choose|i: int|
                            0 <= i < t.mocks.len() && (#[trigger] t.mocks[i]).id == id;
                        let v0 = if v < w {
                            v
                        } else {
                            v + 1
                        };
                        assert(t.mocks[v] == s.mocks[v0]);
                        assert(s.mocks[v0].id == id);
                    }
                },
            }
        },
        RegistryOp::DeleteAllMocks => {},
        RegistryOp::FindFor(req) => {
            lemma_first_match_char(s.mocks, req, 0);
            match first_match_from(s.mocks, req, 0) {
                None => {},
                Some(w) => {
                    assert forall|a: int| 0 <= a < t.mocks.len() implies (
                    #[trigger] t.mocks[a]).id == s.mocks[a].id by {
                        if a == w {
                            assert(t.mocks[a] == bump(s.mocks[w]));
                        }
                    }
                    assert forall|id: int| has_id(t, id) implies has_id(s, id) || id
                        >= s.next_id by {
                        let v = choose|i: int|
                            0 <= i < t.mocks.len() && (#[trigger] t.mocks[i]).id == id;
                        assert(s.mocks[v].id == id);
                    }
                },
            }
        },
    }
}

/// A run keeps the registry well-formed, never lowers the id generator,
/// and introduces no id below the starting generator.
pub proof fn lemma_run_wf(s: RegistryView, ops: Seq<RegistryOp>)
    requires
        reg_wf(s),
    ensures
        reg_wf(run(s, ops)),
        run(s, ops).next_id >= s.next_id,
        forall|id: int| has_id(run(s, ops), id) ==> has_id(s, id) || id >= s.next_id,
    decreases ops.len(),
{
    if ops.len() > 0 {
        lemma_step_wf(s, ops[0]);
        lemma_run_wf(step(s, ops[0]), ops.skip(1));
    }
}

/// Deleting all mocks twice is the same as deleting them once, and either
/// way the registry is left empty with its id generator intact.
pub proof fn lemma_delete_all_idempotent(s: RegistryView)
    ensures
        spec_delete_all(s).mocks.len() == 0,
        spec_delete_all(s).next_id == s.next_id,
        spec_delete_all(spec_delete_all(s)) == spec_delete_all(s),
{
    assert(spec_delete_all(spec_delete_all(s)) =~= spec_delete_all(s));
}

/// Ids are strictly increasing across adds: the id a successful add
/// returns (the generator's value) exceeds the id any earlier add
/// returned, whatever operations ran in between.
pub proof fn lemma_ids_strictly_increase(
    s: RegistryView,
    d1: DefView,
    ops: Seq<RegistryOp>,
    d2: DefView,
)
    requires
        def_valid(d1.request),
    ensures
        run(spec_add(s, d1), ops).next_id > s.next_id,
{
    lemma_run_next_id(spec_add(s, d1), ops);
}

/// The id generator never decreases across a run.
pub proof fn lemma_run_next_id(s: RegistryView, ops: Seq<RegistryOp>)
    ensures
        run(s, ops).next_id >= s.next_id,
    decreases ops.len(),
{
    if ops.len() > 0 {
        lemma_run_next_id(step(s, ops[0]), ops.skip(1));
    }
}

/// An id that is absent and below the generator never reappears.
pub proof fn lemma_gone_stays_gone(s: RegistryView, ops: Seq<RegistryOp>, id: int)
    requires
        reg_wf(s),
        !has_id(s, id),
        id < s.next_id,
    ensures
        !has_id(run(s, ops), id),
    decreases ops.len(),
{
    if ops.len() > 0 {
        lemma_step_wf(s, ops[0]);
        lemma_gone_stays_gone(step(s, ops[0]), ops.skip(1), id);
    }
}

/// After a delete that removed an id, no later `find_for` can select that
/// id, whatever operations ran in between.
pub proof fn lemma_no_match_after_delete(
    s: RegistryView,
    id: int,
    ops: Seq<RegistryOp>,
    req: ReqView,
)
    requires
        reg_wf(s),
        has_id(s, id),
    ensures
        !has_id(run(spec_delete(s, id), ops), id),
        first_match_from(run(spec_delete(s, id), ops).mocks, req, 0) matches Some(w) ==> run(
            spec_delete(s, id),
            ops,
        ).mocks[w].id != id,
{
    let s1 = spec_delete(s, id);
    lemma_step_wf(s, RegistryOp::DeleteMock(id));
    lemma_first_index_char(s.mocks, id, 0);
    match first_index_of(s.mocks, id, 0) {
        None => {
            let k = choose|i: int| 0 <= i < s.mocks.len() && (#[trigger] s.mocks[i]).id == id;
            assert(false);
        },
        Some(w) => {
            assert forall|a: int| 0 <= a < s1.mocks.len() implies (#[trigger] s1.mocks[a]).id
                != id by {
                let a0 = if a < w {
                    a
                } else {
                    a + 1
                };
                assert(s1.mocks[a] == s.mocks[a0]);
                if a0 > w {
                    assert(s.mocks[w].id < s.mocks[a0].id);
                }
            }
        },
    }
    let k = choose|i: int| 0 <= i < s.mocks.len() && (#[trigger] s.mocks[i]).id == id;
    assert(id < s.next_id);
    lemma_gone_stays_gone(s1, ops, id);
    let s2 = run(s1, ops);
    lemma_first_match_char(s2.mocks, req, 0);
    match first_match_from(s2.mocks, req, 0) {
        None => {},
        Some(v) => {
            if s2.mocks[v].id == id {
                assert(has_id(s2, id));
            }
        },
    }
}

/// The counter the registry holds for an id (0 when absent).
pub open spec fn counter_of(s: RegistryView, id: int) -> nat {
    if has_id(s, id) {
        s.mocks[choose|i: int|
            0 <= i < s.mocks.len() && (#[trigger] s.mocks[i]).id == id].call_counter
    } else {
        0
    }
}

/// Whether one `find_for` on this registry selects this id.
pub open spec fn find_hit(s: RegistryView, req: ReqView, id: int) -> nat {
    match first_match_from(s.mocks, req, 0) {
        Some(w) => if s.mocks[w].id == id {
            1nat
        } else {
            0nat
        },
        None => 0nat,
    }
}

/// How many `find_for` calls in a run select this id, each judged against
/// the registry as it stood at that call.
pub open spec fn hits(s: RegistryView, ops: Seq<RegistryOp>, id: int) -> nat
    decreases ops.len(),
{
    if ops.len() == 0 {
        0
    } else {
        (match ops[0] {
            RegistryOp::FindFor(req) => find_hit(s, req, id),
            _ => 0nat,
        }) + hits(step(s, ops[0]), ops.skip(1), id)
    }
}

/// In a well-formed registry the id at any index names that index's mock.
pub proof fn lemma_counter_at(s: RegistryView, id: int, k: int)
    requires
        reg_wf(s),
        0 <= k < s.mocks.len(),
        s.mocks[k].id == id,
    ensures
        has_id(s, id),
        counter_of(s, id) == s.mocks[k].call_counter,
{
    assert(has_id(s, id));
    let w = choose|i: int| 0 <= i < s.mocks.len() && (#[trigger] s.mocks[i]).id == id;
    if w < k {
        assert(s.mocks[w].id < s.mocks[k].id);
    }
    if w > k {
        assert(s.mocks[k].id < s.mocks[w].id);
    }
}

/// Counter accounting: a mock's counter equals what it was plus the
/// number of `find_for` calls that selected it, across any operation
/// sequence in which it survives to the end.
pub proof fn lemma_counter_accounting(s: RegistryView, ops: Seq<RegistryOp>, id: int)
    requires
        reg_wf(s),
    ensures
        has_id(run(s, ops), id) ==> counter_of(run(s, ops), id) == counter_of(s, id) + hits(
            s,
            ops,
            id,
        ),
    decreases ops.len(),
{
    if ops.len() > 0 {
        let op = ops[0];
        let t = step(s, op);
        lemma_step_wf(s, op);
        lemma_counter_accounting(t, ops.skip(1), id);
        if has_id(run(s, ops), id) {
            match op {
                RegistryOp::AddMock(d) => {
                    if def_valid(d.request) {
                        if has_id(s, id) {
                            let k = choose|i: int|
                                0 <= i < s.mocks.len() && (#[trigger] s.mocks[i]).id == id;
                            lemma_counter_at(s, id, k);
                            assert(t.mocks[k] == s.mocks[k]);
                            lemma_counter_at(t, id, k);
                        } else {
                            if id == s.next_id {
                                lemma_counter_at(t, id, s.mocks.len() as int);
                            } else {
                                if has_id(t, id) {
                                    let v = choose|i: int|
                                        0 <= i < t.mocks.len() && (#[trigger] t.mocks[i]).id
                                            == id;
                                    if v < s.mocks.len() {
                                        assert(s.mocks[v].id == id);
                                        assert(has_id(s, id));
                                    }
                                    assert(false);
                                }
                            }
                        }
                    }
                },
                RegistryOp::DeleteMock(id2) => {
                    lemma_first_index_char(s.mocks, id2, 0);
                    match first_index_of(s.mocks, id2, 0) {
                        None => {},
                        Some(w) => {
                            if id == id2 {
                                assert forall|a: int| 0 <= a < t.mocks.len() implies (
                                #[trigger] t.mocks[a]).id != id by {
                                    let a0 = if a < w {
                                        a
                                    } else {
                                        a + 1
                                    };
                                    assert(t.mocks[a] == s.mocks[a0]);
                                    if a0 > w {
                                        assert(s.mocks[w].id < s.mocks[a0].id);
                                    }
                                }
                                assert(!has_id(t, id));
                                assert(id < s.next_id);
                                lemma_gone_stays_gone(t, ops.skip(1), id);
                                assert(false);
                            } else {
                                if has_id(s, id) {
                                    let k = choose|i: int|
                                        0 <= i < s.mocks.len() && (#[trigger] s.mocks[i]).id
                                            == id;
                                    lemma_counter_at(s, id, k);
                                    assert(k != w);
                                    let k2 = if k < w {
                                        k
                                    } else {
                                        k - 1
                                    };
                                    assert(t.mocks[k2] == s.mocks[k]);
                                    lemma_counter_at(t, id, k2);
                                } else {
                                    if has_id(t, id) {
                                        let v = choose|i: int|
                                            0 <= i < t.mocks.len() && (#[trigger] t.mocks[i]).id
                                                == id;
                                        let v0 = if v < w {
                                            v
                                        } else {
                                            v + 1
                                        };
                                        assert(t.mocks[v] == s.mocks[v0]);
                                        assert(has_id(s, id));
                                        assert(false);
                                    }
                                }
                            }
                        },
                    }
                },
                RegistryOp::DeleteAllMocks => {
                    assert(!has_id(t, id));
                    if has_id(s, id) {
                        let k = choose|i: int|
                            0 <= i < s.mocks.len() && (#[trigger] s.mocks[i]).id == id;
                        assert(id < s.next_id);
                        lemma_gone_stays_gone(t, ops.skip(1), id);
                        assert(false);
                    }
                },
                RegistryOp::FindFor(req) => {
                    lemma_first_match_char(s.mocks, req, 0);
                    match first_match_from(s.mocks, req, 0) {
                        None => {},
                        Some(w) => {
                            if s.mocks[w].id == id {
                                lemma_counter_at(s, id, w);
                                assert(t.mocks[w] == bump(s.mocks[w]));
                                lemma_counter_at(t, id, w);
                            } else {
                                if has_id(s, id) {
                                    let k = choose|i: int|
                                        0 <= i < s.mocks.len() && (#[trigger] s.mocks[i]).id
                                            == id;
                                    lemma_counter_at(s, id, k);
                                    assert(k != w);
                                    assert(t.mocks[k] == s.mocks[k]);
                                    lemma_counter_at(t, id, k);
                                } else {
                                    if has_id(t, id) {
                                        let v = choose|i: int|
                                            0 <= i < t.mocks.len() && (#[trigger] t.mocks[i]).id
                                                == id;
                                        assert(t.mocks[v].id == s.mocks[v].id);
                                        assert(has_id(s, id));
                                        assert(false);
                                    }
                                }
                            }
                        },
                    }
                },
            }
        }
    }
}

/// Round trip: right after a successful add, the stored mock under the
/// returned id holds exactly the added definition, with its counter at 0.
pub proof fn lemma_add_then_read(s: RegistryView, d: DefView)
    requires
        reg_wf(s),
        def_valid(d.request),
    ensures
        first_index_of(spec_add(s, d).mocks, s.next_id, 0) matches Some(i) && spec_add(
            s,
            d,
        ).mocks[i].definition == d && spec_add(s, d).mocks[i].call_counter == 0,
{
    let t = spec_add(s, d);
    lemma_first_index_char(t.mocks, s.next_id, 0);
    match first_index_of(t.mocks, s.next_id, 0) {
        None => {
            assert(t.mocks[s.mocks.len() as int].id == s.next_id);
            assert(false);
        },
        Some(w) => {
            if w < s.mocks.len() {
                assert(s.mocks[w].id == s.next_id);
                assert(false);
            }
        },
    }
}

} // verus!
