//! Resolved predicates and the query protocol.
//!
//! A [`Predicate`] is a resolved reference to `module:name/arity`,
//! looked up once and reused.  A [`Query`] is one open invocation:
//! queries nest like a stack, only the innermost still-open one may be
//! advanced, and terminating a query also terminates every query opened
//! after it.

use vstd::prelude::*;

use crate::engine::find_pred;
use crate::engine::valid_atom_text;
use crate::engine::Engine;
use crate::engine::QueryRec;
use crate::engine::QueryState;
use crate::error::PrologError;
use crate::term_ref::TermRef;

verus! {

/// An error from resolving or running a query.
#[derive(Debug)]
pub enum QueryError {
    /// An error that occurred in the engine's C-level protocol.
    InternalError(PrologError),
}

impl From<PrologError> for QueryError {
    fn from(error: PrologError) -> Self {
        QueryError::InternalError(error)
    }
}

impl vstd::std_specs::convert::FromSpecImpl<PrologError> for QueryError {
    open spec fn obeys_from_spec() -> bool {
        true
    }

    open spec fn from_spec(error: PrologError) -> Self {
        QueryError::InternalError(error)
    }
}

/// A resolved reference to a callable predicate.
#[derive(Debug, Clone, Copy, PartialEq, Eq, Structural)]
pub struct Predicate {
    /// The engine's predicate reference.
    pub pred_ref: u64,
}

impl Predicate {
    /// The engine's predicate reference.
    pub open spec fn id(self) -> u64 {
        self.pred_ref
    }

    /// The reference names a live predicate-table entry.
    pub open spec fn live(self, e: Engine) -> bool {
        1 <= self.pred_ref <= e.preds@.len()
    }

    /// Resolves `module:name/arity` against the live engine, interning
    /// the two texts.  Answers the not-found error exactly when both
    /// texts are acceptable but no such predicate exists — resolution
    /// fails before any query is opened.
    pub fn new(e: &mut Engine, module: String, name: String, arity: usize) -> (r: Result<
        Predicate,
        QueryError,
    >)
        requires
            old(e).wf(),
            arity <= u32::MAX,
        ensures
            final(e).wf(),
            ({
                let f = find_pred(
                    old(e).preds@,
                    old(e).table(),
                    module@,
                    name@,
                    arity as u32,
                );
                &&& valid_atom_text(name@) && valid_atom_text(module@) && f >= 0 && old(e).atoms@.len() + 2 <= usize::MAX ==> (r matches Ok(p) && p.id() == f + 1)
                &&& valid_atom_text(name@) && valid_atom_text(module@) && f < 0 && old(e).atoms@.len() + 2 <= usize::MAX ==> r == Err::<Predicate, QueryError>(
                    QueryError::InternalError(PrologError::PredicateNotFound),
                )
                &&& !(valid_atom_text(name@) && valid_atom_text(module@)) ==> (r matches Err(
                    QueryError::InternalError(PrologError::AtomNotFound(_)),
                ))
            }),
            final(e).terms == old(e).terms,
            final(e).preds == old(e).preds,
            final(e).queries == old(e).queries,
            final(e).pending == old(e).pending,
            final(e).table().len() >= old(e).atoms@.len(),
            final(e).table().subrange(0, old(e).atoms@.len() as int) == old(e).table(),
    {
        match e.pred(name.as_str(), arity as u32, module.as_str()) {
            Ok(p) => Ok(Predicate { pred_ref: p }),
            Err(err) => Err(QueryError::InternalError(err)),
        }
    }
}

/// One open invocation of a predicate.
#[derive(Debug, Clone, Copy, PartialEq, Eq, Structural)]
pub struct Query {
    /// The engine's query identifier.
    pub qid: u64,
}

impl Query {
    /// The engine's query identifier.
    pub open spec fn id(self) -> u64 {
        self.qid
    }

    /// Opens a query for the predicate over the given argument terms.
    /// The fixed-arity calling convention carries at most fifteen
    /// arguments; anything outside `1..=15` is a programming error, not
    /// an engine outcome.  Fails exactly when the predicate reference is
    /// dead, the argument count does not match the predicate's arity, an
    /// argument is dead, or the query identifiers are exhausted.
    pub fn open(e: &mut Engine, predicate: &Predicate, args: &Vec<TermRef>) -> (r: Result<
        Query,
        PrologError,
    >)
        requires
            old(e).wf(),
            1 <= args@.len() <= 15,
        ensures
            final(e).wf(),
            ({
                let okc = predicate.live(*old(e)) && old(e).preds@[predicate.id() - 1].arity
                    == args@.len() && (forall|j: int|
                    0 <= j < args@.len() ==> (#[trigger] args@[j]).live(*old(e))) && old(e).queries@.len() < usize::MAX;
                &&& okc ==> (r matches Ok(q) && q.id() == old(e).queries@.len() + 1) && final(e).queries@ == old(e).queries@.push(
                    QueryRec {
                        state: QueryState::Open,
                        remaining: old(e).preds@[predicate.id() - 1].solutions,
                    },
                )
                &&& !okc ==> r == Err::<Query, PrologError>(PrologError::QueryOpenUnsuccessful)
                    && final(e).queries == old(e).queries
            }),
            final(e).terms == old(e).terms,
            final(e).atoms == old(e).atoms,
            final(e).preds == old(e).preds,
            final(e).pending == old(e).pending,
    {
        let n = args.len();
        let mut slots: Vec<usize> = Vec::new();
        let mut k: usize = 0;
        while k < n
            invariant
                k <= n,
                n == args@.len(),
                *e == *old(e),
                slots@.len() == k,
                forall|j: int| 0 <= j < k ==> #[trigger] slots@[j] == args@[j].id(),
            decreases n - k,
        {
            slots.push(args[k].term_ref());
            k = k + 1;
        }
        proof {
            assert forall|j: int|
                0 <= j < args@.len() implies (old(e).live(#[trigger] slots@[j]) <==> args@[j].live(
                *old(e),
            )) by {
                assert(slots@[j] == args@[j].id());
            }
            assert forall|j: int|
                0 <= j < args@.len() implies (old(e).live(slots@[j]) <==> (
                #[trigger] args@[j]).live(*old(e))) by {
                assert(slots@[j] == args@[j].id());
            }
        }
        match e.open_query(predicate.pred_ref, &slots) {
            Ok(q) => Ok(Query { qid: q }),
            Err(err) => Err(err),
        }
    }

    /// Advances the query to its next solution.  Only the innermost
    /// still-open query may be advanced; anything else is rejected as a
    /// protocol violation.  Exhaustion is reported as its own outcome and
    /// leaves the query open until it is terminated.
    pub fn next_solution(&self, e: &mut Engine) -> (r: Result<(), PrologError>)
        requires
            old(e).wf(),
        ensures
            final(e).wf(),
            !old(e).innermost_open(self.id()) ==> (r matches Err(
                PrologError::NextSolutionError(_),
            )) && final(e).queries == old(e).queries,
            old(e).innermost_open(self.id()) && old(e).queries@[self.id() - 1].remaining > 0
                ==> r == Ok::<(), PrologError>(()) && final(e).queries@ == old(e).queries@.update(
                self.id() as int - 1,
                QueryRec {
                    state: QueryState::Open,
                    remaining: (old(e).queries@[self.id() - 1].remaining - 1) as u64,
                },
            ),
            old(e).innermost_open(self.id()) && old(e).queries@[self.id() - 1].remaining == 0
                ==> r == Err::<(), PrologError>(PrologError::NoMoreSolutions) && final(e).queries
                == old(e).queries,
            final(e).terms == old(e).terms,
            final(e).atoms == old(e).atoms,
            final(e).preds == old(e).preds,
            final(e).pending == old(e).pending,
    {
        e.next_solution(self.qid)
    }

    /// Commits to the current solution and terminates the query,
    /// together with every query opened after it that is still open.
    pub fn cut(&self, e: &mut Engine) -> (r: Result<(), PrologError>)
        requires
            old(e).wf(),
        ensures
            final(e).wf(),
            ({
                let okc = 1 <= self.id() <= old(e).queries@.len() && old(e).queries@[self.id()
                    - 1].state is Open;
                &&& okc ==> r == Ok::<(), PrologError>(()) && final(e).queries@ == Seq::new(
                    old(e).queries@.len(),
                    |j: int|
                        if j >= self.id() - 1 && old(e).queries@[j].state is Open {
                            QueryRec {
                                state: QueryState::Cut,
                                remaining: old(e).queries@[j].remaining,
                            }
                        } else {
                            old(e).queries@[j]
                        },
                )
                &&& !okc ==> (r matches Err(PrologError::CutQueryError(_))) && final(e).queries
                    == old(e).queries
            }),
            final(e).terms == old(e).terms,
            final(e).atoms == old(e).atoms,
            final(e).preds == old(e).preds,
            final(e).pending == old(e).pending,
    {
        e.cut_query(self.qid)
    }

    /// Discards the current solution and terminates the query, together
    /// with every query opened after it that is still open.
    pub fn close(&self, e: &mut Engine) -> (r: Result<(), PrologError>)
        requires
            old(e).wf(),
        ensures
            final(e).wf(),
            ({
                let okc = 1 <= self.id() <= old(e).queries@.len() && old(e).queries@[self.id()
                    - 1].state is Open;
                &&& okc ==> r == Ok::<(), PrologError>(()) && final(e).queries@ == Seq::new(
                    old(e).queries@.len(),
                    |j: int|
                        if j >= self.id() - 1 && old(e).queries@[j].state is Open {
                            QueryRec {
                                state: QueryState::Closed,
                                remaining: old(e).queries@[j].remaining,
                            }
                        } else {
                            old(e).queries@[j]
                        },
                )
                &&& !okc ==> (r matches Err(PrologError::CloseQueryError(_))) && final(e).queries
                    == old(e).queries
            }),
            final(e).terms == old(e).terms,
            final(e).atoms == old(e).atoms,
            final(e).preds == old(e).preds,
            final(e).pending == old(e).pending,
    {
        e.close_query(self.qid)
    }
}

} // verus!
