//! Buffer negotiation with a table query whose required size is not known in
//! advance and can change between two calls.
//!
//! The query itself is made by the caller. This module decides, from each
//! response, what to do next: query again with a larger buffer, stop with the
//! table, or fail. After the first query at most `RETRY_CEILING` retries are
//! made.

use vstd::prelude::*;
use crate::error::BackendError;

verus! {

/// How many retries a negotiation may make after its first query.
pub const RETRY_CEILING: u32 = 100;

/// Response code of a query that filled the buffer.
pub const NO_ERROR: u32 = 0;

/// Response code of a query whose buffer was too small.
pub const ERROR_INSUFFICIENT_BUFFER: u32 = 122;

/// What a table query answered: its response code, and the size in bytes that
/// it reported as required.
#[derive(Clone, Copy, Debug, PartialEq, Eq, Structural)]
pub struct QueryResponse {
    pub code: u32,
    pub required_size: u32,
}

/// What to do after a response.
#[derive(Clone, Copy, Debug, PartialEq, Eq, Structural)]
pub enum Action {
    /// Query again, with a buffer of exactly this many bytes.
    Query { capacity: u32 },
    /// The last query succeeded: the table is what it wrote into its buffer,
    /// which had this capacity.
    Done { capacity: u32 },
    /// The negotiation failed.
    Fail(BackendError),
}

/// The state of one negotiation: how many retries were made after the first
/// query, and the capacity of the buffer handed to the last query.
#[derive(Clone, Copy, Debug, PartialEq, Eq, Structural)]
pub struct Negotiation {
    pub retries: u32,
    pub capacity: u32,
}

/// The state and action that follow the response `r` in state `s`.
///
/// An insufficient buffer leads to one more query, with the size that the
/// response asked for, as long as fewer than `RETRY_CEILING` retries have been
/// made; at the ceiling it fails the negotiation. Success ends it with the
/// table, and any other code fails the query.
pub open spec fn spec_advance(s: Negotiation, r: QueryResponse) -> (Negotiation, Action) {
    if r.code == ERROR_INSUFFICIENT_BUFFER {
        if s.retries >= RETRY_CEILING {
            (s, Action::Fail(BackendError::AllocationExhausted))
        } else {
            (
                Negotiation { retries: (s.retries + 1) as u32, capacity: r.required_size },
                Action::Query { capacity: r.required_size },
            )
        }
    } else if r.code == NO_ERROR {
        (s, Action::Done { capacity: s.capacity })
    } else {
        (s, Action::Fail(BackendError::QueryFailed))
    }
}

impl Negotiation {
    /// The state in which the first query is made: no retry yet, and a buffer
    /// of capacity zero, which only asks for the required size.
    pub fn start() -> (r: Self)
        ensures
            r == (Negotiation { retries: 0, capacity: 0 }),
    {
        Negotiation { retries: 0, capacity: 0 }
    }

    /// Takes the response to the last query and says what to do next.
    pub fn advance(&mut self, response: QueryResponse) -> (action: Action)
        ensures
            (*final(self), action) == spec_advance(*old(self), response),
    {
        if response.code == ERROR_INSUFFICIENT_BUFFER {
            if self.retries >= RETRY_CEILING {
                Action::Fail(BackendError::AllocationExhausted)
            } else {
                self.retries = self.retries + 1;
                self.capacity = response.required_size;
                Action::Query { capacity: response.required_size }
            }
        } else if response.code == NO_ERROR {
            Action::Done { capacity: self.capacity }
        } else {
            Action::Fail(BackendError::QueryFailed)
        }
    }
}

/// Where a negotiation stands after the responses `responses`, taken in order
/// from the state `s`: `Done` or `Fail` as soon as one response settles it,
/// and otherwise `Query` with the capacity of the query that is still to be
/// answered. Responses after the one that settles it are not read.
pub open spec fn spec_run(s: Negotiation, responses: Seq<QueryResponse>) -> Action
    decreases responses.len(),
{
    if responses.len() == 0 {
        Action::Query { capacity: s.capacity }
    } else {
        let (next, action) = spec_advance(s, responses[0]);
        match action {
            Action::Query { .. } => spec_run(next, responses.drop_first()),
            _ => action,
        }
    }
}

/// Whether an action ends a negotiation.
pub open spec fn is_final(action: Action) -> bool {
    !(action is Query)
}

/// Runs a whole negotiation against responses that are known in advance, the
/// first of them the answer to the query with no buffer. The result is `Query`
/// where the responses run out before the negotiation has ended.
pub fn replay(responses: &Vec<QueryResponse>) -> (action: Action)
    ensures
        action == spec_run(Negotiation { retries: 0, capacity: 0 }, responses@),
{
    let mut state = Negotiation::start();
    let mut i: usize = 0;
    assert(responses@.skip(0) =~= responses@);
    while i < responses.len()
        invariant
            i <= responses.len(),
            spec_run(Negotiation { retries: 0, capacity: 0 }, responses@) == spec_run(
                state,
                responses@.skip(i as int),
            ),
        decreases responses.len() - i,
    {
        let action = state.advance(responses[i]);
        proof {
            let rest = responses@.skip(i as int);
            assert(rest[0] == responses@[i as int]);
            assert(rest.drop_first() =~= responses@.skip(i + 1));
        }
        match action {
            Action::Query { .. } => {},
            _ => {
                return action;
            },
        }
        i = i + 1;
    }
    Action::Query { capacity: state.capacity }
}

/// A negotiation that has made `s.retries` retries ends within the responses
/// that the ceiling still allows, whatever they say.
pub proof fn lemma_run_ends(s: Negotiation, responses: Seq<QueryResponse>)
    requires
        responses.len() >= 1,
        s.retries + responses.len() >= RETRY_CEILING + 1,
    ensures
        is_final(spec_run(s, responses)),
    decreases responses.len(),
{
    let (next, action) = spec_advance(s, responses[0]);
    if action is Query {
        lemma_run_ends(next, responses.drop_first());
    }
}

/// A negotiation never hangs: with the answers to its first query and to
/// `RETRY_CEILING` retries it has ended, with the table or with an error,
/// however the required size moves between the queries. So it makes at most
/// `RETRY_CEILING + 1` queries.
pub proof fn lemma_negotiation_terminates(responses: Seq<QueryResponse>)
    requires
        responses.len() >= RETRY_CEILING + 1,
    ensures
        is_final(spec_run(Negotiation { retries: 0, capacity: 0 }, responses)),
{
    lemma_run_ends(Negotiation { retries: 0, capacity: 0 }, responses);
}

/// While every response reports an insufficient buffer, the negotiation goes
/// on with the size last asked for, and fails with `AllocationExhausted` at
/// the response to the last retry that the ceiling allows.
pub proof fn lemma_run_insufficient(s: Negotiation, responses: Seq<QueryResponse>)
    requires
        forall|i: int|
            0 <= i < responses.len() ==> (#[trigger] responses[i]).code
                == ERROR_INSUFFICIENT_BUFFER,
    ensures
        responses.len() >= 1 && s.retries + responses.len() >= RETRY_CEILING + 1 ==> spec_run(
            s,
            responses,
        ) == Action::Fail(BackendError::AllocationExhausted),
        responses.len() == 0 || s.retries + responses.len() <= RETRY_CEILING ==> spec_run(
            s,
            responses,
        ) == (Action::Query {
            capacity: if responses.len() == 0 {
                s.capacity
            } else {
                responses.last().required_size
            },
        }),
    decreases responses.len(),
{
    if responses.len() > 0 && s.retries < RETRY_CEILING {
        let (next, action) = spec_advance(s, responses[0]);
        let rest = responses.drop_first();
        assert forall|i: int| 0 <= i < rest.len() implies (#[trigger] rest[i]).code
            == ERROR_INSUFFICIENT_BUFFER by {
            assert(rest[i] == responses[i + 1]);
        }
        lemma_run_insufficient(next, rest);
        if rest.len() > 0 {
            assert(rest.last() == responses.last());
        }
    }
}

/// A table whose required size keeps growing makes the negotiation fail with
/// `AllocationExhausted`: it does not go on for ever.
pub proof fn lemma_growing_table_exhausts(responses: Seq<QueryResponse>)
    requires
        responses.len() >= RETRY_CEILING + 1,
        forall|i: int|
            0 <= i < responses.len() ==> (#[trigger] responses[i]).code
                == ERROR_INSUFFICIENT_BUFFER,
    ensures
        spec_run(Negotiation { retries: 0, capacity: 0 }, responses) == Action::Fail(
            BackendError::AllocationExhausted,
        ),
{
    lemma_run_insufficient(Negotiation { retries: 0, capacity: 0 }, responses);
}

/// The first response that is not "insufficient buffer" settles a negotiation
/// if it comes within the ceiling: success gives the table in the buffer that
/// the response before it asked for, any other code fails the query.
pub proof fn lemma_negotiation_converges(responses: Seq<QueryResponse>, k: int)
    requires
        0 <= k < responses.len(),
        k <= RETRY_CEILING,
        responses[k].code != ERROR_INSUFFICIENT_BUFFER,
        forall|i: int| 0 <= i < k ==> (#[trigger] responses[i]).code == ERROR_INSUFFICIENT_BUFFER,
    ensures
        spec_run(Negotiation { retries: 0, capacity: 0 }, responses) == (if responses[k].code
            == NO_ERROR {
            Action::Done { capacity: if k == 0 { 0 } else { responses[k - 1].required_size } }
        } else {
            Action::Fail(BackendError::QueryFailed)
        }),
{
    lemma_run_converges(Negotiation { retries: 0, capacity: 0 }, responses, k);
}

proof fn lemma_run_converges(s: Negotiation, responses: Seq<QueryResponse>, k: int)
    requires
        0 <= k < responses.len(),
        s.retries + k <= RETRY_CEILING,
        responses[k].code != ERROR_INSUFFICIENT_BUFFER,
        forall|i: int| 0 <= i < k ==> (#[trigger] responses[i]).code == ERROR_INSUFFICIENT_BUFFER,
    ensures
        spec_run(s, responses) == (if responses[k].code == NO_ERROR {
            Action::Done {
                capacity: if k == 0 {
                    s.capacity
                } else {
                    responses[k - 1].required_size
                },
            }
        } else {
            Action::Fail(BackendError::QueryFailed)
        }),
    decreases k,
{
    if k > 0 {
        let (next, action) = spec_advance(s, responses[0]);
        let rest = responses.drop_first();
        assert(rest[k - 1] == responses[k]);
        assert forall|i: int| 0 <= i < k - 1 implies (#[trigger] rest[i]).code
            == ERROR_INSUFFICIENT_BUFFER by {
            assert(rest[i] == responses[i + 1]);
        }
        lemma_run_converges(next, rest, k - 1);
        if k - 1 > 0 {
            assert(rest[k - 2] == responses[k - 1]);
        }
    }
}

} // verus!
