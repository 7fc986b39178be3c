use listeners::error::BackendError;
use listeners::negotiation::{
    replay, Action, Negotiation, QueryResponse, ERROR_INSUFFICIENT_BUFFER, NO_ERROR, RETRY_CEILING,
};

fn insufficient(required_size: u32) -> QueryResponse {
    QueryResponse { code: ERROR_INSUFFICIENT_BUFFER, required_size }
}

fn success(required_size: u32) -> QueryResponse {
    QueryResponse { code: NO_ERROR, required_size }
}

#[test]
fn retry_ceiling_is_one_hundred() {
    assert_eq!(RETRY_CEILING, 100);
}

#[test]
fn negotiation_starts_with_an_empty_buffer() {
    let state = Negotiation::start();
    assert_eq!(state, Negotiation { retries: 0, capacity: 0 });
}

#[test]
fn insufficient_buffer_asks_for_the_reported_size() {
    let mut state = Negotiation::start();
    let action = state.advance(insufficient(480));
    assert_eq!(action, Action::Query { capacity: 480 });
    assert_eq!(state, Negotiation { retries: 1, capacity: 480 });
}

#[test]
fn success_ends_with_the_last_capacity() {
    let mut state = Negotiation::start();
    assert_eq!(state.advance(insufficient(480)), Action::Query { capacity: 480 });
    assert_eq!(state.advance(success(480)), Action::Done { capacity: 480 });
    assert_eq!(state, Negotiation { retries: 1, capacity: 480 });
}

#[test]
fn other_code_is_a_query_failure() {
    let mut state = Negotiation::start();
    let action = state.advance(QueryResponse { code: 87, required_size: 0 });
    assert_eq!(action, Action::Fail(BackendError::QueryFailed));
}

#[test]
fn insufficient_buffer_at_the_ceiling_exhausts_the_negotiation() {
    let mut state = Negotiation { retries: 100, capacity: 64 };
    assert_eq!(state.advance(insufficient(72)), Action::Fail(BackendError::AllocationExhausted));
    assert_eq!(state, Negotiation { retries: 100, capacity: 64 });
    let mut state = Negotiation { retries: 99, capacity: 64 };
    assert_eq!(state.advance(insufficient(72)), Action::Query { capacity: 72 });
    assert_eq!(state, Negotiation { retries: 100, capacity: 72 });
}

#[test]
fn success_at_the_ceiling_still_ends_with_the_table() {
    let mut state = Negotiation { retries: 100, capacity: 64 };
    assert_eq!(state.advance(success(64)), Action::Done { capacity: 64 });
    let mut state = Negotiation { retries: 100, capacity: 64 };
    assert_eq!(
        state.advance(QueryResponse { code: 87, required_size: 64 }),
        Action::Fail(BackendError::QueryFailed)
    );
}

#[test]
fn replay_of_no_response_waits_for_the_first_query() {
    assert_eq!(replay(&vec![]), Action::Query { capacity: 0 });
}

#[test]
fn replay_succeeds_at_once_on_an_immediate_success() {
    assert_eq!(replay(&vec![success(0)]), Action::Done { capacity: 0 });
}

#[test]
fn replay_converges_when_the_table_grows_twice() {
    let responses = vec![insufficient(100), insufficient(150), success(150), insufficient(999)];
    assert_eq!(replay(&responses), Action::Done { capacity: 150 });
}

#[test]
fn replay_reports_a_failed_query() {
    let responses = vec![insufficient(100), QueryResponse { code: 5, required_size: 100 }];
    assert_eq!(replay(&responses), Action::Fail(BackendError::QueryFailed));
}

#[test]
fn growing_table_exhausts_the_negotiation() {
    let mut responses = Vec::new();
    for i in 0..200u32 {
        responses.push(insufficient(100 + i));
    }
    assert_eq!(replay(&responses), Action::Fail(BackendError::AllocationExhausted));
}

#[test]
fn negotiation_is_exhausted_at_the_answer_to_the_last_retry() {
    let mut responses = Vec::new();
    for i in 0..100u32 {
        responses.push(insufficient(100 + i));
    }
    assert_eq!(replay(&responses), Action::Query { capacity: 199 });
    responses.push(insufficient(200));
    assert_eq!(replay(&responses), Action::Fail(BackendError::AllocationExhausted));
    responses.push(success(200));
    assert_eq!(replay(&responses), Action::Fail(BackendError::AllocationExhausted));
}

#[test]
fn negotiation_converges_at_the_last_retry_within_the_ceiling() {
    let mut responses = Vec::new();
    for i in 0..100u32 {
        responses.push(insufficient(100 + i));
    }
    responses.push(success(199));
    assert_eq!(replay(&responses), Action::Done { capacity: 199 });
}

#[test]
fn negotiation_never_makes_more_queries_than_the_ceiling_allows() {
    let mut state = Negotiation::start();
    let mut queries = 1;
    let mut size = 10;
    loop {
        match state.advance(insufficient(size)) {
            Action::Query { capacity } => {
                assert_eq!(capacity, size);
                queries += 1;
                size += 7;
            }
            Action::Fail(e) => {
                assert_eq!(e, BackendError::AllocationExhausted);
                break;
            }
            Action::Done { .. } => panic!("no response reported success"),
        }
        assert!(queries <= 1 + RETRY_CEILING);
    }
    assert_eq!(queries, 1 + RETRY_CEILING);
}
