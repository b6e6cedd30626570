use expense_bot::polling::{after_update, classify, initial_state, not_text_reply, Incoming, NextStep, PollState, MAX_ATTEMPTS};

#[test]
fn a_handled_update_moves_the_offset_past_it() {
    let (state, step) = after_update(initial_state(), 41, true);
    assert_eq!(state, PollState { offset: Some(42), attempts: 0 });
    assert_eq!(step, NextStep::Continue);
}

#[test]
fn a_failing_update_is_replayed_then_skipped() {
    let mut state = PollState { offset: Some(10), attempts: 0 };
    for attempt in 1..MAX_ATTEMPTS {
        let (next, step) = after_update(state, 10, false);
        assert_eq!(step, NextStep::WaitAndReplay);
        assert_eq!(next, PollState { offset: Some(10), attempts: attempt });
        state = next;
    }
    let (next, step) = after_update(state, 10, false);
    assert_eq!(step, NextStep::Skip);
    assert_eq!(next, PollState { offset: Some(11), attempts: 0 });
    assert_eq!(MAX_ATTEMPTS, 3);
}

#[test]
fn a_success_after_a_failure_resets_the_count() {
    let (state, _) = after_update(initial_state(), 7, false);
    assert_eq!(state, PollState { offset: None, attempts: 1 });
    let (state, step) = after_update(state, 7, true);
    assert_eq!(state, PollState { offset: Some(8), attempts: 0 });
    assert_eq!(step, NextStep::Continue);
    let (state, _) = after_update(state, u32::MAX, true);
    assert_eq!(state.offset, Some(4_294_967_296));
}

#[test]
fn only_the_allowed_user_is_answered() {
    assert_eq!(classify(false, Some(5), true, 5), Incoming::Ignore);
    assert_eq!(classify(true, None, true, 5), Incoming::Ignore);
    assert_eq!(classify(true, Some(6), true, 5), Incoming::Stranger);
    assert_eq!(classify(true, Some(5), false, 5), Incoming::NotText);
    assert_eq!(classify(true, Some(5), true, 5), Incoming::Text);
    assert_eq!(classify(true, Some(u64::MAX), true, -1), Incoming::Stranger);
    assert_eq!(classify(true, Some(1 << 63), true, i64::MIN), Incoming::Stranger);
    assert_eq!(not_text_reply(), "Solo entiendo mensajes de texto.");
}
