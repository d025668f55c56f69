use lisa::protocol::{
    call_step, undo_step, CallAction, CallEvent, CallPhase, UndoAction, UndoEvent, UndoKind, UndoPhase,
};

fn run(events: &[CallEvent]) -> Vec<CallAction> {
    let mut phase = CallPhase::Idle;
    let mut out = Vec::new();
    for e in events {
        let (next, action) = call_step(phase, *e);
        phase = next;
        out.push(action);
    }
    out
}

#[test]
fn a_read_call_goes_out_under_its_start_entry() {
    let acts = run(&[CallEvent::Admitted { confirm: false }, CallEvent::StartAppended(Some(7))]);
    assert_eq!(acts, vec![CallAction::LedgerStart, CallAction::Go(7)]);
}

#[test]
fn a_refused_start_entry_stops_the_call() {
    let acts = run(&[
        CallEvent::Admitted { confirm: false },
        CallEvent::StartAppended(None),
        CallEvent::StartAppended(Some(3)),
    ]);
    assert_eq!(acts, vec![CallAction::LedgerStart, CallAction::Stop, CallAction::Ignore]);
}

#[test]
fn a_confirmed_call_waits_then_goes_once() {
    let acts = run(&[
        CallEvent::Admitted { confirm: true },
        CallEvent::StartAppended(Some(11)),
        CallEvent::Answered(true),
        CallEvent::ConfirmAppended(true),
        CallEvent::Answered(true),
        CallEvent::ConfirmAppended(true),
    ]);
    assert_eq!(
        acts,
        vec![
            CallAction::LedgerStart,
            CallAction::Park(11),
            CallAction::LedgerConfirm,
            CallAction::Go(11),
            CallAction::Ignore,
            CallAction::Ignore,
        ]
    );
}

#[test]
fn refusals_are_ledgered_and_nothing_follows() {
    assert_eq!(run(&[CallEvent::Refused, CallEvent::Admitted { confirm: false }]), vec![
        CallAction::LedgerRefusal,
        CallAction::Ignore
    ]);
    let acts = run(&[CallEvent::Admitted { confirm: true }, CallEvent::StartAppended(Some(2)), CallEvent::Answered(false)]);
    assert_eq!(acts, vec![CallAction::LedgerStart, CallAction::Park(2), CallAction::LedgerRefusal]);
    assert_eq!(run(&[CallEvent::StartAppended(Some(1))]), vec![CallAction::Ignore]);
    assert_eq!(run(&[CallEvent::Admitted { confirm: false }, CallEvent::Aborted]), vec![
        CallAction::LedgerStart,
        CallAction::Stop
    ]);
}

fn run_undo(events: &[UndoEvent]) -> Vec<UndoAction> {
    let mut phase = UndoPhase::Planning;
    let mut out = Vec::new();
    for e in events {
        let (next, action) = undo_step(phase, *e);
        phase = next;
        out.push(action);
    }
    out
}

#[test]
fn a_compensation_that_ran_takes_the_entry_off_the_stack() {
    let acts = run_undo(&[
        UndoEvent::Planned(UndoKind::Dispatch),
        UndoEvent::Appended(Some(5)),
        UndoEvent::Dispatched(true),
        UndoEvent::Appended(Some(6)),
    ]);
    assert_eq!(acts, vec![
        UndoAction::LedgerStart,
        UndoAction::Dispatch(5),
        UndoAction::LedgerComplete(5),
        UndoAction::MarkUndone
    ]);
}

#[test]
fn a_failed_compensation_leaves_the_entry_for_a_retry() {
    let acts = run_undo(&[
        UndoEvent::Planned(UndoKind::Dispatch),
        UndoEvent::Appended(Some(5)),
        UndoEvent::Dispatched(false),
        UndoEvent::Appended(Some(6)),
        UndoEvent::Dispatched(true),
    ]);
    assert_eq!(acts, vec![
        UndoAction::LedgerStart,
        UndoAction::Dispatch(5),
        UndoAction::LedgerComplete(5),
        UndoAction::Report,
        UndoAction::Ignore
    ]);
    assert!(!acts.contains(&UndoAction::MarkUndone));
}

#[test]
fn skips_and_empty_journals() {
    assert_eq!(run_undo(&[UndoEvent::Planned(UndoKind::Nothing)]), vec![UndoAction::Report]);
    assert_eq!(run_undo(&[UndoEvent::Planned(UndoKind::Skip), UndoEvent::Appended(Some(1))]), vec![
        UndoAction::LedgerSkip,
        UndoAction::MarkSkipped
    ]);
    assert_eq!(run_undo(&[UndoEvent::Planned(UndoKind::Dispatch), UndoEvent::Appended(None), UndoEvent::Dispatched(true)]), vec![
        UndoAction::LedgerStart,
        UndoAction::Stop,
        UndoAction::Ignore
    ]);
}
