//! The ledger-first protocol of a privileged action (a tool call on the
//! agent bus, a remote chat completion in the broker): nothing goes out
//! before its start entry is in the ledger, it goes out at most once, and a
//! refusal or a failed entry ends the call. The daemons run the loop: they
//! feed each outside answer in as an event and perform the action that
//! comes back.

use vstd::prelude::*;

verus! {

/// Where a privileged call stands.
#[derive(Debug, Clone, Copy, PartialEq, Eq, Structural)]
pub enum CallPhase {
    /// Not yet decided.
    Idle,
    /// Admitted; the start entry is being written. `confirm`: the call
    /// then waits for the user.
    Starting { confirm: bool },
    /// Waiting for the user, under the start entry `start_ref`.
    Parked { start_ref: i64 },
    /// Approved; the approval entry is being written.
    Confirming { start_ref: i64 },
    /// Gone out under `start_ref`.
    Running { start_ref: i64 },
    /// Refused or failed; nothing more happens.
    Closed,
}

/// What happened outside.
#[derive(Debug, Clone, Copy, PartialEq, Eq, Structural)]
pub enum CallEvent {
    /// Admission (or consent) refused the call.
    Refused,
    /// Admission (or consent) let the call through; `confirm`: it needs the
    /// user first.
    Admitted { confirm: bool },
    /// Preparing the call (credentials, the outgoing request) failed before
    /// its start entry was written.
    Aborted,
    /// The ledger's answer to the start entry: its id, or `None` when the
    /// ledger refused it.
    StartAppended(Option<i64>),
    /// The user's answer to a parked call (an expired one counts as no).
    Answered(bool),
    /// The ledger's answer to the approval entry.
    ConfirmAppended(bool),
}

/// What the daemon does next.
#[derive(Debug, Clone, Copy, PartialEq, Eq, Structural)]
pub enum CallAction {
    /// Ledger the refusal and answer with it.
    LedgerRefusal,
    /// Write the start entry.
    LedgerStart,
    /// Park the call for the user under the start entry.
    Park(i64),
    /// Write the approval entry.
    LedgerConfirm,
    /// Dispatch or send the call, under the start entry.
    Go(i64),
    /// Stop with the error at hand; nothing goes out.
    Stop,
    /// Out of order: nothing happens.
    Ignore,
}

pub open spec fn spec_call_step(p: CallPhase, e: CallEvent) -> (CallPhase, CallAction) {
    match (p, e) {
        (CallPhase::Idle, CallEvent::Refused) => (CallPhase::Closed, CallAction::LedgerRefusal),
        (CallPhase::Idle, CallEvent::Admitted { confirm }) => (
            CallPhase::Starting { confirm },
            CallAction::LedgerStart,
        ),
        (CallPhase::Starting { .. }, CallEvent::Aborted) => (CallPhase::Closed, CallAction::Stop),
        (CallPhase::Starting { confirm }, CallEvent::StartAppended(Some(id))) => if confirm {
            (CallPhase::Parked { start_ref: id }, CallAction::Park(id))
        } else {
            (CallPhase::Running { start_ref: id }, CallAction::Go(id))
        },
        (CallPhase::Starting { .. }, CallEvent::StartAppended(None)) => (
            CallPhase::Closed,
            CallAction::Stop,
        ),
        (CallPhase::Parked { start_ref }, CallEvent::Answered(true)) => (
            CallPhase::Confirming { start_ref },
            CallAction::LedgerConfirm,
        ),
        (CallPhase::Parked { .. }, CallEvent::Answered(false)) => (
            CallPhase::Closed,
            CallAction::LedgerRefusal,
        ),
        (CallPhase::Confirming { start_ref }, CallEvent::ConfirmAppended(true)) => (
            CallPhase::Running { start_ref },
            CallAction::Go(start_ref),
        ),
        (CallPhase::Confirming { .. }, CallEvent::ConfirmAppended(false)) => (
            CallPhase::Closed,
            CallAction::Stop,
        ),
        _ => (p, CallAction::Ignore),
    }
}

/// One step of the protocol: the next phase and the action to perform.
pub fn call_step(p: CallPhase, e: CallEvent) -> (r: (CallPhase, CallAction))
    ensures
        r == spec_call_step(p, e),
{
    match (p, e) {
        (CallPhase::Idle, CallEvent::Refused) => (CallPhase::Closed, CallAction::LedgerRefusal),
        (CallPhase::Idle, CallEvent::Admitted { confirm }) => (
            CallPhase::Starting { confirm },
            CallAction::LedgerStart,
        ),
        (CallPhase::Starting { .. }, CallEvent::Aborted) => (CallPhase::Closed, CallAction::Stop),
        (CallPhase::Starting { confirm }, CallEvent::StartAppended(Some(id))) => if confirm {
            (CallPhase::Parked { start_ref: id }, CallAction::Park(id))
        } else {
            (CallPhase::Running { start_ref: id }, CallAction::Go(id))
        },
        (CallPhase::Starting { .. }, CallEvent::StartAppended(None)) => (
            CallPhase::Closed,
            CallAction::Stop,
        ),
        (CallPhase::Parked { start_ref }, CallEvent::Answered(true)) => (
            CallPhase::Confirming { start_ref },
            CallAction::LedgerConfirm,
        ),
        (CallPhase::Parked { .. }, CallEvent::Answered(false)) => (
            CallPhase::Closed,
            CallAction::LedgerRefusal,
        ),
        (CallPhase::Confirming { start_ref }, CallEvent::ConfirmAppended(true)) => (
            CallPhase::Running { start_ref },
            CallAction::Go(start_ref),
        ),
        (CallPhase::Confirming { .. }, CallEvent::ConfirmAppended(false)) => (
            CallPhase::Closed,
            CallAction::Stop,
        ),
        _ => (p, CallAction::Ignore),
    }
}

/// The phase after the events `es`, from `Idle`.
pub open spec fn phase_after(es: Seq<CallEvent>) -> CallPhase
    decreases es.len(),
{
    if es.len() == 0 {
        CallPhase::Idle
    } else {
        spec_call_step(phase_after(es.drop_last()), es.last()).0
    }
}

/// The actions the events `es` call for, one per event, from `Idle`.
pub open spec fn actions(es: Seq<CallEvent>) -> Seq<CallAction>
    decreases es.len(),
{
    if es.len() == 0 {
        Seq::empty()
    } else {
        actions(es.drop_last()).push(spec_call_step(phase_after(es.drop_last()), es.last()).1)
    }
}

pub open spec fn goes(a: CallAction) -> bool {
    a is Go
}

pub open spec fn ends(a: CallAction) -> bool {
    a is Stop || a is LedgerRefusal
}

/// The start entry was written and acknowledged as `id` at event `j`,
/// after the protocol had asked for it.
pub open spec fn started_at(es: Seq<CallEvent>, j: int, id: i64) -> bool {
    &&& 0 <= j < es.len()
    &&& es[j] == CallEvent::StartAppended(Some(id))
    &&& exists|i: int| 0 <= i < j && #[trigger] actions(es)[i] == CallAction::LedgerStart
}

proof fn lemma_actions_prefix(es: Seq<CallEvent>)
    ensures
        actions(es).len() == es.len(),
        es.len() > 0 ==> actions(es.drop_last()) == actions(es).drop_last(),
    decreases es.len(),
{
    if es.len() > 0 {
        lemma_actions_prefix(es.drop_last());
        assert(actions(es).drop_last() =~= actions(es.drop_last()));
    }
}

/// What each phase owes: how the actions so far stand with it.
pub open spec fn phase_accounts(es: Seq<CallEvent>) -> bool {
    let p = phase_after(es);
    let a = actions(es);
    &&& (!(p is Running) ==> forall|k: int| 0 <= k < a.len() ==> !goes(#[trigger] a[k]))
    &&& (p is Idle ==> forall|k: int| 0 <= k < a.len() ==> #[trigger] a[k] == CallAction::Ignore)
    &&& (p is Starting ==> exists|i: int| 0 <= i < a.len() && #[trigger] a[i] == CallAction::LedgerStart)
    &&& (p matches CallPhase::Parked { start_ref } ==> exists|j: int| #[trigger] started_at(es, j, start_ref))
    &&& (p matches CallPhase::Confirming { start_ref } ==> exists|j: int| #[trigger] started_at(es, j, start_ref))
    &&& (!(p is Closed) ==> forall|k: int| 0 <= k < a.len() ==> !ends(#[trigger] a[k]))
}

proof fn lemma_started_extends(es: Seq<CallEvent>, j: int, id: i64)
    requires
        es.len() > 0,
        started_at(es.drop_last(), j, id),
    ensures
        started_at(es, j, id),
{
    lemma_actions_prefix(es);
    let i = choose|i: int| 0 <= i < j && #[trigger] actions(es.drop_last())[i] == CallAction::LedgerStart;
    assert(actions(es)[i] == actions(es.drop_last())[i]);
    assert(es[j] == es.drop_last()[j]);
}

/// The ledger-first laws, over every sequence of outside answers:
/// - a call goes out only under a start entry that the ledger acknowledged
///   after the protocol asked for it, and with that entry's id;
/// - it goes out at most once;
/// - after a refusal or a failure nothing more happens.
pub proof fn lemma_ledger_first(es: Seq<CallEvent>)
    ensures
        actions(es).len() == es.len(),
        phase_accounts(es),
        forall|k: int|
            0 <= k < es.len() ==> (#[trigger] actions(es)[k] matches CallAction::Go(id) ==> exists|j: int|
                j <= k && #[trigger] started_at(es, j, id)),
        forall|k1: int, k2: int|
            0 <= k1 < k2 < es.len() && goes(#[trigger] actions(es)[k1]) ==> !goes(
                #[trigger] actions(es)[k2],
            ),
        forall|k1: int, k2: int|
            0 <= k1 < k2 < es.len() && ends(#[trigger] actions(es)[k1]) ==> #[trigger] actions(es)[k2]
                == CallAction::Ignore,
    decreases es.len(),
{
    lemma_actions_prefix(es);
    if es.len() > 0 {
        let front = es.drop_last();
        let n = front.len() as int;
        lemma_ledger_first(front);
        let p = phase_after(front);
        let a = actions(front);
        let e = es.last();
        let (q, act) = spec_call_step(p, e);
        assert(actions(es) == a.push(act));
        assert(phase_after(es) == q);
        assert forall|k: int| 0 <= k < n implies #[trigger] actions(es)[k] == a[k] by {}
        // Started entries of the prefix stay started.
        assert forall|j: int, id: i64| started_at(front, j, id) implies #[trigger] started_at(es, j, id) by {
            lemma_started_extends(es, j, id);
        }
        if let CallEvent::StartAppended(Some(id)) = e {
            if p is Starting {
                let i = choose|i: int| 0 <= i < a.len() && #[trigger] a[i] == CallAction::LedgerStart;
                assert(actions(es)[i] == CallAction::LedgerStart);
                assert(started_at(es, n, id));
            }
        }
        // The new action.
        assert forall|k: int| 0 <= k < es.len() implies (#[trigger] actions(es)[k] matches CallAction::Go(id)
            ==> exists|j: int| j <= k && #[trigger] started_at(es, j, id)) by {
            if k < n {
                if let CallAction::Go(id) = a[k] {
                    let j = choose|j: int| j <= k && #[trigger] started_at(front, j, id);
                    assert(started_at(es, j, id));
                }
            } else if let CallAction::Go(id) = act {
                if p is Starting {
                    assert(started_at(es, n, id));
                } else {
                    assert(p is Confirming);
                    let j = choose|j: int| #[trigger] started_at(front, j, id);
                    assert(started_at(es, j, id));
                    assert(j < n);
                }
            }
        }
        assert forall|k1: int, k2: int|
            0 <= k1 < k2 < es.len() && goes(#[trigger] actions(es)[k1]) implies !goes(
                #[trigger] actions(es)[k2],
            ) by {
            if k2 == n {
                assert(goes(a[k1]));
                assert(p is Running);
            }
        }
        assert forall|k1: int, k2: int|
            0 <= k1 < k2 < es.len() && ends(#[trigger] actions(es)[k1]) implies #[trigger] actions(es)[k2]
                == CallAction::Ignore by {
            if k2 == n {
                assert(ends(a[k1]));
                assert(p is Closed);
            }
        }
        // The phase keeps its accounts.
        if q is Starting {
            if p is Idle {
                assert(actions(es)[n] == CallAction::LedgerStart);
            } else {
                let i = choose|i: int| 0 <= i < a.len() && #[trigger] a[i] == CallAction::LedgerStart;
                assert(actions(es)[i] == CallAction::LedgerStart);
            }
        }
        if let CallPhase::Parked { start_ref } = q {
            if p is Starting {
                assert(started_at(es, n, start_ref));
            } else {
                let j = choose|j: int| #[trigger] started_at(front, j, start_ref);
                assert(started_at(es, j, start_ref));
            }
        }
        if let CallPhase::Confirming { start_ref } = q {
            let j = choose|j: int| #[trigger] started_at(front, j, start_ref);
            assert(started_at(es, j, start_ref));
        }
        assert(phase_accounts(es));
    }
}

// ---- undo ------------------------------------------------------------

/// What the newest active journal entry calls for (see `plan_undo`).
#[derive(Debug, Clone, Copy, PartialEq, Eq, Structural)]
pub enum UndoKind {
    /// No active entry.
    Nothing,
    /// The action declared no compensation.
    Skip,
    /// Its compensation is to be dispatched.
    Dispatch,
}

/// Where an undo stands.
#[derive(Debug, Clone, Copy, PartialEq, Eq, Structural)]
pub enum UndoPhase {
    Planning,
    /// The skip entry is being written.
    Skipping,
    /// The undo's start entry is being written.
    Starting,
    /// The compensation is out under `start_ref`.
    Dispatching { start_ref: i64 },
    /// The completion entry is being written; `ok`: the compensation ran.
    Completing { ok: bool },
    Done,
}

/// What happened outside during an undo.
#[derive(Debug, Clone, Copy, PartialEq, Eq, Structural)]
pub enum UndoEvent {
    Planned(UndoKind),
    /// The ledger's answer to the entry being written.
    Appended(Option<i64>),
    /// The dispatcher's answer: whether the compensation ran.
    Dispatched(bool),
}

/// What the daemon does next during an undo.
#[derive(Debug, Clone, Copy, PartialEq, Eq, Structural)]
pub enum UndoAction {
    /// Answer with the report; the journal is left as it is.
    Report,
    /// Write the `skipped` entry.
    LedgerSkip,
    /// Mark the journal entry skipped, then report.
    MarkSkipped,
    /// Write the undo's start entry.
    LedgerStart,
    /// Dispatch the compensation under the start entry.
    Dispatch(i64),
    /// Write the completion entry, referring to the start entry.
    LedgerComplete(i64),
    /// Mark the journal entry undone (it leaves the active stack), then
    /// report.
    MarkUndone,
    /// Stop with the ledger's error.
    Stop,
    Ignore,
}

pub open spec fn spec_undo_step(p: UndoPhase, e: UndoEvent) -> (UndoPhase, UndoAction) {
    match (p, e) {
        (UndoPhase::Planning, UndoEvent::Planned(UndoKind::Nothing)) => (UndoPhase::Done, UndoAction::Report),
        (UndoPhase::Planning, UndoEvent::Planned(UndoKind::Skip)) => (UndoPhase::Skipping, UndoAction::LedgerSkip),
        (UndoPhase::Planning, UndoEvent::Planned(UndoKind::Dispatch)) => (
            UndoPhase::Starting,
            UndoAction::LedgerStart,
        ),
        (UndoPhase::Skipping, UndoEvent::Appended(Some(_))) => (UndoPhase::Done, UndoAction::MarkSkipped),
        (UndoPhase::Starting, UndoEvent::Appended(Some(id))) => (
            UndoPhase::Dispatching { start_ref: id },
            UndoAction::Dispatch(id),
        ),
        (UndoPhase::Dispatching { start_ref }, UndoEvent::Dispatched(ok)) => (
            UndoPhase::Completing { ok },
            UndoAction::LedgerComplete(start_ref),
        ),
        (UndoPhase::Completing { ok }, UndoEvent::Appended(Some(_))) => (
            UndoPhase::Done,
            if ok {
                UndoAction::MarkUndone
            } else {
                UndoAction::Report
            },
        ),
        (UndoPhase::Skipping, UndoEvent::Appended(None)) => (UndoPhase::Done, UndoAction::Stop),
        (UndoPhase::Starting, UndoEvent::Appended(None)) => (UndoPhase::Done, UndoAction::Stop),
        (UndoPhase::Completing { .. }, UndoEvent::Appended(None)) => (UndoPhase::Done, UndoAction::Stop),
        _ => (p, UndoAction::Ignore),
    }
}

/// One step of an undo: the next phase and the action to perform.
pub fn undo_step(p: UndoPhase, e: UndoEvent) -> (r: (UndoPhase, UndoAction))
    ensures
        r == spec_undo_step(p, e),
{
    match (p, e) {
        (UndoPhase::Planning, UndoEvent::Planned(UndoKind::Nothing)) => (UndoPhase::Done, UndoAction::Report),
        (UndoPhase::Planning, UndoEvent::Planned(UndoKind::Skip)) => (UndoPhase::Skipping, UndoAction::LedgerSkip),
        (UndoPhase::Planning, UndoEvent::Planned(UndoKind::Dispatch)) => (
            UndoPhase::Starting,
            UndoAction::LedgerStart,
        ),
        (UndoPhase::Skipping, UndoEvent::Appended(Some(_))) => (UndoPhase::Done, UndoAction::MarkSkipped),
        (UndoPhase::Starting, UndoEvent::Appended(Some(id))) => (
            UndoPhase::Dispatching { start_ref: id },
            UndoAction::Dispatch(id),
        ),
        (UndoPhase::Dispatching { start_ref }, UndoEvent::Dispatched(ok)) => (
            UndoPhase::Completing { ok },
            UndoAction::LedgerComplete(start_ref),
        ),
        (UndoPhase::Completing { ok }, UndoEvent::Appended(Some(_))) => (
            UndoPhase::Done,
            if ok {
                UndoAction::MarkUndone
            } else {
                UndoAction::Report
            },
        ),
        (UndoPhase::Skipping, UndoEvent::Appended(None)) => (UndoPhase::Done, UndoAction::Stop),
        (UndoPhase::Starting, UndoEvent::Appended(None)) => (UndoPhase::Done, UndoAction::Stop),
        (UndoPhase::Completing { .. }, UndoEvent::Appended(None)) => (UndoPhase::Done, UndoAction::Stop),
        _ => (p, UndoAction::Ignore),
    }
}

pub open spec fn undo_phase_after(es: Seq<UndoEvent>) -> UndoPhase
    decreases es.len(),
{
    if es.len() == 0 {
        UndoPhase::Planning
    } else {
        spec_undo_step(undo_phase_after(es.drop_last()), es.last()).0
    }
}

pub open spec fn undo_actions(es: Seq<UndoEvent>) -> Seq<UndoAction>
    decreases es.len(),
{
    if es.len() == 0 {
        Seq::empty()
    } else {
        undo_actions(es.drop_last()).push(spec_undo_step(undo_phase_after(es.drop_last()), es.last()).1)
    }
}

/// The completion entry written at step `j` reports the dispatcher's
/// answer `ok`.
pub open spec fn completed_at(es: Seq<UndoEvent>, j: int, ok: bool) -> bool {
    &&& 0 <= j < es.len()
    &&& undo_actions(es)[j] is LedgerComplete
    &&& es[j] == UndoEvent::Dispatched(ok)
}

/// What each undo phase owes.
pub open spec fn undo_accounts(es: Seq<UndoEvent>) -> bool {
    let p = undo_phase_after(es);
    let a = undo_actions(es);
    &&& (p is Planning || p is Skipping || p is Starting) ==> forall|k: int|
        0 <= k < a.len() ==> !(#[trigger] a[k] is Dispatch)
    &&& (p is Planning || p is Skipping || p is Starting || p is Dispatching) ==> forall|k: int|
        0 <= k < a.len() ==> !(#[trigger] a[k] is LedgerComplete)
    &&& !(p is Done) ==> forall|k: int| 0 <= k < a.len() ==> #[trigger] a[k] != UndoAction::MarkUndone
    &&& p is Starting ==> exists|i: int| 0 <= i < a.len() && #[trigger] a[i] == UndoAction::LedgerStart
    &&& p matches UndoPhase::Completing { ok } ==> forall|j: int|
        0 <= j < a.len() && (#[trigger] a[j] is LedgerComplete) ==> es[j] == UndoEvent::Dispatched(ok)
    &&& p matches UndoPhase::Completing { ok } ==> exists|j: int| #[trigger] completed_at(es, j, ok)
    &&& p is Dispatching ==> exists|k: int| 0 <= k < a.len() && #[trigger] a[k] is Dispatch
}

proof fn lemma_undo_actions_len(es: Seq<UndoEvent>)
    ensures
        undo_actions(es).len() == es.len(),
    decreases es.len(),
{
    if es.len() > 0 {
        lemma_undo_actions_len(es.drop_last());
    }
}

/// The undo laws, over every sequence of outside answers:
/// - the compensation is dispatched only under an acknowledged start
///   entry, and at most once;
/// - the journal entry is marked undone only after the compensation ran;
/// - when the compensation failed it is never marked undone: the entry
///   stays on the active stack, and the next undo retries it.
pub proof fn lemma_undo_laws(es: Seq<UndoEvent>)
    ensures
        undo_actions(es).len() == es.len(),
        undo_accounts(es),
        forall|k: int|
            0 <= k < es.len() ==> (#[trigger] undo_actions(es)[k] matches UndoAction::Dispatch(id) ==> es[k]
                == UndoEvent::Appended(Some(id)) && exists|i: int|
                0 <= i < k && #[trigger] undo_actions(es)[i] == UndoAction::LedgerStart),
        forall|k1: int, k2: int|
            0 <= k1 < k2 < es.len() && (#[trigger] undo_actions(es)[k1] is Dispatch) ==> !(
            #[trigger] undo_actions(es)[k2] is Dispatch),
        forall|k: int|
            0 <= k < es.len() && #[trigger] undo_actions(es)[k] == UndoAction::MarkUndone ==> exists|j: int|
                j < k && #[trigger] completed_at(es, j, true),
        forall|j: int, k: int|
            #[trigger] completed_at(es, j, false) && 0 <= k < es.len() ==> #[trigger] undo_actions(es)[k]
                != UndoAction::MarkUndone,
    decreases es.len(),
{
    lemma_undo_actions_len(es);
    if es.len() > 0 {
        let front = es.drop_last();
        let n = front.len() as int;
        lemma_undo_laws(front);
        let p = undo_phase_after(front);
        let a = undo_actions(front);
        let e = es.last();
        let (q, act) = spec_undo_step(p, e);
        let b = undo_actions(es);
        assert(b == a.push(act));
        assert(undo_phase_after(es) == q);
        assert forall|k: int| 0 <= k < n implies #[trigger] b[k] == a[k] && es[k] == front[k] by {}
        assert forall|j: int, ok: bool| completed_at(front, j, ok) implies #[trigger] completed_at(es, j, ok) by {
            assert(b[j] == a[j]);
        }
        assert forall|j: int, ok: bool| #[trigger] completed_at(es, j, ok) && j < n implies completed_at(front, j, ok) by {
            assert(b[j] == a[j]);
        }
        assert forall|k: int| 0 <= k < es.len() implies (#[trigger] b[k] matches UndoAction::Dispatch(id) ==> es[k]
            == UndoEvent::Appended(Some(id)) && exists|i: int| 0 <= i < k && #[trigger] b[i] == UndoAction::LedgerStart) by {
            if k < n {
                if let UndoAction::Dispatch(id) = a[k] {
                    let i = choose|i: int| 0 <= i < k && #[trigger] a[i] == UndoAction::LedgerStart;
                    assert(b[i] == UndoAction::LedgerStart);
                }
            } else if act is Dispatch {
                let i = choose|i: int| 0 <= i < a.len() && #[trigger] a[i] == UndoAction::LedgerStart;
                assert(b[i] == UndoAction::LedgerStart);
            }
        }
        assert forall|k1: int, k2: int|
            0 <= k1 < k2 < es.len() && (#[trigger] b[k1] is Dispatch) implies !(#[trigger] b[k2] is Dispatch) by {
            if k2 == n {
                assert(a[k1] is Dispatch);
            }
        }
        assert forall|k: int| 0 <= k < es.len() && #[trigger] b[k] == UndoAction::MarkUndone implies exists|j: int|
            j < k && #[trigger] completed_at(es, j, true) by {
            if k < n {
                let j = choose|j: int| j < k && #[trigger] completed_at(front, j, true);
                assert(completed_at(es, j, true));
            } else {
                let j = choose|j: int| #[trigger] completed_at(front, j, true);
                assert(completed_at(es, j, true));
                assert(j < n);
            }
        }
        assert forall|j: int, k: int| #[trigger] completed_at(es, j, false) && 0 <= k < es.len() implies #[trigger] b[k]
            != UndoAction::MarkUndone by {
            if j < n {
                assert(completed_at(front, j, false));
                if k == n && act == UndoAction::MarkUndone {
                    assert(a[j] is LedgerComplete);
                }
            } else {
                assert(p is Dispatching);
            }
        }
        if let UndoPhase::Completing { ok } = q {
            if p is Dispatching {
                assert(completed_at(es, n, ok));
                assert forall|j: int| 0 <= j < b.len() && (#[trigger] b[j] is LedgerComplete) implies es[j]
                    == UndoEvent::Dispatched(ok) by {}
            } else {
                let j = choose|j: int| #[trigger] completed_at(front, j, ok);
                assert(completed_at(es, j, ok));
                assert forall|j: int| 0 <= j < b.len() && (#[trigger] b[j] is LedgerComplete) implies es[j]
                    == UndoEvent::Dispatched(ok) by {
                    if j < n {
                        assert(a[j] is LedgerComplete);
                    }
                }
            }
        }
        if q is Starting {
            if p is Planning {
                assert(b[n] == UndoAction::LedgerStart);
            } else {
                let i = choose|i: int| 0 <= i < a.len() && #[trigger] a[i] == UndoAction::LedgerStart;
                assert(b[i] == UndoAction::LedgerStart);
            }
        }
        if q is Dispatching {
            if p is Starting {
                assert(b[n] is Dispatch);
            } else {
                let k = choose|k: int| 0 <= k < a.len() && #[trigger] a[k] is Dispatch;
                assert(b[k] is Dispatch);
            }
        }
        assert(undo_accounts(es));
    }
}

} // verus!
