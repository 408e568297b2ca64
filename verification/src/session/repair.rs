//! Opening a session on a device that an earlier program left with one.
//!
//! A program that stops without a `CloseSession` leaves a session open on the device. The device then
//! answers `OpenSession` with "session already open". The host closes the old session, clears the
//! endpoints, and opens a new one, so a user does not need to pull the cable.

use vstd::prelude::*;

use crate::ptp::bytes;
use crate::ptp::op;
use crate::ptp::resp;
use crate::session::drain::Drain;
use crate::session::error::SessionError;
use crate::session::exchange::{Exchange, ExchangeView};
use crate::session::outcome::{Outcome, SessionOpen};
use crate::session::state::{Session, SessionView};

verus! {

/// Which answer the host waits for.
#[derive(Debug, Clone, Copy, PartialEq, Eq)]
pub enum Repair {
    /// The answer to the first `OpenSession`.
    Opening { id: u32 },
    /// The answer to the `CloseSession` of the repair.
    Closing { id: u32 },
    /// The end of the drain behind it.
    Recovering { id: u32, close_response: Option<u16> },
    /// The answer to the second `OpenSession`.
    Reopening { close_response: Option<u16>, dropped: u64 },
}

/// What the host has to do next.
#[derive(Debug)]
pub enum RepairStep {
    /// Do this operation, and report its answer.
    Exchange(Repair, Exchange),
    /// Clear both endpoints, do this drain, and report the count of dropped bytes.
    Recover(Repair, Drain),
    /// Nothing: the session is open, or cannot be opened.
    Over(Result<SessionOpen, SessionError>),
}

/// The session after the answer to an `OpenSession`.
pub open spec fn opened(s: SessionView, r: Result<Outcome, SessionError>) -> SessionView {
    match r {
        Ok(o) => s.after_open(o.response_code),
        Err(_) => s,
    }
}

/// The session after the answer to a `CloseSession`.
pub open spec fn closed(s: SessionView, r: Result<Outcome, SessionError>) -> SessionView {
    match r {
        Ok(o) => s.after_close(o.response_code),
        Err(_) => s,
    }
}

/// The code that an operation answered, where it answered.
pub open spec fn response_code(r: Result<Outcome, SessionError>) -> Option<u16> {
    match r {
        Ok(o) => Some(o.response_code),
        Err(_) => None,
    }
}

/// What a [`RepairStep`] holds.
pub enum StepView {
    Exchange(Repair, ExchangeView),
    Recover(Repair, Drain),
    Over(Result<SessionOpen, SessionError>),
}

impl View for RepairStep {
    type V = StepView;

    open spec fn view(&self) -> StepView {
        match *self {
            RepairStep::Exchange(next, x) => StepView::Exchange(next, x@),
            RepairStep::Recover(next, d) => StepView::Recover(next, d),
            RepairStep::Over(r) => StepView::Over(r),
        }
    }
}

/// An `OpenSession` at its start.
pub open spec fn opening(s: SessionView, id: u32) -> ExchangeView {
    s.started("OpenSession", op::OPEN_SESSION, seq![id], None, None, true)
}

/// A `CloseSession` at its start.
pub open spec fn closing(s: SessionView) -> ExchangeView {
    s.started("CloseSession", op::CLOSE_SESSION, Seq::empty(), None, None, true)
}

/// The drain of a session at its start.
pub open spec fn draining(s: SessionView) -> Drain {
    Drain {
        capacity: s.config.read_buffer,
        dropped: 0,
        left: crate::session::answer::MAX_READ_ROUNDS,
        over: false,
    }
}

/// The session and the next step after the answer of an operation.
pub open spec fn after_answer(
    stage: Repair,
    s: SessionView,
    r: Result<Outcome, SessionError>,
) -> (SessionView, StepView) {
    match stage {
        Repair::Opening { id } => match r {
            Err(e) => (s, StepView::Over(Err(e))),
            Ok(o) => if o.response_code == resp::SESSION_ALREADY_OPEN {
                let t = opened(s, r);
                (t.taken(), StepView::Exchange(Repair::Closing { id }, closing(t)))
            } else {
                (
                    opened(s, r),
                    StepView::Over(
                        Ok(
                            SessionOpen {
                                outcome: o,
                                repaired: false,
                                close_response: None,
                                dropped: 0,
                                wedged: false,
                            },
                        ),
                    ),
                )
            },
        },
        Repair::Closing { id } => (
            closed(s, r),
            StepView::Recover(
                Repair::Recovering { id, close_response: response_code(r) },
                draining(s),
            ),
        ),
        Repair::Reopening { close_response, dropped } => (
            opened(s, r),
            StepView::Over(
                match r {
                    Err(e) => Err(e),
                    Ok(o) => Ok(
                        SessionOpen {
                            outcome: o,
                            repaired: true,
                            close_response,
                            dropped,
                            wedged: o.response_code == resp::SESSION_ALREADY_OPEN,
                        },
                    ),
                },
            ),
        ),
        Repair::Recovering { .. } => (s, StepView::Recover(stage, draining(s))),
    }
}

/// The session and the next step after the drain, which dropped this count of bytes.
pub open spec fn after_recovery(stage: Repair, s: SessionView, dropped: u64) -> (
    SessionView,
    StepView,
) {
    (
        s.taken(),
        StepView::Exchange(
            Repair::Reopening { close_response: stage->Recovering_close_response, dropped },
            opening(s, stage->Recovering_id),
        ),
    )
}

impl Session {
    /// Opens a session, and repairs the state an earlier session left.
    ///
    /// The outcome records what had to be done. The caller chooses the words.
    pub fn open_session_or_repair(&mut self, id: u32) -> (r: RepairStep)
        requires
            old(self)@.config.wf(),
        ensures
            r@ == StepView::Exchange(Repair::Opening { id }, opening(old(self)@, id)),
            r->Exchange_1@.wf(),
            final(self)@ == old(self)@.taken(),
    {
        let x = self.open_session(id);
        RepairStep::Exchange(Repair::Opening { id }, x)
    }
}

impl Repair {
    /// Takes in the answer of an operation.
    pub fn answered(self, session: &mut Session, r: Result<Outcome, SessionError>) -> (step: RepairStep)
        requires
            old(session)@.config.wf(),
            !(self is Recovering),
        ensures
            (final(session)@, step@) == after_answer(self, old(session)@, r),
            step is Exchange ==> step->Exchange_1@.wf(),
    {
        match self {
            Repair::Opening { id } => match r {
                Err(e) => RepairStep::Over(Err(e)),
                Ok(o) => {
                    session.opened(&o);
                    if o.response_code != resp::SESSION_ALREADY_OPEN {
                        return RepairStep::Over(
                            Ok(
                                SessionOpen {
                                    outcome: o,
                                    repaired: false,
                                    close_response: None,
                                    dropped: 0,
                                    wedged: false,
                                },
                            ),
                        );
                    }
                    let x = session.close_session();
                    RepairStep::Exchange(Repair::Closing { id }, x)
                },
            },
            Repair::Closing { id } => {
                let close_response: Option<u16> = match r {
                    Ok(o) => {
                        session.closed(&o);
                        Some(o.response_code)
                    },
                    Err(_) => None,
                };
                // The close can leave bytes on the way. Clear the endpoints before the next command,
                // or the next command meets a busy device.
                let d = session.recover();
                RepairStep::Recover(Repair::Recovering { id, close_response }, d)
            },
            Repair::Reopening { close_response, dropped } => match r {
                Err(e) => RepairStep::Over(Err(e)),
                Ok(o) => {
                    session.opened(&o);
                    let wedged: bool = o.response_code == resp::SESSION_ALREADY_OPEN;
                    RepairStep::Over(
                        Ok(
                            SessionOpen {
                                outcome: o,
                                repaired: true,
                                close_response,
                                dropped,
                                wedged,
                            },
                        ),
                    )
                },
            },
            Repair::Recovering { .. } => vstd::pervasive::unreached(),
        }
    }

    /// Takes in the end of the drain.
    pub fn recovered(self, session: &mut Session, dropped: u64) -> (step: RepairStep)
        requires
            old(session)@.config.wf(),
            self is Recovering,
        ensures
            (final(session)@, step@) == after_recovery(self, old(session)@, dropped),
            step->Exchange_1@.wf(),
    {
        match self {
            Repair::Recovering { id, close_response } => {
                let x = session.open_session(id);
                RepairStep::Exchange(Repair::Reopening { close_response, dropped }, x)
            },
            _ => vstd::pervasive::unreached(),
        }
    }
}

/// A session that an earlier program left is closed and opened again: where the device answers the
/// first `OpenSession` with "session already open", the host sends `CloseSession`, drains the endpoint
/// and sends `OpenSession` with the same id, and the outcome says what each of them gave. The device
/// is wedged exactly where the second answer says that a session is still open.
pub proof fn law_a_left_session_is_repaired(
    id: u32,
    s: SessionView,
    first: Outcome,
    close: Result<Outcome, SessionError>,
    dropped: u64,
    second: Outcome,
)
    requires
        first.response_code == 0x201e,
    ensures
        ({
            let answer = match close {
                Ok(o) => Some(o.response_code),
                Err(_) => None,
            };
            let (s1, step1) = after_answer(Repair::Opening { id }, s, Ok(first));
            let (s2, step2) = after_answer(Repair::Closing { id }, s1, close);
            let waiting = Repair::Recovering { id, close_response: answer };
            let (s3, step3) = after_recovery(waiting, s2, dropped);
            let again = Repair::Reopening { close_response: answer, dropped };
            let (s4, step4) = after_answer(again, s3, Ok(second));
            &&& step1 == StepView::Exchange(Repair::Closing { id }, closing(s.after_open(
                first.response_code,
            )))
            &&& step2 == StepView::Recover(waiting, draining(s))
            &&& step3 == StepView::Exchange(again, opening(s2, id))
            &&& step4 == StepView::Over(
                Ok(
                    SessionOpen {
                        outcome: second,
                        repaired: true,
                        close_response: answer,
                        dropped,
                        wedged: second.response_code == 0x201e,
                    },
                ),
            )
            &&& s1.session_open
            &&& s2.session_open <==> answer != Some(0x2001u16)
            &&& s4.session_open <==> s2.session_open || second.response_code == 0x2001
                || second.response_code == 0x201e
        }),
{
}

/// The count of steps that a repair can still take.
pub open spec fn steps_left(stage: Repair) -> nat {
    match stage {
        Repair::Opening { .. } => 3,
        Repair::Closing { .. } => 2,
        Repair::Recovering { .. } => 1,
        Repair::Reopening { .. } => 0,
    }
}

/// Opening a session always ends: whatever the device answers, each answer and each drain leaves fewer
/// steps.
pub proof fn law_a_repair_always_ends(
    stage: Repair,
    s: SessionView,
    r: Result<Outcome, SessionError>,
    dropped: u64,
)
    ensures
        ({
            let (_, step) = if stage is Recovering {
                after_recovery(stage, s, dropped)
            } else {
                after_answer(stage, s, r)
            };
            match step {
                StepView::Exchange(next, _) => steps_left(next) < steps_left(stage),
                StepView::Recover(next, _) => steps_left(next) < steps_left(stage),
                StepView::Over(_) => true,
            }
        }),
{
}

/// An answer other than 0x201e needs no repair: it is the outcome of opening, as it is. A fault of the
/// operation is a fault of opening. Nothing else is done to the session.
pub proof fn law_an_opened_session_needs_no_repair(id: u32, s: SessionView, r: Result<Outcome, SessionError>)
    requires
        r is Ok ==> r->Ok_0.response_code != 0x201e,
    ensures
        ({
            let (t, step) = after_answer(Repair::Opening { id }, s, r);
            &&& step is Over
            &&& r is Err ==> t == s && step->Over_0 == Err::<SessionOpen, SessionError>(r->Err_0)
            &&& r is Ok ==> {
                &&& step->Over_0 is Ok
                &&& step->Over_0->Ok_0.outcome == r->Ok_0
                &&& !step->Over_0->Ok_0.repaired
                &&& step->Over_0->Ok_0.close_response is None
                &&& step->Over_0->Ok_0.dropped == 0
                &&& !step->Over_0->Ok_0.wedged
                &&& t.session_open == (s.session_open || r->Ok_0.response_code == 0x2001)
                &&& t.transaction == s.transaction && t.config == s.config && t.device == s.device
            }
        }),
{
}

/// What goes to the device to open a session with a number, and to close it: the command 0x1002 with that
/// number, and the command 0x1003 with nothing. A drain reads with the size that the session is configured for.
pub proof fn law_what_opening_and_closing_send(id: u32, s: SessionView)
    requires
        s.config.wf(),
    ensures
        ({
            let o = opening(s, id).phase->Command_0;
            let c = closing(s).phase->Command_0;
            let d = draining(s);
            &&& o.len() == 16
            &&& bytes::u16_at(o, 6) == 0x1002
            &&& bytes::u32_at(o, 8) == s.transaction
            &&& bytes::u32_at(o, 12) == id
            &&& c.len() == 12
            &&& bytes::u16_at(c, 6) == 0x1003
            &&& bytes::u32_at(c, 8) == s.transaction
            &&& d.capacity == s.config.read_buffer
            &&& d.dropped == 0
            &&& !d.over
            &&& d.left == 0x800_0000
        }),
{
    let ids = seq![id];
    crate::session::state::law_an_operation_starts_with_its_command(
        s,
        "OpenSession",
        op::OPEN_SESSION,
        ids,
        true,
    );
    assert(bytes::u32_at(opening(s, id).phase->Command_0, 12) == ids[0]);
    crate::session::state::law_an_operation_starts_with_its_command(
        s,
        "CloseSession",
        op::CLOSE_SESSION,
        Seq::empty(),
        true,
    );
}

} // verus!
