//! One operation on its way: a command, a data phase in one direction at most, and a response.
//!
//! The host asks what is due, does it, and reports what it gave, until the operation is over.

use vstd::prelude::*;

use crate::session::answer;
use crate::session::answer::{AnswerState, Progress, ProgressView, Response, ResponseView};
use crate::session::config::READ_BUFFER_MIN;
use crate::session::error::SessionError;
use crate::session::outcome::{Outcome, StreamOutcome};
use crate::session::sending;
use crate::session::sending::Sender;
use crate::time::Duration;
use crate::usb::device::UsbError;

verus! {

/// Where an operation stands.
#[derive(Debug)]
pub enum Phase {
    /// The command container is to be written.
    Command(Vec<u8>),
    /// A block of the payload is to be read from the source of the caller.
    Fetch,
    /// A part of the data phase is to be written.
    Data(Vec<u8>),
    /// The packet of zero bytes is to be written.
    Zero,
    /// The device is to be read.
    Read(AnswerState),
    /// These payload bytes are to be given to the caller.
    Deliver(Vec<u8>, AnswerState),
    /// The operation is over.
    Over(Result<Response, SessionError>),
}

/// What a [`Phase`] holds.
pub enum PhaseView {
    Command(Seq<u8>),
    Fetch,
    Data(Seq<u8>),
    Zero,
    Read(AnswerState),
    Deliver(Seq<u8>, AnswerState),
    Over(Result<ResponseView, SessionError>),
}

impl View for Phase {
    type V = PhaseView;

    open spec fn view(&self) -> PhaseView {
        match *self {
            Phase::Command(b) => PhaseView::Command(b@),
            Phase::Fetch => PhaseView::Fetch,
            Phase::Data(b) => PhaseView::Data(b@),
            Phase::Zero => PhaseView::Zero,
            Phase::Read(s) => PhaseView::Read(s),
            Phase::Deliver(b, s) => PhaseView::Deliver(b@, s),
            Phase::Over(Ok(r)) => PhaseView::Over(Ok(r@)),
            Phase::Over(Err(e)) => PhaseView::Over(Err(e)),
        }
    }
}

/// What the host has to do next.
#[derive(Debug)]
pub enum Due<'a> {
    /// Write these bytes to the device.
    Write(&'a [u8]),
    /// Read this count of bytes from the source of the payload.
    Fetch(usize),
    /// Read from the device, into a buffer of this size.
    Read(usize),
    /// Give these bytes to the caller.
    Deliver(&'a [u8]),
    /// Nothing: the operation is over.
    Over,
}

/// One operation on its way.
#[derive(Debug)]
pub struct Exchange {
    step: &'static str,
    capacity: usize,
    sender: Option<Sender>,
    source: Option<Vec<u8>>,
    sink: Option<Vec<u8>>,
    phase: Phase,
}

/// What an [`Exchange`] holds.
pub struct ExchangeView {
    /// The name of the operation, for a fault report.
    pub step: &'static str,
    /// The size of one read.
    pub capacity: usize,
    /// The data phase that goes to the device, where there is one.
    pub sender: Option<Sender>,
    /// The payload of that data phase, where the operation holds it.
    pub source: Option<Seq<u8>>,
    /// The payload that came from the device, where the operation collects it.
    pub sink: Option<Seq<u8>>,
    /// Where the operation stands.
    pub phase: PhaseView,
}

/// The contents of a vector that may be absent.
pub open spec fn contents(v: Option<Vec<u8>>) -> Option<Seq<u8>> {
    match v {
        Some(b) => Some(b@),
        None => None,
    }
}

impl View for Exchange {
    type V = ExchangeView;

    closed spec fn view(&self) -> ExchangeView {
        ExchangeView {
            step: self.step,
            capacity: self.capacity,
            sender: self.sender,
            source: contents(self.source),
            sink: contents(self.sink),
            phase: self.phase@,
        }
    }
}

/// The phase of an answer that goes on in this state.
pub open spec fn resumed(step: &'static str, state: AnswerState) -> PhaseView {
    match state {
        AnswerState::Short { declared, have } => PhaseView::Over(
            Err(answer::incomplete(step, declared, have)),
        ),
        _ => PhaseView::Read(state),
    }
}

impl ExchangeView {
    /// The parts of an operation fit each other.
    pub open spec fn wf(self) -> bool {
        &&& self.capacity >= READ_BUFFER_MIN
        &&& self.sender is Some ==> self.sender->0.wf()
        &&& self.source is Some ==> self.sender is Some && self.source->0.len()
            == self.sender->0.size
        &&& match self.phase {
            PhaseView::Command(_) => self.sender is Some ==> !self.sender->0.started,
            PhaseView::Fetch => self.sender is Some && !self.sender->0.over() && self.source is None
                && self.sender->0.wanted() > 0,
            PhaseView::Data(_) => self.sender is Some && self.sender->0.started,
            PhaseView::Zero => self.sender is Some && self.sender->0.over(),
            PhaseView::Read(s) => s.wf() && !(s is Short),
            PhaseView::Deliver(_, s) => s.wf() && self.sink is None,
            PhaseView::Over(_) => true,
        }
    }

    /// The operation with another phase.
    pub open spec fn at(self, phase: PhaseView) -> ExchangeView {
        ExchangeView { phase, ..self }
    }

    /// The operation with the next block of its data phase to be written.
    pub open spec fn with_block(self, payload: Seq<u8>) -> ExchangeView {
        ExchangeView {
            sender: Some(self.sender->0.advanced()),
            phase: PhaseView::Data(self.sender->0.block(payload)),
            ..self
        }
    }

    /// What is due when the device took everything that was written so far: the next block of the
    /// data phase, the packet of zero bytes that closes it, or the answer.
    pub open spec fn sent(self) -> ExchangeView {
        match self.sender {
            None => self.at(PhaseView::Read(AnswerState::First)),
            Some(s) => if s.over() {
                if sending::ends_on_a_packet(s.total(), s.packet as int) {
                    self.at(PhaseView::Zero)
                } else {
                    self.at(PhaseView::Read(AnswerState::First))
                }
            } else {
                match self.source {
                    Some(p) => self.with_block(p.subrange(s.sent as int, s.sent + s.wanted())),
                    None => if s.wanted() == 0 {
                        self.with_block(Seq::empty())
                    } else {
                        self.at(PhaseView::Fetch)
                    },
                }
            },
        }
    }

    /// The operation after a write.
    pub open spec fn after_write(self, r: Result<(), UsbError>) -> ExchangeView {
        match r {
            Err(source) => self.at(
                PhaseView::Over(Err(SessionError::Usb { step: self.step, source })),
            ),
            Ok(_) => match self.phase {
                PhaseView::Zero => self.at(PhaseView::Read(AnswerState::First)),
                _ => self.sent(),
            },
        }
    }

    /// The operation after a block of the payload was read.
    pub open spec fn after_fetch(self, r: Result<Seq<u8>, SessionError>) -> ExchangeView {
        match r {
            Err(e) => self.at(PhaseView::Over(Err(e))),
            Ok(payload) => self.with_block(payload),
        }
    }

    /// The operation after payload bytes of the answer arrived.
    pub open spec fn collected(self, payload: Seq<u8>, next: AnswerState) -> ExchangeView {
        match self.sink {
            Some(d) => ExchangeView {
                sink: Some(d + payload),
                phase: resumed(self.step, next),
                ..self
            },
            None => self.at(PhaseView::Deliver(payload, next)),
        }
    }

    /// The operation after a read.
    pub open spec fn after_read(self, r: Result<Seq<u8>, UsbError>) -> ExchangeView {
        match r {
            Err(source) => self.at(
                PhaseView::Over(Err(SessionError::Usb { step: self.step, source })),
            ),
            Ok(buf) => match answer::transfer(self.step, self.capacity, self.phase->Read_0, buf) {
                ProgressView::Finished(r) => self.at(PhaseView::Over(Ok(r))),
                ProgressView::Failed(e) => self.at(PhaseView::Over(Err(e))),
                ProgressView::Deliver { from, next } => self.collected(
                    buf.skip(from as int),
                    next,
                ),
            },
        }
    }

    /// The operation after the caller took payload bytes.
    pub open spec fn after_delivery(self, r: Result<(), String>) -> ExchangeView {
        match r {
            Err(source) => self.at(
                PhaseView::Over(Err(SessionError::Write { step: self.step, source })),
            ),
            Ok(_) => self.at(resumed(self.step, self.phase->Deliver_1)),
        }
    }

    /// Whether a write is due.
    pub open spec fn write_is_due(self) -> bool {
        self.phase is Command || self.phase is Data || self.phase is Zero
    }
}

/// The bytes of a result that a read gave.
pub open spec fn read_bytes<E>(r: Result<Vec<u8>, E>) -> Result<Seq<u8>, E> {
    match r {
        Ok(b) => Ok(b@),
        Err(e) => Err(e),
    }
}

impl Exchange {
    /// Starts an operation with its command container. An operation with a sender sends a data phase
    /// behind the command, from the source where it has one, and otherwise from the caller. An
    /// operation that collects keeps the payload of the answer.
    pub fn start(
        step: &'static str,
        capacity: usize,
        command: Vec<u8>,
        sender: Option<Sender>,
        source: Option<Vec<u8>>,
        collect: bool,
    ) -> (r: Self)
        requires
            capacity >= READ_BUFFER_MIN,
            sender is Some ==> sender->0.wf() && !sender->0.started,
            source is Some ==> sender is Some && source->0@.len() == sender->0.size,
        ensures
            r@.wf(),
            r@ == (ExchangeView {
                step,
                capacity,
                sender,
                source: contents(source),
                sink: if collect {
                    Some(Seq::empty())
                } else {
                    None
                },
                phase: PhaseView::Command(command@),
            }),
    {
        let sink: Option<Vec<u8>> = if collect {
            Some(Vec::new())
        } else {
            None
        };
        Exchange { step, capacity, sender, source, sink, phase: Phase::Command(command) }
    }

    /// The name of the operation.
    pub fn step(&self) -> (r: &'static str)
        ensures
            r == self@.step,
    {
        self.step
    }

    /// Tells the host what to do next.
    pub fn due(&self) -> (r: Due<'_>)
        requires
            self@.wf(),
        ensures
            match self@.phase {
                PhaseView::Command(b) => r is Write && r->Write_0@ == b,
                PhaseView::Fetch => r is Fetch && r->Fetch_0 == self@.sender->0.wanted(),
                PhaseView::Data(b) => r is Write && r->Write_0@ == b,
                PhaseView::Zero => r is Write && r->Write_0@.len() == 0,
                PhaseView::Read(_) => r is Read && r->Read_0 == self@.capacity,
                PhaseView::Deliver(b, _) => r is Deliver && r->Deliver_0@ == b,
                PhaseView::Over(_) => r is Over,
            },
    {
        match &self.phase {
            Phase::Command(b) => Due::Write(b.as_slice()),
            Phase::Fetch => match &self.sender {
                Some(s) => Due::Fetch(s.want()),
                None => vstd::pervasive::unreached(),
            },
            Phase::Data(b) => Due::Write(b.as_slice()),
            Phase::Zero => Due::Write(&[]),
            Phase::Read(_) => Due::Read(self.capacity),
            Phase::Deliver(b, _) => Due::Deliver(b.as_slice()),
            Phase::Over(_) => Due::Over,
        }
    }

    /// Moves on when the device took everything that was written so far.
    fn go_on_sending(&mut self)
        requires
            old(self)@.wf(),
            old(self)@.phase is Command || old(self)@.phase is Data,
        ensures
            final(self)@ == old(self)@.sent(),
            final(self)@.wf(),
    {
        match self.sender {
            None => {
                self.phase = Phase::Read(AnswerState::First);
            },
            Some(s) => {
                let mut s = s;
                if s.is_over() {
                    self.phase = if s.closes_with_zero() {
                        Phase::Zero
                    } else {
                        Phase::Read(AnswerState::First)
                    };
                } else {
                    let want: usize = s.want();
                    let block: Option<Vec<u8>> = match &self.source {
                        Some(p) => {
                            let from: usize = s.sent as usize;
                            Some(
                                s.next_block(
                                    vstd::slice::slice_subrange(p.as_slice(), from, from + want),
                                ),
                            )
                        },
                        None => {
                            if want == 0 {
                                Some(s.next_block(&[]))
                            } else {
                                None
                            }
                        },
                    };
                    match block {
                        Some(b) => {
                            self.sender = Some(s);
                            self.phase = Phase::Data(b);
                        },
                        None => {
                            self.phase = Phase::Fetch;
                        },
                    }
                }
            },
        }
    }

    /// Takes in what a write gave.
    pub fn wrote(&mut self, r: Result<(), UsbError>)
        requires
            old(self)@.wf(),
            old(self)@.write_is_due(),
        ensures
            final(self)@ == old(self)@.after_write(r),
            final(self)@.wf(),
    {
        match r {
            Err(source) => {
                self.phase = Phase::Over(Err(SessionError::Usb { step: self.step, source }));
            },
            Ok(_) => {
                let closing: bool = matches!(self.phase, Phase::Zero);
                if closing {
                    self.phase = Phase::Read(AnswerState::First);
                } else {
                    self.go_on_sending();
                }
            },
        }
    }

    /// Takes in a block of the payload, or the fault of its source.
    pub fn fetched(&mut self, r: Result<Vec<u8>, SessionError>)
        requires
            old(self)@.wf(),
            old(self)@.phase is Fetch,
            r is Ok ==> r->Ok_0@.len() == old(self)@.sender->0.wanted(),
        ensures
            final(self)@ == old(self)@.after_fetch(read_bytes(r)),
            final(self)@.wf(),
    {
        match r {
            Err(e) => {
                self.phase = Phase::Over(Err(e));
            },
            Ok(payload) => {
                match self.sender {
                    Some(s) => {
                        let mut s = s;
                        let block = s.next_block(payload.as_slice());
                        self.sender = Some(s);
                        self.phase = Phase::Data(block);
                    },
                    None => {},
                }
            },
        }
    }

    /// Takes in what a read gave.
    pub fn got(&mut self, r: Result<Vec<u8>, UsbError>)
        requires
            old(self)@.wf(),
            old(self)@.phase is Read,
            r is Ok ==> r->Ok_0@.len() <= isize::MAX,
        ensures
            final(self)@ == old(self)@.after_read(read_bytes(r)),
            final(self)@.wf(),
    {
        let state = match self.phase {
            Phase::Read(s) => s,
            _ => vstd::pervasive::unreached(),
        };
        let buf = match r {
            Err(source) => {
                self.phase = Phase::Over(Err(SessionError::Usb { step: self.step, source }));
                return ;
            },
            Ok(buf) => buf,
        };
        match state.read_answer(self.step, self.capacity, buf.as_slice()) {
            Progress::Finished(r) => {
                self.phase = Phase::Over(Ok(r));
            },
            Progress::Failed(e) => {
                self.phase = Phase::Over(Err(e));
            },
            Progress::Deliver { from, next } => {
                let payload = vstd::slice::slice_subrange(buf.as_slice(), from, buf.len());
                proof {
                    assert(payload@ =~= buf@.skip(from as int));
                }
                match &mut self.sink {
                    Some(d) => {
                        let ghost before = d@;
                        d.extend_from_slice(payload);
                        proof {
                            assert(d@ =~= before + payload@);
                        }
                        self.phase = resume(self.step, next);
                    },
                    None => {
                        let mut bytes: Vec<u8> = Vec::new();
                        bytes.extend_from_slice(payload);
                        proof {
                            assert(bytes@ =~= payload@);
                        }
                        self.phase = Phase::Deliver(bytes, next);
                    },
                }
            },
        }
    }

    /// Takes in what the caller said to payload bytes.
    pub fn delivered(&mut self, r: Result<(), String>)
        requires
            old(self)@.wf(),
            old(self)@.phase is Deliver,
        ensures
            final(self)@ == old(self)@.after_delivery(r),
            final(self)@.wf(),
    {
        match r {
            Err(source) => {
                self.phase = Phase::Over(Err(SessionError::Write { step: self.step, source }));
            },
            Ok(_) => {
                let next = match self.phase {
                    Phase::Deliver(_, s) => s,
                    _ => vstd::pervasive::unreached(),
                };
                self.phase = resume(self.step, next);
            },
        }
    }

    /// Gives what an operation that is over did, with the payload that it collected.
    pub fn finish(self, elapsed: Duration) -> (r: Result<Outcome, SessionError>)
        requires
            self@.phase is Over,
        ensures
            match self@.phase->Over_0 {
                Ok(v) => r is Ok && r->Ok_0.response_code == v.code && r->Ok_0.response_params@
                    == v.params && r->Ok_0.reads == v.reads && r->Ok_0.elapsed == elapsed
                    && r->Ok_0.data@ == (match self@.sink {
                    Some(d) => d,
                    None => Seq::empty(),
                }),
                Err(e) => r == Err::<Outcome, SessionError>(e),
            },
    {
        match self.phase {
            Phase::Over(Ok(v)) => {
                let data: Vec<u8> = match self.sink {
                    Some(d) => d,
                    None => Vec::new(),
                };
                Ok(
                    Outcome {
                        response_code: v.code,
                        data,
                        response_params: v.params,
                        elapsed,
                        reads: v.reads,
                    },
                )
            },
            Phase::Over(Err(e)) => Err(e),
            _ => vstd::pervasive::unreached(),
        }
    }

    /// Gives what a streamed operation that is over did.
    pub fn finish_stream(self, elapsed: Duration) -> (r: Result<StreamOutcome, SessionError>)
        requires
            self@.phase is Over,
        ensures
            match self@.phase->Over_0 {
                Ok(v) => r is Ok && r->Ok_0.response_code == v.code && r->Ok_0.response_params@
                    == v.params && r->Ok_0.reads == v.reads && r->Ok_0.elapsed == elapsed
                    && r->Ok_0.bytes == v.bytes,
                Err(e) => r == Err::<StreamOutcome, SessionError>(e),
            },
    {
        match self.phase {
            Phase::Over(Ok(v)) => Ok(
                StreamOutcome {
                    response_code: v.code,
                    response_params: v.params,
                    bytes: v.bytes,
                    elapsed,
                    reads: v.reads,
                },
            ),
            Phase::Over(Err(e)) => Err(e),
            _ => vstd::pervasive::unreached(),
        }
    }
}

/// Gives the phase of an answer that goes on in this state.
fn resume(step: &'static str, state: AnswerState) -> (r: Phase)
    ensures
        r@ == resumed(step, state),
{
    match state {
        AnswerState::Short { declared, have } => Phase::Over(
            Err(SessionError::Incomplete { step, want: declared as u64, got: have }),
        ),
        _ => Phase::Read(state),
    }
}

/// An operation after reads that all succeed, as far as it asks for them.
pub open spec fn after_reads(x: ExchangeView, transfers: Seq<Seq<u8>>) -> ExchangeView
    decreases transfers.len(),
{
    if transfers.len() == 0 || !(x.phase is Read) {
        x
    } else {
        after_reads(x.after_read(Ok(transfers[0])), transfers.skip(1))
    }
}

/// An operation that collects its answer ends as the answer does, and holds exactly the payload that
/// the answer delivered.
pub proof fn law_an_operation_ends_as_its_answer(x: ExchangeView, transfers: Seq<Seq<u8>>)
    requires
        x.wf(),
        x.phase is Read,
        x.sink is Some,
        answer::sizes_fit(transfers),
    ensures
        match answer::answer(x.step, x.capacity, x.phase->Read_0, transfers) {
            Some((r, payload)) => after_reads(x, transfers) == (ExchangeView {
                sink: Some(x.sink->0 + payload),
                phase: PhaseView::Over(r),
                ..x
            }),
            None => after_reads(x, transfers).phase is Read,
        },
    decreases transfers.len(),
{
    let state = x.phase->Read_0;
    let d = x.sink->0;
    assert(d + Seq::<u8>::empty() =~= d);
    if transfers.len() > 0 {
        let buf = transfers[0];
        let next = x.after_read(Ok(buf));
        match answer::transfer(x.step, x.capacity, state, buf) {
            ProgressView::Deliver { from, next: resumed_state } => {
                let part = buf.skip(from as int);
                match resumed_state {
                    AnswerState::Short { .. } => {
                        assert(part + Seq::<u8>::empty() =~= part);
                        assert(after_reads(next, transfers.skip(1)) == next);
                    },
                    _ => {
                        answer::lemma_transfer_keeps_order(x.step, x.capacity, state, buf);
                        assert(answer::sizes_fit(transfers.skip(1)));
                        law_an_operation_ends_as_its_answer(next, transfers.skip(1));
                        match answer::answer(
                            x.step,
                            x.capacity,
                            resumed_state,
                            transfers.skip(1),
                        ) {
                            Some((_, more)) => {
                                assert(d + part + more =~= d + (part + more));
                            },
                            None => {},
                        }
                    },
                }
            },
            _ => {
                assert(after_reads(next, transfers.skip(1)) == next);
            },
        }
    }
}

/// A streamed operation after reads that all succeed, as far as it asks for them, with a caller that takes
/// every part, and the parts that the caller got, one behind the other.
pub open spec fn streamed(x: ExchangeView, transfers: Seq<Seq<u8>>) -> (ExchangeView, Seq<u8>)
    decreases transfers.len(),
{
    if transfers.len() == 0 || !(x.phase is Read) {
        (x, Seq::empty())
    } else {
        let y = x.after_read(Ok(transfers[0]));
        match y.phase {
            PhaseView::Deliver(part, _) => {
                let (end, more) = streamed(y.after_delivery(Ok(())), transfers.skip(1));
                (end, part + more)
            },
            _ => streamed(y, transfers.skip(1)),
        }
    }
}

/// A streamed operation ends as the answer does, and the parts that the caller got are exactly the payload
/// that the answer delivered.
pub proof fn law_a_streamed_operation_delivers_its_answer(x: ExchangeView, transfers: Seq<Seq<u8>>)
    requires
        x.wf(),
        x.phase is Read,
        x.sink is None,
        answer::sizes_fit(transfers),
    ensures
        match answer::answer(x.step, x.capacity, x.phase->Read_0, transfers) {
            Some((r, payload)) => streamed(x, transfers) == (x.at(PhaseView::Over(r)), payload),
            None => streamed(x, transfers).0.phase is Read,
        },
    decreases transfers.len(),
{
    let state = x.phase->Read_0;
    if transfers.len() > 0 {
        let buf = transfers[0];
        let rest = transfers.skip(1);
        let next = x.after_read(Ok(buf));
        match answer::transfer(x.step, x.capacity, state, buf) {
            ProgressView::Deliver { from, next: resumed_state } => {
                let taken = next.after_delivery(Ok(()));
                let part = buf.skip(from as int);
                assert(part + Seq::<u8>::empty() =~= part);
                assert(next.phase == PhaseView::Deliver(part, resumed_state));
                match resumed_state {
                    AnswerState::Short { declared, have } => {
                        assert(streamed(taken, rest) == (taken, Seq::<u8>::empty()));
                        assert(answer::answer(x.step, x.capacity, resumed_state, rest) == Some(
                            (
                                Err::<answer::ResponseView, SessionError>(
                                    answer::incomplete(x.step, declared, have),
                                ),
                                Seq::<u8>::empty(),
                            ),
                        ));
                    },
                    _ => {
                        answer::lemma_transfer_keeps_order(x.step, x.capacity, state, buf);
                        assert(answer::sizes_fit(rest));
                        law_a_streamed_operation_delivers_its_answer(taken, rest);
                    },
                }
            },
            _ => {
                assert(streamed(next, rest) == (next, Seq::<u8>::empty()));
            },
        }
    }
}

/// A block that the caller reads from its source is written as the block of a payload that the
/// operation holds.
pub proof fn law_a_fetched_block_is_written_like_a_held_one(x: ExchangeView, payload: Seq<u8>)
    requires
        x.wf(),
        x.phase is Fetch,
        payload.len() == x.sender->0.size,
    ensures
        ({
            let s = x.sender->0;
            let fetched = x.after_fetch(
                Ok(payload.subrange(s.sent as int, s.sent + s.wanted())),
            );
            let held = (ExchangeView { source: Some(payload), ..x }).sent();
            fetched.phase == held.phase && fetched.sender == held.sender
        }),
{
}

/// The order of the phases in which an operation writes.
pub open spec fn write_rank(x: ExchangeView) -> int {
    match x.phase {
        PhaseView::Command(_) => 2,
        PhaseView::Data(_) => 2,
        PhaseView::Zero => 1,
        _ => 0,
    }
}

/// The bytes of the data phase that were not written yet.
pub open spec fn unsent(x: ExchangeView) -> int {
    match x.sender {
        Some(s) => s.total() - s.at(),
        None => 0,
    }
}

/// The writes of an operation that holds its payload, when every write succeeds.
pub open spec fn write_log(x: ExchangeView) -> Seq<Seq<u8>>
    decreases unsent(x), write_rank(x),
    when x.wf() && (x.sender is Some ==> x.source is Some)
    via write_log_decreases
{
    match x.phase {
        PhaseView::Command(b) => seq![b] + write_log(x.after_write(Ok(()))),
        PhaseView::Data(b) => seq![b] + write_log(x.after_write(Ok(()))),
        PhaseView::Zero => seq![Seq::empty()] + write_log(x.after_write(Ok(()))),
        _ => Seq::empty(),
    }
}

#[via_fn]
proof fn write_log_decreases(x: ExchangeView) {
    lemma_after_write(x);
}

/// A successful write leaves less of a data phase to write, or a phase that comes later.
proof fn lemma_after_write(x: ExchangeView)
    requires
        x.wf(),
        x.sender is Some ==> x.source is Some,
    ensures
        x.write_is_due() ==> {
            let y = x.after_write(Ok(()));
            &&& y.wf()
            &&& y.sender is Some ==> y.source is Some
            &&& unsent(y) >= 0
            &&& unsent(y) < unsent(x) || unsent(y) == unsent(x) && write_rank(y) < write_rank(x)
        },
{
    if let Some(s) = x.sender {
        if !s.over() {
            sending::lemma_advanced(s);
        }
    }
}

/// An operation that holds its payload writes its command and then exactly the writes of its data
/// phase, and then reads the answer.
pub proof fn law_an_operation_writes_its_data_phase(x: ExchangeView)
    requires
        x.wf(),
        x.phase is Command,
        x.sender is Some,
        x.source is Some,
    ensures
        write_log(x) == seq![x.phase->Command_0] + sending::writes(x.sender->0, x.source->0),
{
    lemma_after_write(x);
    lemma_rest_of_the_log(x);
}

proof fn lemma_rest_of_the_log(x: ExchangeView)
    requires
        x.wf(),
        x.phase is Command || x.phase is Data,
        x.sender is Some,
        x.source is Some,
    ensures
        write_log(x.after_write(Ok(()))) == sending::writes(x.sender->0, x.source->0),
    decreases unsent(x),
{
    let s = x.sender->0;
    let p = x.source->0;
    let y = x.after_write(Ok(()));
    lemma_after_write(x);
    lemma_after_write(y);
    if s.over() {
        if sending::ends_on_a_packet(s.total(), s.packet as int) {
            let z = y.after_write(Ok(()));
            assert(write_log(z) =~= Seq::empty());
            assert(write_log(y) =~= seq![Seq::<u8>::empty()]);
        } else {
            assert(write_log(y) =~= Seq::empty());
        }
    } else {
        let block = s.block(p.subrange(s.sent as int, s.sent + s.wanted()));
        assert(y.phase == PhaseView::Data(block));
        lemma_rest_of_the_log(y);
        assert(write_log(y) == seq![block] + write_log(y.after_write(Ok(()))));
    }
}

/// A fault ends an operation, whatever was due, and stays what it was: a fault of a transfer with the name of
/// the operation, a fault of the source of the payload as it is, and a fault of the caller with its cause.
pub proof fn law_a_fault_ends_an_operation(x: ExchangeView, e: UsbError, f: SessionError, cause: String)
    ensures
        x.after_write(Err(e)).phase == PhaseView::Over(
            Err::<ResponseView, SessionError>(SessionError::Usb { step: x.step, source: e }),
        ),
        x.after_read(Err(e)).phase == PhaseView::Over(
            Err::<ResponseView, SessionError>(SessionError::Usb { step: x.step, source: e }),
        ),
        x.after_fetch(Err(f)).phase == PhaseView::Over(Err::<ResponseView, SessionError>(f)),
        x.after_delivery(Err(cause)).phase == PhaseView::Over(
            Err::<ResponseView, SessionError>(SessionError::Write { step: x.step, source: cause }),
        ),
{
}

/// The writes of an operation whose payload the caller gives block by block, when every block is the part of
/// the payload that was asked for and every write succeeds.
pub open spec fn fetched_log(x: ExchangeView, payload: Seq<u8>) -> Seq<Seq<u8>>
    decreases unsent(x), fetch_rank(x),
    when x.wf() && x.source is None
    via fetched_log_decreases
{
    match x.phase {
        PhaseView::Command(b) => seq![b] + fetched_log(x.after_write(Ok(())), payload),
        PhaseView::Data(b) => seq![b] + fetched_log(x.after_write(Ok(())), payload),
        PhaseView::Zero => seq![Seq::empty()] + fetched_log(x.after_write(Ok(())), payload),
        PhaseView::Fetch => {
            let s = x.sender->0;
            fetched_log(
                x.after_fetch(Ok(payload.subrange(s.sent as int, s.sent + s.wanted()))),
                payload,
            )
        },
        _ => Seq::empty(),
    }
}

/// How far an operation is from its next write of data.
pub open spec fn fetch_rank(x: ExchangeView) -> int {
    match x.phase {
        PhaseView::Command(_) => 3,
        PhaseView::Data(_) => 3,
        PhaseView::Fetch => 2,
        PhaseView::Zero => 1,
        _ => 0,
    }
}

#[via_fn]
proof fn fetched_log_decreases(x: ExchangeView, payload: Seq<u8>) {
    lemma_fetching(x, payload);
}

proof fn lemma_fetching(x: ExchangeView, payload: Seq<u8>)
    requires
        x.wf(),
        x.source is None,
    ensures
        x.write_is_due() ==> {
            let y = x.after_write(Ok(()));
            &&& y.wf()
            &&& y.source is None
            &&& unsent(y) >= 0
            &&& unsent(y) < unsent(x) || unsent(y) == unsent(x) && fetch_rank(y) < fetch_rank(x)
        },
        x.phase is Fetch ==> {
            let s = x.sender->0;
            let y = x.after_fetch(Ok(payload.subrange(s.sent as int, s.sent + s.wanted())));
            &&& y.wf()
            &&& y.source is None
            &&& 0 <= unsent(y) < unsent(x)
        },
{
    if let Some(s) = x.sender {
        if !s.over() {
            sending::lemma_advanced(s);
        }
    }
}

/// An operation whose payload the caller gives writes its command and then exactly the writes of its data
/// phase, as an operation does that holds its payload.
pub proof fn law_a_payload_from_the_caller_is_written(x: ExchangeView, payload: Seq<u8>)
    requires
        x.wf(),
        x.phase is Command,
        x.sender is Some,
        x.source is None,
        payload.len() == x.sender->0.size,
    ensures
        fetched_log(x, payload) == seq![x.phase->Command_0] + sending::writes(x.sender->0, payload),
{
    lemma_fetching(x, payload);
    lemma_rest_of_the_fetched_log(x, payload);
}

proof fn lemma_rest_of_the_fetched_log(x: ExchangeView, payload: Seq<u8>)
    requires
        x.wf(),
        x.phase is Command || x.phase is Data,
        x.sender is Some,
        x.source is None,
        payload.len() == x.sender->0.size,
    ensures
        fetched_log(x.after_write(Ok(())), payload) == sending::writes(x.sender->0, payload),
    decreases unsent(x),
{
    let s = x.sender->0;
    let y = x.after_write(Ok(()));
    lemma_fetching(x, payload);
    lemma_fetching(y, payload);
    if s.over() {
        if sending::ends_on_a_packet(s.total(), s.packet as int) {
            let z = y.after_write(Ok(()));
            assert(fetched_log(z, payload) =~= Seq::empty());
            assert(fetched_log(y, payload) =~= seq![Seq::<u8>::empty()]);
        } else {
            assert(fetched_log(y, payload) =~= Seq::empty());
        }
    } else {
        let part = payload.subrange(s.sent as int, s.sent + s.wanted());
        let block = s.block(part);
        let z = if s.wanted() == 0 {
            y
        } else {
            y.after_fetch(Ok(part))
        };
        assert(part.len() == s.wanted());
        if s.wanted() == 0 {
            assert(part =~= Seq::empty());
        }
        assert(z.phase == PhaseView::Data(block));
        lemma_fetching(z, payload);
        lemma_rest_of_the_fetched_log(z, payload);
        assert(fetched_log(z, payload) == seq![block] + fetched_log(z.after_write(Ok(())), payload));
    }
}

/// What the host has to do is what the phase of the operation says: write its bytes, all of them, fetch the
/// payload of the next block, read with the size of a read, or give the payload to the caller.
pub proof fn law_what_is_due(x: &Exchange, r: Due)
    requires
        x@.wf(),
        call_ensures(Exchange::due, (x,), r),
    ensures
        r is Over <==> x@.phase is Over,
        r is Read <==> x@.phase is Read,
        r is Read ==> r->Read_0 == x@.capacity,
        r is Fetch <==> x@.phase is Fetch,
        r is Fetch ==> r->Fetch_0 == x@.sender->0.wanted(),
        r is Deliver <==> x@.phase is Deliver,
        r is Deliver ==> r->Deliver_0@ == x@.phase->Deliver_0,
        r is Write <==> x@.phase is Command || x@.phase is Data || x@.phase is Zero,
        x@.phase is Command ==> r->Write_0@ == x@.phase->Command_0,
        x@.phase is Data ==> r->Write_0@ == x@.phase->Data_0,
        x@.phase is Zero ==> r->Write_0@.len() == 0,
{
}

/// What an operation that is over gives: the code, the parameters and the count of reads of its answer, all of
/// the payload that was collected or the count of bytes that were streamed, and the time; or its fault.
pub proof fn law_what_an_operation_gives(
    x: Exchange,
    elapsed: Duration,
    r: Result<Outcome, SessionError>,
    t: Result<StreamOutcome, SessionError>,
)
    requires
        x@.phase is Over,
        call_ensures(Exchange::finish, (x, elapsed), r),
        call_ensures(Exchange::finish_stream, (x, elapsed), t),
    ensures
        x@.phase->Over_0 is Err ==> r == Err::<Outcome, SessionError>(x@.phase->Over_0->Err_0) && t
            == Err::<StreamOutcome, SessionError>(x@.phase->Over_0->Err_0),
        x@.phase->Over_0 is Ok ==> {
            let v = x@.phase->Over_0->Ok_0;
            &&& r is Ok && t is Ok
            &&& r->Ok_0.response_code == v.code && t->Ok_0.response_code == v.code
            &&& r->Ok_0.response_params@ == v.params && t->Ok_0.response_params@ == v.params
            &&& r->Ok_0.reads == v.reads && t->Ok_0.reads == v.reads
            &&& r->Ok_0.elapsed == elapsed && t->Ok_0.elapsed == elapsed
            &&& t->Ok_0.bytes == v.bytes
            &&& x@.sink is Some ==> r->Ok_0.data@ == x@.sink->0
            &&& x@.sink is None ==> r->Ok_0.data@.len() == 0
        },
{
}

/// What the host hands to an operation reaches it as it is: every byte of a read and of a block, and every fault.
pub proof fn law_what_is_handed_over_is_taken_whole(bytes: Vec<u8>, e: UsbError, f: SessionError)
    ensures
        read_bytes(Ok::<Vec<u8>, UsbError>(bytes)) == Ok::<Seq<u8>, UsbError>(bytes@),
        read_bytes(Err::<Vec<u8>, UsbError>(e)) == Err::<Seq<u8>, UsbError>(e),
        read_bytes(Ok::<Vec<u8>, SessionError>(bytes)) == Ok::<Seq<u8>, SessionError>(bytes@),
        read_bytes(Err::<Vec<u8>, SessionError>(f)) == Err::<Seq<u8>, SessionError>(f),
        forall|x: &mut Exchange| #[trigger]
            call_ensures(Exchange::got, (x, Ok(bytes)), ()) ==> final(x)@ == (*x)@.after_read(
                Ok(bytes@),
            ),
        forall|x: &mut Exchange| #[trigger]
            call_ensures(Exchange::fetched, (x, Ok(bytes)), ()) ==> final(x)@ == (*x)@.after_fetch(
                Ok(bytes@),
            ),
        forall|x: &mut Exchange| #[trigger]
            call_ensures(Exchange::wrote, (x, Ok(())), ()) ==> final(x)@ == (*x)@.after_write(
                Ok(()),
            ),
        forall|x: &mut Exchange| #[trigger]
            call_ensures(Exchange::delivered, (x, Ok(())), ()) ==> final(x)@
                == (*x)@.after_delivery(Ok(())),
{
}

} // verus!
