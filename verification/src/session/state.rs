//! The state of a session: its transactions, its configuration, and whether it is open.

use vstd::prelude::*;

use crate::ptp::bytes;
use crate::ptp::container;
use crate::ptp::error::{PayloadTooLarge, MAX_PAYLOAD_LEN};
use crate::ptp::op;
use crate::ptp::resp;
use crate::session::answer;
use crate::session::answer::AnswerState;
use crate::session::config;
use crate::session::config::{Config, READ_BUFFER_MIN};
use crate::session::drain::Drain;
use crate::session::error::SessionError;
use crate::session::exchange;
use crate::session::exchange::{Exchange, ExchangeView, PhaseView};
use crate::session::outcome::Outcome;
use crate::session::sending;
use crate::session::sending::Sender;
use crate::usb::device;
use crate::usb::device::{ControlRequest, LinkSpeed, MtpDevice, Transfer, UsbError};

verus! {

/// One MTP session.
#[derive(Debug)]
pub struct Session {
    device: MtpDevice,
    transaction: u32,
    config: Config,
    session_open: bool,
}

/// What a [`Session`] holds.
pub struct SessionView {
    /// The device, with both bulk endpoints open.
    pub device: MtpDevice,
    /// The next transaction.
    pub transaction: u32,
    /// How the session reads and writes.
    pub config: Config,
    /// Whether the host holds a session that it opened.
    pub session_open: bool,
}

impl View for Session {
    type V = SessionView;

    closed spec fn view(&self) -> SessionView {
        SessionView {
            device: self.device,
            transaction: self.transaction,
            config: self.config,
            session_open: self.session_open,
        }
    }
}

/// The transaction behind this one. The count wraps.
pub open spec fn following(transaction: u32) -> u32 {
    if transaction == u32::MAX {
        0
    } else {
        (transaction + 1) as u32
    }
}

impl SessionView {
    /// The session with the next transaction taken.
    pub open spec fn taken(self) -> SessionView {
        SessionView { transaction: following(self.transaction), ..self }
    }

    /// The data phase of an operation that sends a payload of this size.
    pub open spec fn sender(self, code: u16, size: u64) -> Sender {
        Sender {
            code,
            transaction_id: self.transaction,
            size,
            chunk: self.config.write_chunk,
            packet: self.config.packet,
            sent: 0,
            started: false,
        }
    }

    /// An operation at its start.
    pub open spec fn started(
        self,
        step: &'static str,
        code: u16,
        params: Seq<u32>,
        sender: Option<Sender>,
        source: Option<Seq<u8>>,
        collect: bool,
    ) -> ExchangeView {
        ExchangeView {
            step,
            capacity: self.config.read_buffer,
            sender,
            source,
            sink: if collect {
                Some(Seq::empty())
            } else {
                None
            },
            phase: PhaseView::Command(container::command_bytes(code, self.transaction, params)),
        }
    }

    /// The session after the device answered `OpenSession`.
    pub open spec fn after_open(self, response_code: u16) -> SessionView {
        SessionView {
            session_open: self.session_open || response_code == resp::OK || response_code
                == resp::SESSION_ALREADY_OPEN,
            ..self
        }
    }

    /// The session after the device answered `CloseSession`.
    pub open spec fn after_close(self, response_code: u16) -> SessionView {
        SessionView { session_open: self.session_open && response_code != resp::OK, ..self }
    }
}

/// The fault of a payload that the length field cannot count.
pub open spec fn too_large(step: &'static str, size: u64) -> SessionError {
    SessionError::Build { step, source: PayloadTooLarge { len: size } }
}

impl Session {
    /// Starts a session over two open bulk channels.
    ///
    /// The function does not send `OpenSession`. It gives the drain that puts the endpoints in a
    /// known state, which the host does first: a program that stopped in the middle of a transfer
    /// leaves the device with bytes to send.
    pub fn new(device: MtpDevice, config: Config) -> (r: (Self, Drain))
        requires
            config.packet <= usize::MAX,
        ensures
            r.0@ == (SessionView {
                device,
                transaction: 0,
                config: config.corrected(),
                session_open: false,
            }),
            r.0@.config.wf(),
            r.1 == (Drain {
                capacity: config.corrected().read_buffer,
                dropped: 0,
                left: crate::session::answer::MAX_READ_ROUNDS,
                over: false,
            }),
    {
        let s = Session::new_without_recovery(device, config);
        let d = s.recover();
        (s, d)
    }

    /// Starts a session and skips the recovery step.
    pub fn new_without_recovery(device: MtpDevice, config: Config) -> (r: Self)
        requires
            config.packet <= usize::MAX,
        ensures
            r@ == (SessionView {
                device,
                transaction: 0,
                config: config.corrected(),
                session_open: false,
            }),
            r@.config.wf(),
    {
        Session { device, transaction: 0, config: config.normalised(), session_open: false }
    }

    /// The configuration the session uses.
    pub fn config(&self) -> (r: Config)
        ensures
            r == self@.config,
    {
        self.config
    }

    /// The speed of the USB link to the device.
    pub fn speed(&self) -> (r: LinkSpeed)
        ensures
            r == device::speed_of(self@.device.device.speed_value),
    {
        self.device.speed()
    }

    /// The request that reads what the device says it can do, from the BOS descriptor.
    ///
    /// A device that runs at high speed and reports super speed has a cable or a port that cannot do
    /// more. The answer does not change with the link.
    pub fn device_capabilities(&self) -> (r: Result<ControlRequest, UsbError>)
        ensures
            r == device::control(
                device::REQUEST_TYPE_IN_STANDARD_DEVICE,
                device::REQUEST_GET_DESCRIPTOR,
                device::DESCRIPTOR_TYPE_BOS,
                0,
                device::BOS_DESCRIPTOR_MAX,
                self@.config.timeout,
            ),
    {
        self.device.device.bos_descriptor_raw(self.config.timeout)
    }

    /// What the answer to a reset of the device means.
    ///
    /// The device starts again after a reset, and its node name can change.
    pub fn reset_device(&self, code: i32) -> (r: Result<(), UsbError>)
        ensures
            r == (if code == 0 {
                Ok::<(), UsbError>(())
            } else {
                Err(UsbError::Reset(code))
            }),
    {
        self.device.reset(code)
    }

    /// Changes the size of one read.
    pub fn set_read_buffer(&mut self, bytes: usize)
        requires
            old(self)@.config.wf(),
        ensures
            final(self)@ == (SessionView {
                config: Config {
                    read_buffer: config::usable_read_buffer(bytes),
                    ..old(self)@.config
                },
                ..old(self)@
            }),
            final(self)@.config.wf(),
    {
        self.config.read_buffer = if bytes < READ_BUFFER_MIN {
            READ_BUFFER_MIN
        } else {
            bytes
        };
    }

    /// Takes the next transaction id.
    pub fn next_transaction(&mut self) -> (r: u32)
        ensures
            r == old(self)@.transaction,
            final(self)@ == old(self)@.taken(),
    {
        let tid: u32 = self.transaction;
        self.transaction = self.transaction.wrapping_add(1);
        tid
    }

    /// The transfer that writes bytes to the device.
    pub fn write_all(&self, bytes: &[u8]) -> (r: Result<Transfer, UsbError>)
        ensures
            r == device::transfer_of(
                self@.device.channels.write.endpoint,
                bytes@.len() as int,
                self@.config.timeout,
            ),
    {
        self.device.channels().write.write(bytes, self.config.timeout)
    }

    /// The transfer that reads from the device.
    pub fn read_once(&self, capacity: usize) -> (r: Result<Transfer, UsbError>)
        ensures
            r == device::transfer_of(
                self@.device.channels.read.endpoint,
                capacity as int,
                self@.config.timeout,
            ),
    {
        self.device.channels().read.read(capacity, self.config.timeout)
    }

    /// Starts one operation that collects the answer in memory.
    pub fn operation(&mut self, step: &'static str, code: u16, params: &[u32]) -> (r: Exchange)
        requires
            old(self)@.config.wf(),
        ensures
            final(self)@ == old(self)@.taken(),
            r@ == old(self)@.started(step, code, params@, None, None, true),
            r@.wf(),
    {
        let tid: u32 = self.next_transaction();
        let command = container::build_command(code, tid, params);
        Exchange::start(step, self.config.read_buffer, command, None, None, true)
    }

    /// Starts one operation whose answer goes to the caller, transfer by transfer.
    ///
    /// The payload is not held in memory. A file of 10 GB therefore needs no memory of 10 GB.
    pub fn operation_stream(&mut self, step: &'static str, code: u16, params: &[u32]) -> (r: Exchange)
        requires
            old(self)@.config.wf(),
        ensures
            final(self)@ == old(self)@.taken(),
            r@ == old(self)@.started(step, code, params@, None, None, false),
            r@.wf(),
    {
        let tid: u32 = self.next_transaction();
        let command = container::build_command(code, tid, params);
        Exchange::start(step, self.config.read_buffer, command, None, None, false)
    }

    /// Starts one operation that sends a payload the caller holds in memory.
    ///
    /// A payload that the length field cannot count is a fault, before anything is sent.
    pub fn operation_with_data(
        &mut self,
        step: &'static str,
        code: u16,
        params: &[u32],
        payload: Vec<u8>,
    ) -> (r: Result<Exchange, SessionError>)
        requires
            old(self)@.config.wf(),
        ensures
            match r {
                Ok(x) => {
                    &&& payload@.len() <= MAX_PAYLOAD_LEN
                    &&& final(self)@ == old(self)@.taken()
                    &&& x@ == old(self)@.started(
                        step,
                        code,
                        params@,
                        Some(old(self)@.sender(code, payload@.len() as u64)),
                        Some(payload@),
                        true,
                    )
                    &&& x@.wf()
                },
                Err(e) => {
                    &&& payload@.len() > MAX_PAYLOAD_LEN
                    &&& final(self)@ == old(self)@
                    &&& e == too_large(step, payload@.len() as u64)
                },
            },
    {
        let size: u64 = payload.len() as u64;
        self.send(step, code, params, size, Some(payload))
    }

    /// Starts one operation that sends a payload from a reader of the caller.
    ///
    /// The host holds one block, and not the whole payload. `size` must be the count of bytes the
    /// reader gives: MTP needs the size before the bytes, and the device reads exactly that count.
    pub fn operation_sending(&mut self, step: &'static str, code: u16, params: &[u32], size: u64) -> (r:
        Result<Exchange, SessionError>)
        requires
            old(self)@.config.wf(),
        ensures
            match r {
                Ok(x) => {
                    &&& size <= MAX_PAYLOAD_LEN
                    &&& final(self)@ == old(self)@.taken()
                    &&& x@ == old(self)@.started(
                        step,
                        code,
                        params@,
                        Some(old(self)@.sender(code, size)),
                        None,
                        true,
                    )
                    &&& x@.wf()
                },
                Err(e) => {
                    &&& size > MAX_PAYLOAD_LEN
                    &&& final(self)@ == old(self)@
                    &&& e == too_large(step, size)
                },
            },
    {
        self.send(step, code, params, size, None)
    }

    /// Starts one operation that sends a payload, from memory or from the caller.
    fn send(
        &mut self,
        step: &'static str,
        code: u16,
        params: &[u32],
        size: u64,
        source: Option<Vec<u8>>,
    ) -> (r: Result<Exchange, SessionError>)
        requires
            old(self)@.config.wf(),
            source is Some ==> source->0@.len() == size,
        ensures
            match r {
                Ok(x) => {
                    &&& size <= MAX_PAYLOAD_LEN
                    &&& final(self)@ == old(self)@.taken()
                    &&& x@ == old(self)@.started(
                        step,
                        code,
                        params@,
                        Some(old(self)@.sender(code, size)),
                        crate::session::exchange::contents(source),
                        true,
                    )
                    &&& x@.wf()
                },
                Err(e) => {
                    &&& size > MAX_PAYLOAD_LEN
                    &&& final(self)@ == old(self)@
                    &&& e == too_large(step, size)
                },
            },
    {
        match container::container_length(size) {
            Ok(_) => {},
            Err(source) => {
                return Err(SessionError::Build { step, source });
            },
        }
        let tid: u32 = self.next_transaction();
        let command = container::build_command(code, tid, params);
        let sender = Sender {
            code,
            transaction_id: tid,
            size,
            chunk: self.config.write_chunk,
            packet: self.config.packet,
            sent: 0,
            started: false,
        };
        proof {
            let chunk = sender.chunk as int;
            vstd::arithmetic::div_mod::lemma_small_mod(0, chunk as nat);
        }
        Ok(
            Exchange::start(
                step,
                self.config.read_buffer,
                command,
                Some(sender),
                source,
                true,
            ),
        )
    }

    /// The drain that puts the endpoints in a known state.
    ///
    /// The host clears the halt condition on both endpoints first, and then reads and drops the bytes
    /// the device still holds. A user does not need to pull the cable.
    pub fn recover(&self) -> (r: Drain)
        ensures
            r == (Drain {
                capacity: self@.config.read_buffer,
                dropped: 0,
                left: crate::session::answer::MAX_READ_ROUNDS,
                over: false,
            }),
    {
        self.drain()
    }

    /// The drain that drops the bytes the device still holds for the host.
    pub fn drain(&self) -> (r: Drain)
        ensures
            r == (Drain {
                capacity: self@.config.read_buffer,
                dropped: 0,
                left: crate::session::answer::MAX_READ_ROUNDS,
                over: false,
            }),
    {
        Drain::new(self.config.read_buffer)
    }

    /// Starts `OpenSession` with a session id.
    pub fn open_session(&mut self, id: u32) -> (r: Exchange)
        requires
            old(self)@.config.wf(),
        ensures
            final(self)@ == old(self)@.taken(),
            r@ == old(self)@.started("OpenSession", op::OPEN_SESSION, seq![id], None, None, true),
            r@.wf(),
    {
        let params: [u32; 1] = [id];
        proof {
            assert(params@ =~= seq![id]);
        }
        self.operation("OpenSession", op::OPEN_SESSION, &params)
    }

    /// Takes in the answer to `OpenSession`. A device that already has a session has it open too.
    pub fn opened(&mut self, out: &Outcome)
        ensures
            final(self)@ == old(self)@.after_open(out.response_code),
    {
        if out.is_ok() || out.response_code == resp::SESSION_ALREADY_OPEN {
            self.session_open = true;
        }
    }

    /// Starts `CloseSession`.
    pub fn close_session(&mut self) -> (r: Exchange)
        requires
            old(self)@.config.wf(),
        ensures
            final(self)@ == old(self)@.taken(),
            r@ == old(self)@.started(
                "CloseSession",
                op::CLOSE_SESSION,
                Seq::empty(),
                None,
                None,
                true,
            ),
            r@.wf(),
    {
        let params: [u32; 0] = [];
        proof {
            assert(params@ =~= Seq::empty());
        }
        self.operation("CloseSession", op::CLOSE_SESSION, &params)
    }

    /// Takes in the answer to `CloseSession`.
    pub fn closed(&mut self, out: &Outcome)
        ensures
            final(self)@ == old(self)@.after_close(out.response_code),
    {
        if out.is_ok() {
            self.session_open = false;
        }
    }

    /// Says whether the session is to be closed before the host lets it go.
    ///
    /// A command that fails leaves the session open. The next program then meets a device that
    /// answers "session already open", and the fault looks like a broken device.
    pub fn needs_close(&self) -> (r: bool)
        ensures
            r == self@.session_open,
    {
        self.session_open
    }
}

/// The transaction ids of one operation after the other count up by one, and wrap behind the largest.
pub proof fn law_transactions_count_up(s: SessionView)
    ensures
        s.taken().transaction == (s.transaction + 1) % 0x1_0000_0000,
        s.taken().taken().transaction == (s.transaction + 2) % 0x1_0000_0000,
        s.taken().transaction != s.transaction,
{
}

/// A session counts as open from the answer that says so up to the answer that it is closed.
pub proof fn law_an_open_session_stays_open_until_it_is_closed(s: SessionView, code: u16)
    ensures
        s.after_open(0x2001).session_open,
        s.after_open(0x201e).session_open,
        !s.after_close(0x2001).session_open,
        s.session_open && code != 0x2001 ==> s.after_close(code).session_open,
        s.session_open ==> s.after_open(code).session_open && s.taken().session_open,
        !s.session_open && code != 0x2001 && code != 0x201e
            ==> !s.after_open(code).session_open,
{
}

/// An operation without a data phase starts by writing one command container, whose bytes name the operation,
/// the transaction of the session and every parameter, and then reads the answer with reads of the configured
/// size.
pub proof fn law_an_operation_starts_with_its_command(
    s: SessionView,
    step: &'static str,
    code: u16,
    params: Seq<u32>,
    collect: bool,
)
    requires
        params.len() <= 5,
        s.config.wf(),
    ensures
        ({
            let x = s.started(step, code, params, None, None, collect);
            let c = x.phase->Command_0;
            let y = x.after_write(Ok(()));
            &&& x.step == step
            &&& x.phase is Command
            &&& x.capacity == s.config.read_buffer
            &&& c.len() == 12 + 4 * params.len()
            &&& bytes::u32_at(c, 0) == c.len()
            &&& bytes::u16_at(c, 4) == 1
            &&& bytes::u16_at(c, 6) == code
            &&& bytes::u32_at(c, 8) == s.transaction
            &&& forall|i: int|
                0 <= i < params.len() ==> bytes::u32_at(c, 12 + 4 * i) == #[trigger] params[i]
            &&& y.phase == PhaseView::Read(AnswerState::First)
            &&& y.capacity == x.capacity
            &&& collect ==> y.sink == Some(Seq::<u8>::empty())
            &&& !collect ==> y.sink is None
        }),
{
    container::law_what_a_command_holds(code, s.transaction, params);
}

/// An operation that sends a payload writes its command, and behind it a data container that holds all of the
/// payload: the length of the payload and 12, the kind of data, the same code and transaction, and then every
/// byte.
pub proof fn law_an_operation_sends_its_payload(
    s: SessionView,
    step: &'static str,
    code: u16,
    params: Seq<u32>,
    payload: Seq<u8>,
)
    requires
        params.len() <= 5,
        s.config.wf(),
        payload.len() + 12 <= u32::MAX,
    ensures
        ({
            let x = s.started(
                step,
                code,
                params,
                Some(s.sender(code, payload.len() as u64)),
                Some(payload),
                true,
            );
            let log = exchange::write_log(x);
            let data = answer::all_bytes(log.skip(1));
            let c = log[0];
            &&& x.wf()
            &&& c.len() == 12 + 4 * params.len()
            &&& bytes::u32_at(c, 0) == c.len()
            &&& bytes::u16_at(c, 4) == 1
            &&& bytes::u16_at(c, 6) == code
            &&& bytes::u32_at(c, 8) == s.transaction
            &&& forall|i: int|
                0 <= i < params.len() ==> bytes::u32_at(c, 12 + 4 * i) == #[trigger] params[i]
            &&& data.len() == 12 + payload.len()
            &&& bytes::u32_at(data, 0) == data.len()
            &&& bytes::u16_at(data, 4) == 2
            &&& bytes::u16_at(data, 6) == code
            &&& bytes::u32_at(data, 8) == s.transaction
            &&& data.skip(12) == payload
        }),
{
    let sender = s.sender(code, payload.len() as u64);
    let x = s.started(step, code, params, Some(sender), Some(payload), true);
    container::law_what_a_command_holds(code, s.transaction, params);
    assert(sender.wf()) by {
        vstd::arithmetic::div_mod::lemma_small_mod(0, sender.chunk as nat);
    }
    exchange::law_an_operation_writes_its_data_phase(x);
    sending::law_writes_send_everything(sender, payload);
    let log = exchange::write_log(x);
    assert(log.skip(1) =~= sending::writes(sender, payload));
    let whole = sending::data_phase(sender, payload);
    assert(whole.skip(0) =~= whole);
    container::law_a_container_is_what_its_bytes_say(whole);
    container::law_header_round_trip(sender.header(), payload);
    assert(whole.skip(12) =~= payload);
}

/// Whether an operation starts with the command of this code and these parameters, in the transaction that is
/// due, sends no payload, and reads with the configured size.
pub open spec fn starts(x: ExchangeView, s: SessionView, code: u16, params: Seq<u32>) -> bool {
    &&& x.phase is Command
    &&& container::is_command(x.phase->Command_0, code, s.transaction, params)
    &&& x.sender is None
    &&& x.source is None
    &&& x.capacity == s.config.read_buffer
}

/// Whether a session took one transaction, and nothing else of it changed.
pub open spec fn took_one(s: SessionView, t: SessionView) -> bool {
    &&& t.transaction == (s.transaction + 1) % 0x1_0000_0000
    &&& t.device == s.device
    &&& t.config == s.config
    &&& t.session_open == s.session_open
}

/// Every operation takes one transaction of its session and starts with the command that it is for. One that
/// collects keeps what it reads, and one that streams does not. Opening a session is 0x1002 with its number,
/// and closing it is 0x1003.
pub proof fn law_every_operation_takes_one_transaction(
    step: &'static str,
    code: u16,
    params: &[u32],
    id: u32,
)
    requires
        params@.len() <= 5,
    ensures
        forall|s: &mut Session, x: Exchange| #[trigger]
            call_ensures(Session::operation, (s, step, code, params), x) && (*s)@.config.wf() ==> {
                &&& starts(x@, (*s)@, code, params@)
                &&& x@.step == step
                &&& x@.sink == Some(Seq::<u8>::empty())
                &&& took_one((*s)@, final(s)@)
            },
        forall|s: &mut Session, x: Exchange| #[trigger]
            call_ensures(Session::operation_stream, (s, step, code, params), x)
                && (*s)@.config.wf() ==> {
                &&& starts(x@, (*s)@, code, params@)
                &&& x@.step == step
                &&& x@.sink is None
                &&& took_one((*s)@, final(s)@)
            },
        forall|s: &mut Session, x: Exchange| #[trigger]
            call_ensures(Session::open_session, (s, id), x) && (*s)@.config.wf() ==> {
                &&& starts(x@, (*s)@, 0x1002, seq![id])
                &&& x@.sink == Some(Seq::<u8>::empty())
                &&& took_one((*s)@, final(s)@)
            },
        forall|s: &mut Session, x: Exchange| #[trigger]
            call_ensures(Session::close_session, (s,), x) && (*s)@.config.wf() ==> {
                &&& starts(x@, (*s)@, 0x1003, Seq::empty())
                &&& x@.sink == Some(Seq::<u8>::empty())
                &&& took_one((*s)@, final(s)@)
            },
{
    assert forall|s: &mut Session, x: Exchange| #[trigger]
        call_ensures(Session::operation, (s, step, code, params), x)
            && (*s)@.config.wf() implies starts(x@, (*s)@, code, params@) by {
        law_an_operation_starts_with_its_command((*s)@, step, code, params@, true);
    }
    assert forall|s: &mut Session, x: Exchange| #[trigger]
        call_ensures(Session::operation_stream, (s, step, code, params), x)
            && (*s)@.config.wf() implies starts(x@, (*s)@, code, params@) by {
        law_an_operation_starts_with_its_command((*s)@, step, code, params@, false);
    }
    assert forall|s: &mut Session, x: Exchange| #[trigger]
        call_ensures(Session::open_session, (s, id), x) && (*s)@.config.wf() implies starts(
        x@,
        (*s)@,
        0x1002,
        seq![id],
    ) by {
        law_an_operation_starts_with_its_command(
            (*s)@,
            "OpenSession",
            op::OPEN_SESSION,
            seq![id],
            true,
        );
    }
    assert forall|s: &mut Session, x: Exchange| #[trigger]
        call_ensures(Session::close_session, (s,), x) && (*s)@.config.wf() implies starts(
        x@,
        (*s)@,
        0x1003,
        Seq::empty(),
    ) by {
        law_an_operation_starts_with_its_command(
            (*s)@,
            "CloseSession",
            op::CLOSE_SESSION,
            Seq::empty(),
            true,
        );
    }
}

/// An operation can send every payload that the length field counts with the 12 bytes of the header, and no
/// larger one. A payload that is too large takes no transaction.
pub proof fn law_which_payloads_can_be_sent(
    step: &'static str,
    code: u16,
    params: &[u32],
    payload: Vec<u8>,
    size: u64,
)
    ensures
        forall|s: &mut Session, r: Result<Exchange, SessionError>| #[trigger]
            call_ensures(Session::operation_with_data, (s, step, code, params, payload), r) ==> {
                &&& r is Ok <==> payload@.len() + 12 <= u32::MAX
                &&& r is Ok ==> took_one((*s)@, final(s)@) && r->Ok_0@.source == Some(payload@)
                &&& r is Err ==> final(s)@ == (*s)@ && r->Err_0 is Build
                    && r->Err_0->Build_step == step && r->Err_0->Build_source.len
                    == payload@.len() as u64
            },
        forall|s: &mut Session, r: Result<Exchange, SessionError>| #[trigger]
            call_ensures(Session::operation_sending, (s, step, code, params, size), r) ==> {
                &&& r is Ok <==> size + 12 <= u32::MAX
                &&& r is Ok ==> took_one((*s)@, final(s)@) && r->Ok_0@.source is None
                    && r->Ok_0@.sender is Some && r->Ok_0@.sender->0.size == size
                &&& r is Err ==> final(s)@ == (*s)@ && r->Err_0 is Build
                    && r->Err_0->Build_step == step && r->Err_0->Build_source.len == size
            },
{
}

/// What the data phase of an operation is made of: the code and the transaction of the operation, all of the
/// payload, and the chunk and the packet that the session is configured for, with nothing sent yet.
pub proof fn law_what_a_data_phase_starts_with(s: SessionView, code: u16, size: u64)
    ensures
        s.sender(code, size).code == code,
        s.sender(code, size).transaction_id == s.transaction,
        s.sender(code, size).size == size,
        s.sender(code, size).chunk == s.config.write_chunk,
        s.sender(code, size).packet == s.config.packet,
        s.sender(code, size).sent == 0,
        !s.sender(code, size).started,
{
}

/// Bytes go to the endpoint to the device, all of them, and reads come from the endpoint to the host, with the
/// timeout of the session.
pub proof fn law_where_transfers_go(
    s: &Session,
    data: &[u8],
    capacity: usize,
    w: Result<Transfer, UsbError>,
    r: Result<Transfer, UsbError>,
    wait: Result<u32, UsbError>,
)
    requires
        call_ensures(Session::write_all, (s, data), w),
        call_ensures(Session::read_once, (s, capacity), r),
        call_ensures(device::timeout_millis, (s@.config.timeout,), wait),
    ensures
        wait is Ok ==> {
            &&& w is Ok && r is Ok
            &&& w->Ok_0.endpoint == s@.device.channels.write.endpoint
            &&& r->Ok_0.endpoint == s@.device.channels.read.endpoint
            &&& data@.len() <= u32::MAX ==> w->Ok_0.length == data@.len()
            &&& capacity <= u32::MAX ==> r->Ok_0.length == capacity
            &&& w->Ok_0.timeout_ms == wait->Ok_0 && r->Ok_0.timeout_ms == wait->Ok_0
        },
        wait is Err ==> w is Err && r is Err,
{
}

/// A session that starts has taken no transaction and is not open, and drains with reads of its size. The size
/// of a read can be changed, to no less than 512 bytes.
pub proof fn law_how_a_session_starts(
    device: MtpDevice,
    c: Config,
    r: (Session, Drain),
    bytes: usize,
)
    requires
        c.packet <= usize::MAX,
        call_ensures(Session::new, (device, c), r),
    ensures
        ({
            let (s, d) = r;
            &&& s@.device == device
            &&& s@.transaction == 0
            &&& !s@.session_open
            &&& s@.config == c.corrected()
            &&& d.capacity == c.corrected().read_buffer
            &&& d.dropped == 0
            &&& !d.over
            &&& d.left == 0x800_0000
        }),
        forall|s: &mut Session| #[trigger]
            call_ensures(Session::set_read_buffer, (s, bytes), ()) ==> {
                &&& bytes >= 512 ==> final(s)@.config.read_buffer == bytes
                &&& bytes < 512 ==> final(s)@.config.read_buffer == 512
                &&& final(s)@.config.packet == (*s)@.config.packet
                &&& final(s)@.config.write_chunk == (*s)@.config.write_chunk
                &&& final(s)@.config.timeout == (*s)@.config.timeout
                &&& final(s)@.transaction == (*s)@.transaction
                &&& final(s)@.session_open == (*s)@.session_open
            },
{
}

} // verus!
