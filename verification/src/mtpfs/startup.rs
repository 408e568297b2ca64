//! Starting the backend: the endpoints are cleared, a session is opened, and the host learns what the
//! device can do and which storage it has.
//!
//! A device can answer with no storage for a short time after a connect, so the host asks again.

use vstd::prelude::*;

use crate::mtpfs::backend;
use crate::mtpfs::backend::{Mtp, MtpView, OP_GET_DEVICE_INFO, OP_GET_STORAGE_IDS};
use crate::mtpfs::error;
use crate::mtpfs::error::Error;
use crate::ptp::bytes;
use crate::ptp::device_info;
use crate::ptp::device_info::DeviceInfo;
use crate::ptp::op;
use crate::ptp::reader;
use crate::ptp::resp;
use crate::session::config::Config;
use crate::session::drain::Drain;
use crate::session::error::SessionError;
use crate::session::exchange::{Exchange, ExchangeView};
use crate::session::outcome::Outcome;
use crate::session::repair;
use crate::session::repair::{Repair, RepairStep, StepView};
use crate::session::state::{Session, SessionView};
use crate::time::Duration;
use crate::usb::device::MtpDevice;

verus! {

/// The session that a mount opens.
pub const SESSION_ID: u32 = 1;
/// The largest count of times the host asks for the storages.
pub const STORAGE_ATTEMPTS: u32 = 10;
/// The time between two of them, in milliseconds.
pub const STORAGE_WAIT_MILLIS: u64 = 300;

/// The largest count of times the host tries to start a backend.
pub const OPEN_ATTEMPTS: u32 = 10;
/// The time between two of them, in milliseconds.
pub const OPEN_WAIT_MILLIS: u64 = 300;

/// Where the start of a backend stands.
#[derive(Debug)]
pub enum Stage {
    /// The first drain is due.
    Draining,
    /// The session is being opened.
    Opening(Repair),
    /// What the device is, is being read.
    Info,
    /// The storages are being read, for the time that the count says.
    Storage { info: DeviceInfo, partial_read: u16, attempt: u32 },
}

/// The start of a backend.
#[derive(Debug)]
pub struct Startup {
    session: Session,
    stage: Stage,
}

/// What a [`Startup`] holds.
pub struct StartupView {
    /// The session.
    pub session: SessionView,
    /// Where the start stands.
    pub stage: Stage,
}

impl View for Startup {
    type V = StartupView;

    closed spec fn view(&self) -> StartupView {
        StartupView { session: self.session@, stage: self.stage }
    }
}

/// What the host has to do next.
#[derive(Debug)]
pub enum StartupStep {
    /// Clear both endpoints, do this drain, and report the count of dropped bytes.
    Drain(Startup, Drain),
    /// Do this operation, and report its outcome.
    Exchange(Startup, Exchange),
    /// Wait for this time, and report that.
    Wait(Startup, Duration),
    /// Nothing: the backend is ready.
    Ready(Mtp),
    /// Nothing: the backend cannot start. The session is to be closed where it is open.
    Failed(Session, Error),
}

/// The operation for a partial read that a device supports. A 64 bit offset is right for a large file.
pub open spec fn partial_read_of(operations: Seq<u16>) -> Option<u16> {
    if operations.contains(op::GET_PARTIAL_OBJECT_64) {
        Some(op::GET_PARTIAL_OBJECT_64)
    } else if operations.contains(op::GET_PARTIAL_OBJECT) {
        Some(op::GET_PARTIAL_OBJECT)
    } else {
        None
    }
}

/// Chooses the operation for a partial read.
pub fn choose_partial_read(info: &DeviceInfo) -> (r: Option<u16>)
    ensures
        r == partial_read_of(info.operations_supported@),
{
    if info.supports(op::GET_PARTIAL_OBJECT_64) {
        Some(op::GET_PARTIAL_OBJECT_64)
    } else if info.supports(op::GET_PARTIAL_OBJECT) {
        Some(op::GET_PARTIAL_OBJECT)
    } else {
        None
    }
}

/// The first storage in an answer to `GetStorageIDs`.
pub open spec fn first_storage_of(data: Seq<u8>) -> Option<u32> {
    if data.len() >= 8 {
        Some(bytes::u32_at(data, 4))
    } else {
        None
    }
}

/// Gives the first storage in an answer to `GetStorageIDs`.
pub fn first_storage(data: &[u8]) -> (r: Option<u32>)
    ensures
        r == first_storage_of(data@),
{
    if data.len() >= 8 {
        Some(bytes::read_u32_at(data, 4))
    } else {
        None
    }
}

/// What an answer to `GetStorageIDs` leads to.
pub enum StorageNext {
    /// The host uses this storage.
    Use(u32),
    /// The host waits and asks again, for the time that the count says.
    AskAgain(u32),
    /// The device has no storage.
    GiveUp,
}

/// What the answer to the request with this count leads to.
pub open spec fn after_storages(attempt: u32, storage: Option<u32>) -> StorageNext {
    match storage {
        Some(id) => StorageNext::Use(id),
        None => if attempt < STORAGE_ATTEMPTS {
            StorageNext::AskAgain((attempt + 1) as u32)
        } else {
            StorageNext::GiveUp
        },
    }
}

/// What these answers lead to, one after the other, as far as the host asks for them.
pub open spec fn after_all_storages(attempt: u32, answers: Seq<Option<u32>>) -> StorageNext
    decreases answers.len(),
{
    if answers.len() == 0 {
        StorageNext::AskAgain(attempt)
    } else {
        match after_storages(attempt, answers[0]) {
            StorageNext::AskAgain(next) => after_all_storages(next, answers.skip(1)),
            other => other,
        }
    }
}

/// A device that reports its storage late is waited for: the host takes the first storage that one of
/// ten answers reports, and gives up only where none of them reports one.
pub proof fn law_a_late_storage_is_found(answers: Seq<Option<u32>>)
    requires
        answers.len() == 10,
    ensures
        match after_all_storages(1, answers) {
            StorageNext::Use(id) => exists|k: int|
                0 <= k < answers.len() && #[trigger] answers[k] == Some(id) && forall|j: int|
                    0 <= j < k ==> #[trigger] answers[j] is None,
            StorageNext::AskAgain(_) => false,
            StorageNext::GiveUp => forall|k: int|
                0 <= k < answers.len() ==> #[trigger] answers[k] is None,
        },
{
    lemma_storages_from(1, answers);
}

proof fn lemma_storages_from(attempt: u32, answers: Seq<Option<u32>>)
    requires
        1 <= attempt <= STORAGE_ATTEMPTS,
        answers.len() == STORAGE_ATTEMPTS - attempt + 1,
    ensures
        match after_all_storages(attempt, answers) {
            StorageNext::Use(id) => exists|k: int|
                0 <= k < answers.len() && #[trigger] answers[k] == Some(id) && forall|j: int|
                    0 <= j < k ==> #[trigger] answers[j] is None,
            StorageNext::AskAgain(_) => false,
            StorageNext::GiveUp => forall|k: int|
                0 <= k < answers.len() ==> #[trigger] answers[k] is None,
        },
    decreases answers.len(),
{
    if answers[0] is None && attempt < STORAGE_ATTEMPTS {
        let rest = answers.skip(1);
        lemma_storages_from((attempt + 1) as u32, rest);
        match after_all_storages((attempt + 1) as u32, rest) {
            StorageNext::Use(id) => {
                let k = choose|k: int|
                    0 <= k < rest.len() && #[trigger] rest[k] == Some(id) && forall|j: int|
                        0 <= j < k ==> #[trigger] rest[j] is None;
                assert(answers[k + 1] == Some(id));
                assert forall|j: int| 0 <= j < k + 1 implies #[trigger] answers[j] is None by {
                    if j > 0 {
                        assert(rest[j - 1] is None);
                    }
                }
            },
            StorageNext::GiveUp => {
                assert forall|k: int| 0 <= k < answers.len() implies #[trigger] answers[k] is None by {
                    if k > 0 {
                        assert(rest[k - 1] is None);
                    }
                }
            },
            _ => {},
        }
    }
}

/// What a [`StartupStep`] holds, where it goes on.
pub enum NextView {
    Drain(StartupView, Drain),
    Exchange(StartupView, ExchangeView),
    Wait(StartupView, int),
    Failed(SessionView, Error),
}

impl StartupStep {
    /// The step goes on as this view says.
    pub open spec fn is(self, next: NextView) -> bool {
        match next {
            NextView::Drain(s, d) => self is Drain && self->Drain_0@ == s && self->Drain_1 == d,
            NextView::Exchange(s, x) => self is Exchange && self->Exchange_0@ == s
                && self->Exchange_1@ == x && x.wf(),
            NextView::Wait(s, millis) => self is Wait && self->Wait_0@ == s
                && self->Wait_1.nanos() == millis * 1_000_000,
            NextView::Failed(s, e) => self is Failed && self->Failed_0@ == s && self->Failed_1 == e,
        }
    }

    /// The start of a backend that this step carries on can go on.
    pub open spec fn wf(self) -> bool {
        match self {
            StartupStep::Drain(s, _) => s.wf(),
            StartupStep::Exchange(s, x) => s.wf() && x@.wf(),
            StartupStep::Wait(s, _) => s.wf(),
            StartupStep::Ready(m) => m.wf(),
            StartupStep::Failed(s, _) => s@.config.wf(),
        }
    }
}

/// The step that follows a step of opening the session.
pub open spec fn after_opening(s: SessionView, step: StepView) -> NextView {
    match step {
        StepView::Exchange(stage, x) => NextView::Exchange(
            StartupView { session: s, stage: Stage::Opening(stage) },
            x,
        ),
        StepView::Recover(stage, d) => NextView::Drain(
            StartupView { session: s, stage: Stage::Opening(stage) },
            d,
        ),
        StepView::Over(Err(e)) => NextView::Failed(s, error::error_of(e)),
        StepView::Over(Ok(open)) => if open.outcome.response_code != resp::OK {
            NextView::Failed(
                s,
                Error::Device { step: "OpenSession", code: open.outcome.response_code },
            )
        } else {
            NextView::Exchange(
                StartupView { session: s.taken(), stage: Stage::Info },
                s.started("GetDeviceInfo", OP_GET_DEVICE_INFO, Seq::empty(), None, None, true),
            )
        },
    }
}

/// The request for the storages.
pub open spec fn storage_request(
    s: SessionView,
    info: DeviceInfo,
    partial_read: u16,
    attempt: u32,
) -> NextView {
    NextView::Exchange(
        StartupView { session: s.taken(), stage: Stage::Storage { info, partial_read, attempt } },
        s.started("GetStorageIDs", OP_GET_STORAGE_IDS, Seq::empty(), None, None, true),
    )
}

impl Startup {
    /// The session can do operations, and a drain or an outcome is due.
    pub open spec fn wf(&self) -> bool {
        self@.session.config.wf() && match self@.stage {
            Stage::Storage { attempt, .. } => 1 <= attempt <= STORAGE_ATTEMPTS,
            _ => true,
        }
    }

    /// Whether the start waits for a drain.
    pub open spec fn waits_for_drain(&self) -> bool {
        self@.stage is Draining || self@.stage is Opening && self@.stage->Opening_0 is Recovering
    }

    /// Whether the start waits for the outcome of an operation.
    pub open spec fn waits_for_outcome(&self) -> bool {
        !self.waits_for_drain()
    }

    /// The session, for the transfers of an operation.
    pub fn session(&self) -> (r: &Session)
        ensures
            r@ == self@.session,
    {
        &self.session
    }

    /// Goes on with the session after a step of opening it.
    fn opening(session: Session, step: RepairStep) -> (r: StartupStep)
        requires
            session@.config.wf(),
            step is Exchange ==> step->Exchange_1@.wf(),
        ensures
            r.is(after_opening(session@, step@)),
            r.wf(),
    {
        let mut session = session;
        match step {
            RepairStep::Exchange(stage, x) => StartupStep::Exchange(
                Startup { session, stage: Stage::Opening(stage) },
                x,
            ),
            RepairStep::Recover(stage, d) => StartupStep::Drain(
                Startup { session, stage: Stage::Opening(stage) },
                d,
            ),
            RepairStep::Over(Err(e)) => StartupStep::Failed(session, Error::from(e)),
            RepairStep::Over(Ok(open)) => {
                if !open.outcome.is_ok() {
                    return StartupStep::Failed(
                        session,
                        Error::Device { step: "OpenSession", code: open.outcome.response_code },
                    );
                }
                let params: [u32; 0] = [];
                proof {
                    assert(params@ =~= Seq::empty());
                }
                let x = session.operation("GetDeviceInfo", OP_GET_DEVICE_INFO, &params);
                StartupStep::Exchange(Startup { session, stage: Stage::Info }, x)
            },
        }
    }

    /// Asks for the storages.
    fn ask_for_storage(session: Session, info: DeviceInfo, partial_read: u16, attempt: u32) -> (r:
        StartupStep)
        requires
            session@.config.wf(),
            1 <= attempt <= STORAGE_ATTEMPTS,
        ensures
            r.is(storage_request(session@, info, partial_read, attempt)),
            r.wf(),
    {
        let mut session = session;
        let params: [u32; 0] = [];
        proof {
            assert(params@ =~= Seq::empty());
        }
        let x = session.operation("GetStorageIDs", OP_GET_STORAGE_IDS, &params);
        StartupStep::Exchange(
            Startup { session, stage: Stage::Storage { info, partial_read, attempt } },
            x,
        )
    }

    /// Takes in the end of a drain.
    pub fn drained(self, dropped: u64) -> (r: StartupStep)
        requires
            self.wf(),
            self.waits_for_drain(),
        ensures
            r.wf(),
            match self@.stage {
                Stage::Opening(stage) => {
                    let (s, step) = repair::after_recovery(stage, self@.session, dropped);
                    r.is(after_opening(s, step))
                },
                _ => r.is(
                    after_opening(
                        self@.session.taken(),
                        StepView::Exchange(
                            Repair::Opening { id: SESSION_ID },
                            repair::opening(self@.session, SESSION_ID),
                        ),
                    ),
                ),
            },
    {
        let mut session = self.session;
        match self.stage {
            Stage::Draining => {
                let step = session.open_session_or_repair(SESSION_ID);
                Startup::opening(session, step)
            },
            Stage::Opening(stage) => {
                let step = stage.recovered(&mut session, dropped);
                Startup::opening(session, step)
            },
            _ => vstd::pervasive::unreached(),
        }
    }

    /// Takes in the outcome of an operation.
    ///
    /// A device that cannot read part of a file is a fault, because a filesystem cannot work without
    /// that operation.
    pub fn answered(self, r: Result<Outcome, SessionError>) -> (next: StartupStep)
        requires
            self.wf(),
            self.waits_for_outcome(),
        ensures
            next.wf(),
            match self@.stage {
                Stage::Draining => true,
                Stage::Opening(stage) => {
                    let (s, step) = repair::after_answer(stage, self@.session, r);
                    next.is(after_opening(s, step))
                },
                Stage::Info => match backend::payload_of("GetDeviceInfo", r) {
                    Err(e) => next.is(NextView::Failed(self@.session, e)),
                    Ok(data) => match device_info::device_fault(data) {
                        Some(e) => next.is(NextView::Failed(self@.session, Error::Parse(e))),
                        None => match partial_read_of(
                            reader::u16_array_at(data, device_info::list_at(data, 0)),
                        ) {
                            None => next.is(
                                NextView::Failed(self@.session, Error::NoPartialRead),
                            ),
                            Some(partial_read) => {
                                let info = next->Exchange_0@.stage->Storage_info;
                                &&& info.reads(data)
                                &&& next.is(storage_request(self@.session, info, partial_read, 1))
                            },
                        },
                    },
                },
                Stage::Storage { info, partial_read, attempt } => match backend::payload_of(
                    "GetStorageIDs",
                    r,
                ) {
                    Err(e) => next.is(NextView::Failed(self@.session, e)),
                    Ok(data) => match after_storages(attempt, first_storage_of(data)) {
                        StorageNext::Use(storage) => next is Ready && next->Ready_0@ == (MtpView {
                            session: self@.session,
                            storage,
                            partial_read,
                            info,
                        }),
                        StorageNext::AskAgain(attempt) => next.is(
                            NextView::Wait(
                                StartupView {
                                    session: self@.session,
                                    stage: Stage::Storage { info, partial_read, attempt },
                                },
                                STORAGE_WAIT_MILLIS as int,
                            ),
                        ),
                        StorageNext::GiveUp => next.is(
                            NextView::Failed(self@.session, Error::NoStorage),
                        ),
                    },
                },
            },
    {
        let mut session = self.session;
        match self.stage {
            Stage::Draining => vstd::pervasive::unreached(),
            Stage::Opening(stage) => {
                let step = stage.answered(&mut session, r);
                Startup::opening(session, step)
            },
            Stage::Info => {
                let data = match backend::payload("GetDeviceInfo", r) {
                    Err(e) => {
                        return StartupStep::Failed(session, e);
                    },
                    Ok(d) => d,
                };
                let info = match DeviceInfo::parse(data.as_slice()) {
                    Err(e) => {
                        return StartupStep::Failed(session, Error::from(e));
                    },
                    Ok(i) => i,
                };
                match choose_partial_read(&info) {
                    None => StartupStep::Failed(session, Error::NoPartialRead),
                    Some(partial_read) => Startup::ask_for_storage(
                        session,
                        info,
                        partial_read,
                        1,
                    ),
                }
            },
            Stage::Storage { info, partial_read, attempt } => {
                let data = match backend::payload("GetStorageIDs", r) {
                    Err(e) => {
                        return StartupStep::Failed(session, e);
                    },
                    Ok(d) => d,
                };
                match first_storage(data.as_slice()) {
                    Some(storage) => StartupStep::Ready(
                        Mtp::new(session, info, partial_read, storage),
                    ),
                    None => {
                        if attempt < STORAGE_ATTEMPTS {
                            let stage = Stage::Storage {
                                info,
                                partial_read,
                                attempt: attempt + 1,
                            };
                            StartupStep::Wait(
                                Startup { session, stage },
                                Duration::from_millis(STORAGE_WAIT_MILLIS),
                            )
                        } else {
                            StartupStep::Failed(session, Error::NoStorage)
                        }
                    },
                }
            },
        }
    }

    /// Takes in the end of a wait, and asks for the storages again.
    pub fn waited(self) -> (r: StartupStep)
        requires
            self.wf(),
            self@.stage is Storage,
        ensures
            r.is(
                storage_request(
                    self@.session,
                    self@.stage->Storage_info,
                    self@.stage->Storage_partial_read,
                    self@.stage->Storage_attempt,
                ),
            ),
            r.wf(),
    {
        match self.stage {
            Stage::Storage { info, partial_read, attempt } => Startup::ask_for_storage(
                self.session,
                info,
                partial_read,
                attempt,
            ),
            _ => vstd::pervasive::unreached(),
        }
    }
}

/// Says how long to wait before the host starts a backend again, after an attempt that failed, or `None`
/// where another attempt is not worth it.
///
/// A program that closes a session leaves the device busy for a moment, and the next start then fails with
/// a transfer that timed out.
pub fn wait_before_retry(attempt: u32, fault: &Error) -> (r: Option<Duration>)
    ensures
        match r {
            Some(time) => fault.passes() && attempt < OPEN_ATTEMPTS && time.nanos()
                == OPEN_WAIT_MILLIS * 1_000_000,
            None => !fault.passes() || attempt >= OPEN_ATTEMPTS,
        },
{
    if fault.can_pass() && attempt < OPEN_ATTEMPTS {
        Some(Duration::from_millis(OPEN_WAIT_MILLIS))
    } else {
        None
    }
}

impl Mtp {
    /// Starts a backend on an open device.
    pub fn open(device: MtpDevice, config: Config) -> (r: StartupStep)
        requires
            config.packet <= usize::MAX,
        ensures
            r.is(
                NextView::Drain(
                    StartupView {
                        session: SessionView {
                            device,
                            transaction: 0,
                            config: config.corrected(),
                            session_open: false,
                        },
                        stage: Stage::Draining,
                    },
                    Drain {
                        capacity: config.corrected().read_buffer,
                        dropped: 0,
                        left: crate::session::answer::MAX_READ_ROUNDS,
                        over: false,
                    },
                ),
            ),
            r.wf(),
    {
        let (session, d) = Session::new(device, config);
        StartupStep::Drain(Startup { session, stage: Stage::Draining }, d)
    }
}

/// The partial read with 64 bits of offset comes first, and the one with 32 bits is taken where a device has no
/// other. A device with neither cannot be mounted.
pub proof fn law_which_partial_read_is_taken(info: &DeviceInfo, r: Option<u16>)
    requires
        call_ensures(choose_partial_read, (info,), r),
    ensures
        info.operations_supported@.contains(0x95c1) ==> r == Some(0x95c1u16),
        !info.operations_supported@.contains(0x95c1) && info.operations_supported@.contains(0x101b)
            ==> r == Some(0x101bu16),
        !info.operations_supported@.contains(0x95c1) && !info.operations_supported@.contains(0x101b)
            ==> r is None,
{
}

/// The storage that is used is the first value of the array that the device answers with, for every value. An
/// empty array has none.
pub proof fn law_the_first_storage_is_used(
    v: Seq<u32>,
    tail: Seq<u8>,
    data: &[u8],
    r: Option<u32>,
)
    requires
        v.len() <= u32::MAX,
        tail.len() < 4,
        data@ == bytes::u32_bytes(v.len() as u32) + bytes::u32_list_bytes(v) + tail,
        call_ensures(first_storage, (data,), r),
    ensures
        v.len() > 0 ==> r == Some(v[0]),
        v.len() == 0 ==> r is None,
{
    let count = bytes::u32_bytes(v.len() as u32);
    bytes::lemma_u32_list_len(v);
    if v.len() > 0 {
        bytes::lemma_u32_list_at(v, count, tail, 0);
    }
}

/// What follows on an opened session. Only an answer of 0x2001 goes on, with a command that asks what the
/// device is. Any other answer is a fault with its code, and a fault of the session stays one.
pub proof fn law_what_follows_an_opened_session(s: SessionView, step: StepView)
    requires
        step is Over,
        s.config.wf(),
    ensures
        step->Over_0 is Ok && step->Over_0->Ok_0.outcome.response_code == 0x2001 ==> {
            let next = after_opening(s, step);
            let c = next->Exchange_1.phase->Command_0;
            &&& next is Exchange
            &&& next->Exchange_0.stage is Info
            &&& next->Exchange_0.session == s.taken()
            &&& c.len() == 12
            &&& bytes::u16_at(c, 6) == 0x1001
            &&& bytes::u32_at(c, 8) == s.transaction
        },
        step->Over_0 is Ok && step->Over_0->Ok_0.outcome.response_code != 0x2001 ==> after_opening(
            s,
            step,
        ) == NextView::Failed(
            s,
            Error::Device {
                step: "OpenSession",
                code: step->Over_0->Ok_0.outcome.response_code,
            },
        ),
        step->Over_0 is Err ==> after_opening(s, step) is Failed,
{
    crate::session::state::law_an_operation_starts_with_its_command(
        s,
        "GetDeviceInfo",
        OP_GET_DEVICE_INFO,
        Seq::empty(),
        true,
    );
}

/// What asking for the storages does: it takes a transaction for the command 0x1004, and keeps what is known of
/// the device, the partial read and the attempt.
pub proof fn law_how_storages_are_asked_for(
    s: SessionView,
    info: DeviceInfo,
    partial_read: u16,
    attempt: u32,
)
    requires
        s.config.wf(),
    ensures
        ({
            let next = storage_request(s, info, partial_read, attempt);
            let c = next->Exchange_1.phase->Command_0;
            &&& next is Exchange
            &&& next->Exchange_0.stage == (Stage::Storage { info, partial_read, attempt })
            &&& next->Exchange_0.session == s.taken()
            &&& c.len() == 12
            &&& bytes::u16_at(c, 6) == 0x1004
            &&& bytes::u32_at(c, 8) == s.transaction
        }),
{
    crate::session::state::law_an_operation_starts_with_its_command(
        s,
        "GetStorageIDs",
        OP_GET_STORAGE_IDS,
        Seq::empty(),
        true,
    );
}

/// A fault of the transport or of the session is tried again after 300 milliseconds, up to the tenth attempt.
/// No other fault is.
pub proof fn law_which_faults_are_tried_again(attempt: u32, fault: &Error, r: Option<Duration>)
    requires
        call_ensures(wait_before_retry, (attempt, fault), r),
    ensures
        r is Some <==> attempt < 10 && (fault is Usb || fault is Session),
        r is Some ==> r->0.nanos() == 300_000_000,
{
}

/// A device whose answer to `GetDeviceInfo` lists a partial read is asked for its storages, with the partial
/// read that it has. The first storage of the array that it answers with is mounted, with that partial read. A
/// device that lists none of them, or that stays without a storage, cannot be mounted.
pub proof fn law_what_a_mount_uses(
    st: Startup,
    info: DeviceInfo,
    partial_read: u16,
    attempt: u32,
    v: Seq<u32>,
    out: Outcome,
    next: StartupStep,
)
    requires
        st.wf(),
        st@.stage == (Stage::Storage { info, partial_read, attempt }),
        out.response_code == 0x2001,
        v.len() <= u32::MAX,
        out.data@ == bytes::u32_bytes(v.len() as u32) + bytes::u32_list_bytes(v),
        call_ensures(Startup::answered, (st, Ok(out)), next),
    ensures
        v.len() > 0 ==> {
            &&& next is Ready
            &&& next->Ready_0@.storage == v[0]
            &&& next->Ready_0@.partial_read == partial_read
            &&& next->Ready_0@.info == info
            &&& next->Ready_0@.session == st@.session
        },
        v.len() == 0 && attempt < 10 ==> {
            &&& next is Wait
            &&& next->Wait_1.nanos() == 300_000_000
            &&& next->Wait_0@.session == st@.session
            &&& next->Wait_0@.stage == (Stage::Storage {
                info,
                partial_read,
                attempt: (attempt + 1) as u32,
            })
        },
        v.len() == 0 && attempt == 10 ==> next is Failed && next->Failed_1 is NoStorage
            && next->Failed_0@ == st@.session,
{
    bytes::lemma_u32_list_len(v);
    if v.len() > 0 {
        bytes::lemma_u32_list_at(v, bytes::u32_bytes(v.len() as u32), Seq::empty(), 0);
        assert(out.data@ + Seq::<u8>::empty() =~= out.data@);
    }
}

/// What a device says of itself decides how it is read: with the 64 bit partial read where it lists it, and with
/// the 32 bit one otherwise. A dataset that cannot be read is a fault.
pub proof fn law_what_device_info_decides(st: Startup, out: Outcome, next: StartupStep)
    requires
        st.wf(),
        st@.stage is Info,
        out.response_code == 0x2001,
        call_ensures(Startup::answered, (st, Ok(out)), next),
    ensures
        device_info::device_fault(out.data@) is Some ==> next is Failed && next->Failed_1
            == Error::Parse(device_info::device_fault(out.data@)->0),
        device_info::device_fault(out.data@) is None ==> {
            let ops = reader::u16_array_at(out.data@, device_info::list_at(out.data@, 0));
            &&& !ops.contains(0x95c1) && !ops.contains(0x101b) ==> next is Failed
                && next->Failed_1 is NoPartialRead
            &&& ops.contains(0x95c1) || ops.contains(0x101b) ==> {
                &&& next is Exchange
                &&& next->Exchange_0@.stage is Storage
                &&& next->Exchange_0@.stage->Storage_attempt == 1
                &&& next->Exchange_0@.stage->Storage_partial_read == if ops.contains(0x95c1) {
                    0x95c1u16
                } else {
                    0x101bu16
                }
                &&& next->Exchange_0@.stage->Storage_info.reads(out.data@)
            }
        },
{
}

/// A mount starts with a drain, and then opens a session with the number 1.
pub proof fn law_how_a_mount_starts(
    device: MtpDevice,
    c: Config,
    first: StartupStep,
    st: Startup,
    dropped: u64,
    second: StartupStep,
)
    requires
        c.packet <= usize::MAX,
        call_ensures(Mtp::open, (device, c), first),
        st.wf(),
        st@.stage is Draining,
        call_ensures(Startup::drained, (st, dropped), second),
    ensures
        first is Drain,
        first->Drain_0@.stage is Draining,
        first->Drain_0@.session.device == device,
        first->Drain_0@.session.transaction == 0,
        !first->Drain_0@.session.session_open,
        first->Drain_0@.session.config == c.corrected(),
        first->Drain_1.capacity == c.corrected().read_buffer,
        second is Exchange,
        crate::session::state::starts(second->Exchange_1@, st@.session, 0x1002, seq![1u32]),
        second->Exchange_0@.session == st@.session.taken(),
{
    crate::session::state::law_an_operation_starts_with_its_command(
        st@.session,
        "OpenSession",
        op::OPEN_SESSION,
        seq![1u32],
        true,
    );
}

/// A repair that goes on is a mount that goes on: what the repair has to send is sent, and what it has to drain
/// is drained, and the mount waits for it. Nothing of the session changes.
pub proof fn law_a_mount_does_what_a_repair_needs(s: SessionView, stage: Repair, x: ExchangeView, d: Drain)
    ensures
        after_opening(s, StepView::Exchange(stage, x)) == NextView::Exchange(
            StartupView { session: s, stage: Stage::Opening(stage) },
            x,
        ),
        after_opening(s, StepView::Recover(stage, d)) == NextView::Drain(
            StartupView { session: s, stage: Stage::Opening(stage) },
            d,
        ),
{
}

/// Each step of a mount that opens its session does what the repair needs: it sends the operation that is due,
/// drains, asks what the device is, or fails with the fault.
pub proof fn law_a_mount_step_does_what_follows(
    st: Startup,
    stage: Repair,
    r: Result<Outcome, SessionError>,
    next: StartupStep,
)
    requires
        st.wf(),
        st@.stage == Stage::Opening(stage),
        !(stage is Recovering),
        call_ensures(Startup::answered, (st, r), next),
    ensures
        ({
            let (s, step) = repair::after_answer(stage, st@.session, r);
            match after_opening(s, step) {
                NextView::Exchange(v, x) => next is Exchange && next->Exchange_0@ == v
                    && next->Exchange_1@ == x,
                NextView::Drain(v, d) => next is Drain && next->Drain_0@ == v && next->Drain_1 == d,
                NextView::Wait(v, millis) => next is Wait && next->Wait_0@ == v
                    && next->Wait_1.nanos() == millis * 1_000_000,
                NextView::Failed(v, e) => next is Failed && next->Failed_0@ == v && next->Failed_1
                    == e,
            }
        }),
{
}

} // verus!
