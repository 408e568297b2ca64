//! Reports what a device does over MTP.
//!
//! The probe answers one question: does the device work, and if not, at which step does the device
//! stop? Every step has a deadline, so the probe always stops.

use vstd::prelude::*;
use vstd::string::*;

use crate::mtpfs::backend;
use crate::mtpfs::startup::{STORAGE_ATTEMPTS, STORAGE_WAIT_MILLIS};
use crate::ptp::bytes;
use crate::ptp::container;
use crate::ptp::op;
use crate::ptp::resp;
use crate::session::error::SessionError;
use crate::session::exchange::{Exchange, ExchangeView};
use crate::session::outcome::Outcome;
use crate::session::state::{Session, SessionView};
use crate::text;
use crate::time::Duration;

verus! {

/// The deadline for one transfer, in seconds.
pub const TIMEOUT_SECS: u64 = 5;
/// The buffer size for a bulk endpoint, in bytes.
pub const BULK_BUFFER: u32 = 16 * 1024;
/// The count of cycles the reopen test does, if the user gives no count.
pub const DEFAULT_CYCLES: u32 = 20;

/// The operation that reads what a device is.
pub const OP_GET_DEVICE_INFO: u16 = 0x1001;
/// The operation that opens a session.
pub const OP_OPEN_SESSION: u16 = 0x1002;
/// The operation that closes a session.
pub const OP_CLOSE_SESSION: u16 = 0x1003;
/// The operation that lists the storages.
pub const OP_GET_STORAGE_IDS: u16 = 0x1004;
/// The operation that reads what a storage is.
pub const OP_GET_STORAGE_INFO: u16 = 0x1005;
/// The operation that lists the objects of a folder.
pub const OP_GET_OBJECT_HANDLES: u16 = 0x1007;
/// The operation that reads what an object is.
pub const OP_GET_OBJECT_INFO: u16 = 0x1008;
/// The operation that reads an object.
pub const OP_GET_OBJECT: u16 = 0x1009;
/// Response code for success.
pub const RESP_OK: u16 = 0x2001;
/// Response code for a session that is already open.
pub const RESP_SESSION_ALREADY_OPEN: u16 = 0x201e;

/// The size of one read, in bytes.
pub const READ_BUFFER_DEFAULT: usize = 64 * 1024;
/// The smallest read buffer the probe accepts.
pub const READ_BUFFER_MIN: usize = 512;

/// The name of a response code.
pub open spec fn name_of(code: u16) -> &'static str {
    match code {
        0x2001 => "OK",
        0x2002 => "General error",
        0x2003 => "Session not open",
        0x2004 => "Invalid transaction id",
        0x2005 => "Operation not supported",
        0x2006 => "Parameter not supported",
        0x2007 => "Incomplete transfer",
        0x2008 => "Invalid storage id",
        0x2009 => "Invalid object handle",
        0x200d => "Store full",
        0x2013 => "Store not available",
        0x201e => "Session already open",
        0x201f => "Transaction cancelled",
        _ => "unknown",
    }
}

/// Gives a name for a response code.
pub fn response_name(code: u16) -> (r: &'static str)
    ensures
        r == name_of(code),
{
    match code {
        0x2001 => "OK",
        0x2002 => "General error",
        0x2003 => "Session not open",
        0x2004 => "Invalid transaction id",
        0x2005 => "Operation not supported",
        0x2006 => "Parameter not supported",
        0x2007 => "Incomplete transfer",
        0x2008 => "Invalid storage id",
        0x2009 => "Invalid object handle",
        0x200d => "Store full",
        0x2013 => "Store not available",
        0x201e => "Session already open",
        0x201f => "Transaction cancelled",
        _ => "unknown",
    }
}

/// What the probe says where no device gives an MTP interface. A device that shows adb is an Android device.
pub open spec fn absence_of(android: bool) -> &'static str {
    if android {
        "an Android device is connected, and the device gives no MTP interface. The device shows the adb interface, so the device is awake and the cable carries data."
    } else {
        "no device gives an MTP interface. Connect the phone, unlock the phone, and choose File transfer on the phone."
    }
}

/// Says why there is no device to probe. `androids` are the devices that show adb and no MTP interface.
pub fn absence(androids: &[(u8, u8, u16, u16)]) -> (r: &'static str)
    ensures
        r == absence_of(androids@.len() > 0),
{
    if androids.len() > 0 {
        "an Android device is connected, and the device gives no MTP interface. The device shows the adb interface, so the device is awake and the cable carries data."
    } else {
        "no device gives an MTP interface. Connect the phone, unlock the phone, and choose File transfer on the phone."
    }
}

/// What the user asks the probe for.
#[derive(Debug, Clone, PartialEq, Eq)]
pub enum Command {
    /// Read the device one time.
    Probe,
    /// Open and close the USB device this many times.
    Reopen(u32),
    /// Explain the commands.
    Help,
    /// The word is no command.
    Unknown(String),
}

/// The count of cycles that a word gives, or the default where it gives none.
pub open spec fn cycles_of(word: Option<Seq<char>>) -> u32 {
    match word {
        Some(w) => match text::number_up_to(w, u32::MAX as int) {
            Some(n) => n as u32,
            None => DEFAULT_CYCLES,
        },
        None => DEFAULT_CYCLES,
    }
}

/// The word at a position.
pub open spec fn word_at(args: Seq<String>, i: int) -> Option<Seq<char>> {
    if i < args.len() {
        Some(args[i]@)
    } else {
        None
    }
}

/// Reads what the user asks for. Without a word it is the probe.
pub fn command(args: &Vec<String>) -> (r: Command)
    ensures
        match word_at(args@, 0) {
            None => r is Probe,
            Some(w) => if w == "probe"@ {
                r is Probe
            } else if w == "reopen"@ {
                r == Command::Reopen(cycles_of(word_at(args@, 1)))
            } else if w == "--help"@ || w == "-h"@ {
                r is Help
            } else {
                r matches Command::Unknown(s) && s@ == w
            },
        },
{
    if args.len() == 0 {
        return Command::Probe;
    }
    let word: &str = args[0].as_str();
    if text::same(word, "probe") {
        return Command::Probe;
    }
    if text::same(word, "reopen") {
        let cycles: u32 = if args.len() > 1 {
            let chars = text::chars_of(args[1].as_str());
            match text::parse_number(chars.as_slice(), u32::MAX as u64) {
                Some(n) => n as u32,
                None => DEFAULT_CYCLES,
            }
        } else {
            DEFAULT_CYCLES
        };
        return Command::Reopen(cycles);
    }
    if text::same(word, "--help") || text::same(word, "-h") {
        return Command::Help;
    }
    Command::Unknown(text::owned(word))
}

/// Gives the size of one read.
///
/// The text of `BSDROID_READ_BUFFER` changes the size. A small buffer makes a device answer in many
/// transfers, with a payload that fits in one transfer at the normal size.
pub fn read_buffer_size(setting: Option<&str>) -> (r: usize)
    ensures
        r == match setting {
            Some(s) => match text::number_up_to(s@, usize::MAX as int) {
                Some(n) => if n >= READ_BUFFER_MIN {
                    n as usize
                } else {
                    READ_BUFFER_DEFAULT
                },
                None => READ_BUFFER_DEFAULT,
            },
            None => READ_BUFFER_DEFAULT,
        },
{
    match setting {
        Some(s) => {
            let chars = text::chars_of(s);
            match text::parse_number(chars.as_slice(), usize::MAX as u64) {
                Some(n) => if n >= READ_BUFFER_MIN as u64 {
                    n as usize
                } else {
                    READ_BUFFER_DEFAULT
                },
                None => READ_BUFFER_DEFAULT,
            }
        },
        None => READ_BUFFER_DEFAULT,
    }
}

/// Reads the storage identifiers from the payload of `GetStorageIDs`.
///
/// The payload starts with a `u32` count, and the identifiers follow.
pub fn storage_ids_from(data: &[u8]) -> (r: Vec<u32>)
    ensures
        r@ == backend::values_behind_count(data@),
{
    backend::values_in(data)
}

/// What a refused step says.
pub open spec fn refused(name: Seq<char>, code: u16) -> Seq<char> {
    name + " gave 0x"@ + text::hex(code as nat, 4) + " "@ + name_of(code)@
}

/// What a step of the probe gave: its outcome, or what the user reads about the fault.
pub open spec fn step_of(name: &'static str, r: Result<Outcome, SessionError>) -> Result<
    Outcome,
    Seq<char>,
> {
    match r {
        Ok(out) => if out.response_code == resp::OK {
            Ok(out)
        } else {
            Err(refused(name@, out.response_code))
        },
        Err(e) => Err(e.text()),
    }
}

/// Judges one step. A device that refuses the operation is a fault.
pub fn step(name: &'static str, r: Result<Outcome, SessionError>) -> (out: Result<Outcome, String>)
    ensures
        match (out, step_of(name, r)) {
            (Ok(a), Ok(b)) => a == b,
            (Err(a), Err(b)) => a@ == b,
            _ => false,
        },
{
    match r {
        Ok(o) => {
            if o.is_ok() {
                return Ok(o);
            }
            let mut s: String = String::new();
            s.append(name);
            s.append(" gave 0x");
            text::push_hex(&mut s, o.response_code as u64, 4);
            s.append(" ");
            s.append(response_name(o.response_code));
            proof {
                assert(s@ =~= refused(name@, o.response_code));
            }
            Err(s)
        },
        Err(e) => Err(e.message()),
    }
}

/// The session that the probe opens first.
pub const FIRST_SESSION: u32 = 1;
/// The session that the probe opens behind the first one.
pub const SECOND_SESSION: u32 = 2;

/// The operation whose outcome a probe waits for.
#[derive(Debug, Clone, PartialEq, Eq)]
pub enum ProbeStage {
    /// The first session is being opened.
    OpenFirst,
    /// The storages are being read, for the time that the count says. A device can report none for a short
    /// time after a connect, so the probe asks again.
    Storages { attempt: u32 },
    /// The device reports no storage, and the session is being closed.
    Empty,
    /// One of the storages is being read.
    Info { ids: Vec<u32>, next: usize },
    /// The first session is being closed.
    CloseFirst,
    /// A second session is being opened.
    OpenSecond,
    /// The second session is being closed.
    CloseSecond,
}

/// What a [`ProbeStage`] holds.
pub enum ProbeStageView {
    OpenFirst,
    Storages { attempt: u32 },
    Empty,
    Info { ids: Seq<u32>, next: int },
    CloseFirst,
    OpenSecond,
    CloseSecond,
}

impl View for ProbeStage {
    type V = ProbeStageView;

    open spec fn view(&self) -> ProbeStageView {
        match *self {
            ProbeStage::OpenFirst => ProbeStageView::OpenFirst,
            ProbeStage::Storages { attempt } => ProbeStageView::Storages { attempt },
            ProbeStage::Empty => ProbeStageView::Empty,
            ProbeStage::Info { ids, next } => ProbeStageView::Info { ids: ids@, next: next as int },
            ProbeStage::CloseFirst => ProbeStageView::CloseFirst,
            ProbeStage::OpenSecond => ProbeStageView::OpenSecond,
            ProbeStage::CloseSecond => ProbeStageView::CloseSecond,
        }
    }
}

/// A probe that reads the device one time.
#[derive(Debug)]
pub struct Probe {
    session: Session,
    stage: ProbeStage,
}

/// What a [`Probe`] holds.
pub struct ProbeView {
    /// The session.
    pub session: SessionView,
    /// The operation whose outcome the probe waits for.
    pub stage: ProbeStageView,
}

impl View for Probe {
    type V = ProbeView;

    closed spec fn view(&self) -> ProbeView {
        ProbeView { session: self.session@, stage: self.stage@ }
    }
}

/// What the host has to do next for a probe.
#[derive(Debug)]
pub enum ProbeStep {
    /// Do this operation, and report its outcome.
    Exchange(Probe, Exchange),
    /// Wait for this time, and report that.
    Wait(Probe, Duration),
    /// Nothing: the probe is over. The session is to be closed where it is open.
    Over(Session, Result<(), String>),
}

/// What a [`ProbeStep`] says.
pub enum ProbeNext {
    Exchange(ProbeView, ExchangeView),
    Wait(ProbeView, int),
    Over(SessionView, Result<(), Seq<char>>),
}

impl ProbeStep {
    /// The step is this one.
    pub open spec fn is(self, next: ProbeNext) -> bool {
        match (self, next) {
            (ProbeStep::Exchange(p, x), ProbeNext::Exchange(q, y)) => p@ == q && x@ == y,
            (ProbeStep::Wait(p, time), ProbeNext::Wait(q, millis)) => p@ == q && time.nanos()
                == millis * 1_000_000,
            (ProbeStep::Over(s, a), ProbeNext::Over(t, b)) => s@ == t && match (a, b) {
                (Ok(_), Ok(_)) => true,
                (Err(m), Err(n)) => m@ == n,
                _ => false,
            },
            _ => false,
        }
    }

    /// The probe that this step carries on can go on.
    pub open spec fn wf(self) -> bool {
        match self {
            ProbeStep::Exchange(p, x) => p.wf() && x@.wf(),
            ProbeStep::Wait(p, _) => p.wf() && p@.stage is Storages,
            ProbeStep::Over(s, _) => s@.config.wf(),
        }
    }
}

/// Starting an operation without a payload.
pub open spec fn asking(
    s: SessionView,
    stage: ProbeStageView,
    name: &'static str,
    code: u16,
    params: Seq<u32>,
) -> ProbeNext {
    ProbeNext::Exchange(
        ProbeView { session: s.taken(), stage },
        s.started(name, code, params, None, None, true),
    )
}

/// The session after an answer to `CloseSession`, or after none.
pub open spec fn closed_by(s: SessionView, r: Result<Outcome, SessionError>) -> SessionView {
    match r {
        Ok(out) => s.after_close(out.response_code),
        Err(_) => s,
    }
}

/// Asking for the storages.
pub open spec fn asking_for_storages(s: SessionView, attempt: u32) -> ProbeNext {
    asking(
        s,
        ProbeStageView::Storages { attempt },
        "GetStorageIDs",
        OP_GET_STORAGE_IDS,
        Seq::empty(),
    )
}

/// What a probe does after an outcome.
///
/// The steps are: open a session, list the storages, read each of them, close the session, and open and
/// close a second one. A step that fails ends the probe. A device that reports no storage is asked again,
/// and ends the probe when the attempts are used up.
pub open spec fn probe_next(p: ProbeView, r: Result<Outcome, SessionError>) -> ProbeNext {
    let s = p.session;
    match p.stage {
        ProbeStageView::OpenFirst => match step_of("OpenSession", r) {
            Err(m) => ProbeNext::Over(s, Err(m)),
            Ok(out) => asking_for_storages(s.after_open(out.response_code), 1),
        },
        ProbeStageView::Storages { attempt } => match step_of("GetStorageIDs", r) {
            Err(m) => ProbeNext::Over(s, Err(m)),
            Ok(out) => {
                let ids = backend::values_behind_count(out.data@);
                if ids.len() == 0 && attempt < STORAGE_ATTEMPTS {
                    ProbeNext::Wait(
                        ProbeView {
                            session: s,
                            stage: ProbeStageView::Storages { attempt: (attempt + 1) as u32 },
                        },
                        STORAGE_WAIT_MILLIS as int,
                    )
                } else if ids.len() == 0 {
                    asking(
                        s,
                        ProbeStageView::Empty,
                        "CloseSession",
                        op::CLOSE_SESSION,
                        Seq::empty(),
                    )
                } else {
                    asking(
                        s,
                        ProbeStageView::Info { ids, next: 0 },
                        "GetStorageInfo",
                        OP_GET_STORAGE_INFO,
                        seq![ids[0]],
                    )
                }
            },
        },
        ProbeStageView::Empty => ProbeNext::Over(
            closed_by(s, r),
            Err("the device reports 0 storages"@),
        ),
        ProbeStageView::Info { ids, next } => match step_of("GetStorageInfo", r) {
            Err(m) => ProbeNext::Over(s, Err(m)),
            Ok(_) => if next + 1 < ids.len() {
                asking(
                    s,
                    ProbeStageView::Info { ids, next: next + 1 },
                    "GetStorageInfo",
                    OP_GET_STORAGE_INFO,
                    seq![ids[next + 1]],
                )
            } else {
                asking(
                    s,
                    ProbeStageView::CloseFirst,
                    "CloseSession",
                    OP_CLOSE_SESSION,
                    Seq::empty(),
                )
            },
        },
        ProbeStageView::CloseFirst => match step_of("CloseSession", r) {
            Err(m) => ProbeNext::Over(s, Err(m)),
            Ok(out) => asking(
                s.after_close(out.response_code),
                ProbeStageView::OpenSecond,
                "OpenSession",
                op::OPEN_SESSION,
                seq![SECOND_SESSION],
            ),
        },
        ProbeStageView::OpenSecond => match r {
            Err(e) => ProbeNext::Over(s, Err("the second OpenSession failed: "@ + e.text())),
            Ok(out) => asking(
                s.after_open(out.response_code),
                ProbeStageView::CloseSecond,
                "CloseSession",
                op::CLOSE_SESSION,
                Seq::empty(),
            ),
        },
        ProbeStageView::CloseSecond => ProbeNext::Over(closed_by(s, r), Ok(())),
    }
}

impl Probe {
    /// The session can do operations, the storage that is read is one of the storages, and the attempts are
    /// not used up.
    pub open spec fn wf(&self) -> bool {
        self@.session.config.wf() && match self@.stage {
            ProbeStageView::Info { ids, next } => 0 <= next < ids.len(),
            ProbeStageView::Storages { attempt } => 1 <= attempt <= STORAGE_ATTEMPTS,
            _ => true,
        }
    }

    /// Starts a probe on a session that is not open yet.
    pub fn start(session: Session) -> (r: ProbeStep)
        requires
            session@.config.wf(),
        ensures
            r.is(
                asking(
                    session@,
                    ProbeStageView::OpenFirst,
                    "OpenSession",
                    OP_OPEN_SESSION,
                    seq![FIRST_SESSION],
                ),
            ),
            r.wf(),
    {
        let mut session = session;
        let params: [u32; 1] = [FIRST_SESSION];
        proof {
            assert(params@ =~= seq![FIRST_SESSION]);
        }
        let x = session.operation("OpenSession", OP_OPEN_SESSION, &params);
        ProbeStep::Exchange(Probe { session, stage: ProbeStage::OpenFirst }, x)
    }

    /// The session, for the transfers of an operation.
    pub fn session(&self) -> (r: &Session)
        ensures
            r@ == self@.session,
    {
        &self.session
    }

    /// The operation whose outcome the probe waits for.
    pub fn stage(&self) -> (r: &ProbeStage)
        ensures
            r@ == self@.stage,
    {
        &self.stage
    }

    /// Asks for the storages.
    fn ask_storages(session: Session, attempt: u32) -> (r: ProbeStep)
        requires
            session@.config.wf(),
            1 <= attempt <= STORAGE_ATTEMPTS,
        ensures
            r.is(asking_for_storages(session@, attempt)),
            r.wf(),
    {
        let mut session = session;
        let none: [u32; 0] = [];
        proof {
            assert(none@ =~= Seq::empty());
        }
        let x = session.operation("GetStorageIDs", OP_GET_STORAGE_IDS, &none);
        ProbeStep::Exchange(Probe { session, stage: ProbeStage::Storages { attempt } }, x)
    }

    /// Takes in the end of a wait, and asks for the storages again.
    pub fn waited(self) -> (r: ProbeStep)
        requires
            self.wf(),
            self@.stage is Storages,
        ensures
            r.is(asking_for_storages(self@.session, self@.stage->attempt)),
            r.wf(),
    {
        match self.stage {
            ProbeStage::Storages { attempt } => Probe::ask_storages(self.session, attempt),
            _ => vstd::pervasive::unreached(),
        }
    }

    /// Reads the storage at a position.
    fn ask_info(session: Session, ids: Vec<u32>, next: usize) -> (r: ProbeStep)
        requires
            session@.config.wf(),
            next < ids@.len(),
        ensures
            r.is(
                asking(
                    session@,
                    ProbeStageView::Info { ids: ids@, next: next as int },
                    "GetStorageInfo",
                    OP_GET_STORAGE_INFO,
                    seq![ids@[next as int]],
                ),
            ),
            r.wf(),
    {
        let mut session = session;
        let params: [u32; 1] = [ids[next]];
        proof {
            assert(params@ =~= seq![ids@[next as int]]);
        }
        let x = session.operation("GetStorageInfo", OP_GET_STORAGE_INFO, &params);
        ProbeStep::Exchange(Probe { session, stage: ProbeStage::Info { ids, next } }, x)
    }

    /// Takes in the outcome of an operation.
    pub fn answered(self, r: Result<Outcome, SessionError>) -> (out: ProbeStep)
        requires
            self.wf(),
        ensures
            out.is(probe_next(self@, r)),
            out.wf(),
    {
        let mut session = self.session;
        let none: [u32; 0] = [];
        proof {
            assert(none@ =~= Seq::empty());
        }
        match self.stage {
            ProbeStage::OpenFirst => match step("OpenSession", r) {
                Err(m) => ProbeStep::Over(session, Err(m)),
                Ok(out) => {
                    session.opened(&out);
                    Probe::ask_storages(session, 1)
                },
            },
            ProbeStage::Storages { attempt } => match step("GetStorageIDs", r) {
                Err(m) => ProbeStep::Over(session, Err(m)),
                Ok(out) => {
                    let ids = storage_ids_from(out.data.as_slice());
                    if ids.len() == 0 && attempt < STORAGE_ATTEMPTS {
                        ProbeStep::Wait(
                            Probe { session, stage: ProbeStage::Storages { attempt: attempt + 1 } },
                            Duration::from_millis(STORAGE_WAIT_MILLIS),
                        )
                    } else if ids.len() == 0 {
                        let x = session.close_session();
                        ProbeStep::Exchange(Probe { session, stage: ProbeStage::Empty }, x)
                    } else {
                        Probe::ask_info(session, ids, 0)
                    }
                },
            },
            ProbeStage::Empty => {
                if let Ok(out) = r {
                    session.closed(&out);
                }
                ProbeStep::Over(session, Err(text::owned("the device reports 0 storages")))
            },
            ProbeStage::Info { ids, next } => match step("GetStorageInfo", r) {
                Err(m) => ProbeStep::Over(session, Err(m)),
                Ok(_) => if ids.len() - next > 1 {
                    Probe::ask_info(session, ids, next + 1)
                } else {
                    let x = session.operation("CloseSession", OP_CLOSE_SESSION, &none);
                    ProbeStep::Exchange(Probe { session, stage: ProbeStage::CloseFirst }, x)
                },
            },
            ProbeStage::CloseFirst => match step("CloseSession", r) {
                Err(m) => ProbeStep::Over(session, Err(m)),
                Ok(out) => {
                    session.closed(&out);
                    let x = session.open_session(SECOND_SESSION);
                    ProbeStep::Exchange(Probe { session, stage: ProbeStage::OpenSecond }, x)
                },
            },
            ProbeStage::OpenSecond => match r {
                Err(e) => {
                    let mut m: String = String::new();
                    m.append("the second OpenSession failed: ");
                    m.append(e.message().as_str());
                    proof {
                        assert(m@ =~= "the second OpenSession failed: "@ + e.text());
                    }
                    ProbeStep::Over(session, Err(m))
                },
                Ok(out) => {
                    session.opened(&out);
                    let x = session.close_session();
                    ProbeStep::Exchange(Probe { session, stage: ProbeStage::CloseSecond }, x)
                },
            },
            ProbeStage::CloseSecond => {
                if let Ok(out) = r {
                    session.closed(&out);
                }
                ProbeStep::Over(session, Ok(()))
            },
        }
    }
}

/// The place of a stage in the order of a probe.
pub open spec fn place(stage: ProbeStageView) -> int {
    match stage {
        ProbeStageView::OpenFirst => 0,
        ProbeStageView::Storages { .. } => 1,
        ProbeStageView::Empty => 2,
        ProbeStageView::Info { .. } => 3,
        ProbeStageView::CloseFirst => 4,
        ProbeStageView::OpenSecond => 5,
        ProbeStageView::CloseSecond => 6,
    }
}

/// A probe always stops: each outcome takes it to a later place, to the next storage of the same list, or to
/// the next attempt to list them. It passes only at its last place, and it gives up on a device that reports
/// no storage only when the attempts are used up.
pub proof fn law_a_probe_goes_forward(p: ProbeView, r: Result<Outcome, SessionError>)
    ensures
        match probe_next(p, r) {
            ProbeNext::Wait(q, _) => match (p.stage, q.stage) {
                (
                    ProbeStageView::Storages { attempt },
                    ProbeStageView::Storages { attempt: following },
                ) => following == attempt + 1 && following <= STORAGE_ATTEMPTS,
                _ => false,
            },
            ProbeNext::Exchange(q, _) if q.stage is Empty => match p.stage {
                ProbeStageView::Storages { attempt } => attempt >= STORAGE_ATTEMPTS,
                _ => false,
            },
            ProbeNext::Exchange(q, _) => place(q.stage) > place(p.stage) || match (
                p.stage,
                q.stage,
            ) {
                (
                    ProbeStageView::Info { ids, next },
                    ProbeStageView::Info { ids: same, next: following },
                ) => same == ids && following == next + 1 && following < ids.len(),
                _ => false,
            },
            ProbeNext::Over(_, Ok(_)) => p.stage is CloseSecond,
            ProbeNext::Over(_, Err(_)) => !(p.stage is CloseSecond),
        },
{
}

/// Whether the session of a probe says that it is open exactly between the answers that open and close it.
/// A device can refuse the second session, so both are right at the last place.
pub open spec fn tracks_session(p: ProbeView) -> bool {
    match p.stage {
        ProbeStageView::OpenFirst | ProbeStageView::OpenSecond => !p.session.session_open,
        ProbeStageView::CloseSecond => true,
        _ => p.session.session_open,
    }
}

/// A probe that ends early hands over its session as open, so that it is closed, wherever the device opened
/// it and did not close it: behind the first `OpenSession` and up to the first `CloseSession`. A session that
/// the device closed, or did not open, is not closed again.
pub proof fn law_a_probe_that_ends_early_closes_its_session(
    p: ProbeView,
    r: Result<Outcome, SessionError>,
)
    requires
        tracks_session(p),
    ensures
        match probe_next(p, r) {
            ProbeNext::Exchange(q, _) => tracks_session(q),
            ProbeNext::Wait(q, _) => tracks_session(q),
            ProbeNext::Over(s, _) => match p.stage {
                ProbeStageView::OpenFirst | ProbeStageView::OpenSecond => !s.session_open,
                ProbeStageView::Storages { .. }
                | ProbeStageView::Info { .. }
                | ProbeStageView::CloseFirst => s.session_open,
                ProbeStageView::Empty | ProbeStageView::CloseSecond => s.session_open == (
                p.session.session_open && !(r is Ok && r->Ok_0.response_code == resp::OK)),
            },
        },
{
}

/// The operation whose outcome one cycle of the reopen test waits for.
#[derive(Debug, Clone, Copy, PartialEq, Eq, Structural)]
pub enum CycleStage {
    /// The session is being opened.
    Open,
    /// The storages are being read.
    Storages,
    /// The session is being closed. The device has this many storages.
    Close(u16),
}

/// One cycle of the reopen test, on a device that was just opened.
#[derive(Debug)]
pub struct Cycle {
    session: Session,
    stage: CycleStage,
}

/// What a [`Cycle`] holds.
pub struct CycleView {
    /// The session.
    pub session: SessionView,
    /// The operation whose outcome the cycle waits for.
    pub stage: CycleStage,
}

impl View for Cycle {
    type V = CycleView;

    closed spec fn view(&self) -> CycleView {
        CycleView { session: self.session@, stage: self.stage }
    }
}

/// What the host has to do next for a cycle.
#[derive(Debug)]
pub enum CycleStep {
    /// Do this operation, and report its outcome.
    Exchange(Cycle, Exchange),
    /// Nothing: the cycle is over, with the count of storages or with a fault.
    Over(Session, Result<u16, String>),
}

/// What a [`CycleStep`] says.
pub enum CycleNext {
    Exchange(CycleView, ExchangeView),
    Over(SessionView, Result<u16, Seq<char>>),
}

impl CycleStep {
    /// The step is this one.
    pub open spec fn is(self, next: CycleNext) -> bool {
        match (self, next) {
            (CycleStep::Exchange(p, x), CycleNext::Exchange(q, y)) => p@ == q && x@ == y,
            (CycleStep::Over(s, a), CycleNext::Over(t, b)) => s@ == t && match (a, b) {
                (Ok(n), Ok(m)) => n == m,
                (Err(m), Err(n)) => m@ == n,
                _ => false,
            },
            _ => false,
        }
    }

    /// The cycle that this step carries on can go on.
    pub open spec fn wf(self) -> bool {
        match self {
            CycleStep::Exchange(p, x) => p@.session.config.wf() && x@.wf(),
            CycleStep::Over(s, _) => s@.config.wf(),
        }
    }
}

/// What a cycle does after an outcome. Only an operation that fails ends it early.
pub open spec fn cycle_next(c: CycleView, r: Result<Outcome, SessionError>) -> CycleNext {
    let s = c.session;
    match r {
        Err(e) => CycleNext::Over(s, Err(e.text())),
        Ok(out) => match c.stage {
            CycleStage::Open => {
                let s = s.after_open(out.response_code);
                CycleNext::Exchange(
                    CycleView { session: s.taken(), stage: CycleStage::Storages },
                    s.started("GetStorageIDs", OP_GET_STORAGE_IDS, Seq::empty(), None, None, true),
                )
            },
            CycleStage::Storages => CycleNext::Exchange(
                CycleView {
                    session: s.taken(),
                    stage: CycleStage::Close(
                        backend::values_behind_count(out.data@).len() as u16,
                    ),
                },
                s.started("CloseSession", op::CLOSE_SESSION, Seq::empty(), None, None, true),
            ),
            CycleStage::Close(count) => CycleNext::Over(
                s.after_close(out.response_code),
                Ok(count),
            ),
        },
    }
}

impl Cycle {
    /// Starts a cycle on a session that is not open yet.
    pub fn start(session: Session) -> (r: CycleStep)
        requires
            session@.config.wf(),
        ensures
            r.is(
                CycleNext::Exchange(
                    CycleView { session: session@.taken(), stage: CycleStage::Open },
                    session@.started(
                        "OpenSession",
                        op::OPEN_SESSION,
                        seq![FIRST_SESSION],
                        None,
                        None,
                        true,
                    ),
                ),
            ),
            r.wf(),
    {
        let mut session = session;
        let x = session.open_session(FIRST_SESSION);
        CycleStep::Exchange(Cycle { session, stage: CycleStage::Open }, x)
    }

    /// The session, for the transfers of an operation.
    pub fn session(&self) -> (r: &Session)
        ensures
            r@ == self@.session,
    {
        &self.session
    }

    /// Takes in the outcome of an operation.
    pub fn answered(self, r: Result<Outcome, SessionError>) -> (out: CycleStep)
        requires
            self@.session.config.wf(),
        ensures
            out.is(cycle_next(self@, r)),
            out.wf(),
    {
        let mut session = self.session;
        let out = match r {
            Err(e) => {
                return CycleStep::Over(session, Err(e.message()));
            },
            Ok(out) => out,
        };
        match self.stage {
            CycleStage::Open => {
                session.opened(&out);
                let none: [u32; 0] = [];
                proof {
                    assert(none@ =~= Seq::empty());
                }
                let x = session.operation("GetStorageIDs", OP_GET_STORAGE_IDS, &none);
                CycleStep::Exchange(Cycle { session, stage: CycleStage::Storages }, x)
            },
            CycleStage::Storages => {
                let ids = storage_ids_from(out.data.as_slice());
                let count: u16 = ids.len() as u16;
                let x = session.close_session();
                CycleStep::Exchange(Cycle { session, stage: CycleStage::Close(count) }, x)
            },
            CycleStage::Close(count) => {
                session.closed(&out);
                CycleStep::Over(session, Ok(count))
            },
        }
    }
}

/// The place of a stage in the order of a cycle.
pub open spec fn cycle_place(stage: CycleStage) -> int {
    match stage {
        CycleStage::Open => 0,
        CycleStage::Storages => 1,
        CycleStage::Close(_) => 2,
    }
}

/// A cycle always stops: each outcome takes it to the next place, and it gives a count of storages only at
/// its last place, where that count was read before.
pub proof fn law_a_cycle_goes_forward(c: CycleView, r: Result<Outcome, SessionError>)
    ensures
        match cycle_next(c, r) {
            CycleNext::Exchange(d, _) => cycle_place(d.stage) == cycle_place(c.stage) + 1,
            CycleNext::Over(_, Ok(count)) => c.stage == CycleStage::Close(count),
            CycleNext::Over(_, Err(m)) => r is Err && m == r->Err_0.text(),
        },
{
}

/// The times of the cycles of a reopen test.
#[derive(Debug)]
pub struct Times {
    slowest: u128,
    total: u128,
    done: u32,
}

/// What [`Times`] holds, in nanoseconds.
pub struct TimesView {
    /// The longest cycle.
    pub slowest: int,
    /// All cycles together.
    pub total: int,
    /// The count of cycles.
    pub done: int,
}

impl TimesView {
    /// The times with one more cycle.
    pub open spec fn with(self, nanos: int) -> TimesView {
        TimesView {
            slowest: if nanos > self.slowest {
                nanos
            } else {
                self.slowest
            },
            total: self.total + nanos,
            done: self.done + 1,
        }
    }
}

impl View for Times {
    type V = TimesView;

    closed spec fn view(&self) -> TimesView {
        TimesView {
            slowest: self.slowest as int,
            total: self.total as int,
            done: self.done as int,
        }
    }
}

impl Times {
    /// No cycle is longer than a span of time can be.
    #[verifier::type_invariant]
    spec fn wf(self) -> bool {
        self.total <= self.done * (0x1_0000_0000_0000_0000 * 1_000_000_000)
    }

    /// The times before the first cycle.
    pub fn new() -> (r: Self)
        ensures
            r@ == (TimesView { slowest: 0, total: 0, done: 0 }),
    {
        Times { slowest: 0, total: 0, done: 0 }
    }

    /// Takes the time of one cycle.
    pub fn cycle(self, elapsed: Duration) -> (r: Self)
        requires
            self@.done < u32::MAX,
        ensures
            r@ == self@.with(elapsed.nanos()),
    {
        proof {
            use_type_invariant(&self);
        }
        let nanos: u128 = elapsed.as_nanos();
        Times {
            slowest: if nanos > self.slowest {
                nanos
            } else {
                self.slowest
            },
            total: self.total + nanos,
            done: self.done + 1,
        }
    }

    /// The longest cycle, in whole milliseconds.
    pub fn slowest(&self) -> (r: u128)
        ensures
            r == self@.slowest / 1_000_000,
    {
        self.slowest / 1_000_000
    }

    /// The mean of a count of cycles, in whole milliseconds. A count of 0 counts as 1.
    pub fn mean(&self, cycles: u32) -> (r: u128)
        ensures
            r == (self@.total / 1_000_000) / if cycles == 0 {
                1int
            } else {
                cycles as int
            },
    {
        let n: u32 = if cycles == 0 {
            1
        } else {
            cycles
        };
        (self.total / 1_000_000) / n as u128
    }
}

/// A reopen test that waits for one cycle.
#[derive(Debug)]
pub struct Reopen {
    cycles: u32,
    number: u32,
    times: Times,
}

/// What a [`Reopen`] holds.
pub struct ReopenView {
    /// The count of cycles that the test does.
    pub cycles: u32,
    /// The number of the cycle that the test waits for. The first cycle has the number 1.
    pub number: u32,
    /// The times of the cycles before.
    pub times: TimesView,
}

impl View for Reopen {
    type V = ReopenView;

    closed spec fn view(&self) -> ReopenView {
        ReopenView { cycles: self.cycles, number: self.number, times: self.times@ }
    }
}

/// What the host has to do next for a reopen test.
#[derive(Debug)]
pub enum ReopenStep {
    /// Do one cycle, and report how it ended and the time it took.
    Cycle(Reopen),
    /// Nothing: every cycle finished, and took these times.
    Done(Times),
    /// Nothing: the cycle with this number failed. The text says so.
    Failed(u32, String),
}

/// What a [`ReopenStep`] says.
pub enum ReopenNext {
    Cycle(ReopenView),
    Done(TimesView),
    Failed(u32, Seq<char>),
}

impl View for ReopenStep {
    type V = ReopenNext;

    open spec fn view(&self) -> ReopenNext {
        match *self {
            ReopenStep::Cycle(t) => ReopenNext::Cycle(t@),
            ReopenStep::Done(times) => ReopenNext::Done(times@),
            ReopenStep::Failed(number, m) => ReopenNext::Failed(number, m@),
        }
    }
}

/// The text for a cycle that failed.
pub open spec fn cycle_fault(number: u32) -> Seq<char> {
    "the reopen cycle failed at cycle "@ + text::decimal(number as nat)
}

/// The start of a reopen test.
pub open spec fn reopen_start(cycles: u32) -> ReopenNext {
    let times = TimesView { slowest: 0, total: 0, done: 0 };
    if cycles == 0 {
        ReopenNext::Done(times)
    } else {
        ReopenNext::Cycle(ReopenView { cycles, number: 1, times })
    }
}

/// What a reopen test does after a cycle. A cycle that fails ends it.
pub open spec fn reopen_next(t: ReopenView, finished: bool, nanos: int) -> ReopenNext {
    let times = t.times.with(nanos);
    if !finished {
        ReopenNext::Failed(t.number, cycle_fault(t.number))
    } else if t.number >= t.cycles {
        ReopenNext::Done(times)
    } else {
        ReopenNext::Cycle(ReopenView { number: (t.number + 1) as u32, times, ..t })
    }
}

impl Reopen {
    /// The cycle that the test waits for is one of its cycles, and the cycles before it have their times.
    pub open spec fn wf(&self) -> bool {
        1 <= self@.number <= self@.cycles && self@.times.done == self@.number - 1
    }

    /// Starts a reopen test with a count of cycles.
    pub fn start(cycles: u32) -> (r: ReopenStep)
        ensures
            r@ == reopen_start(cycles),
            r is Cycle ==> r->Cycle_0.wf(),
    {
        if cycles == 0 {
            return ReopenStep::Done(Times::new());
        }
        ReopenStep::Cycle(Reopen { cycles, number: 1, times: Times::new() })
    }

    /// The number of the cycle that the test waits for.
    pub fn number(&self) -> (r: u32)
        ensures
            r == self@.number,
    {
        self.number
    }

    /// Takes in how a cycle ended, and the time it took.
    pub fn cycled(self, finished: bool, elapsed: Duration) -> (r: ReopenStep)
        requires
            self.wf(),
        ensures
            r@ == reopen_next(self@, finished, elapsed.nanos()),
            r is Cycle ==> r->Cycle_0.wf(),
    {
        if !finished {
            let mut m: String = String::new();
            m.append("the reopen cycle failed at cycle ");
            text::push_decimal(&mut m, self.number as u128);
            proof {
                assert(m@ =~= cycle_fault(self@.number));
            }
            return ReopenStep::Failed(self.number, m);
        }
        let Reopen { cycles, number, times } = self;
        let times = times.cycle(elapsed);
        if number >= cycles {
            ReopenStep::Done(times)
        } else {
            ReopenStep::Cycle(Reopen { cycles, number: number + 1, times })
        }
    }
}

/// How a reopen test stands after these cycles, as far as it does them. A cycle says whether it finished,
/// and the time it took in nanoseconds.
pub open spec fn reopen_after(step: ReopenNext, ran: Seq<(bool, int)>) -> ReopenNext
    decreases ran.len(),
{
    match step {
        ReopenNext::Cycle(t) => if ran.len() == 0 {
            step
        } else {
            reopen_after(reopen_next(t, ran[0].0, ran[0].1), ran.skip(1))
        },
        _ => step,
    }
}

/// The times that these cycles took together.
pub open spec fn total_of(ran: Seq<(bool, int)>) -> int
    decreases ran.len(),
{
    if ran.len() == 0 {
        0
    } else {
        ran[0].1 + total_of(ran.skip(1))
    }
}

/// A reopen test does every cycle until one fails: it passes exactly where all of them finish, with the
/// times of all of them, and otherwise it names the first cycle that failed.
pub proof fn law_a_reopen_test_stops_at_the_first_fault(cycles: u32, ran: Seq<(bool, int)>)
    requires
        ran.len() == cycles,
    ensures
        match reopen_after(reopen_start(cycles), ran) {
            ReopenNext::Cycle(_) => false,
            ReopenNext::Done(times) => {
                &&& forall|k: int| 0 <= k < ran.len() ==> (#[trigger] ran[k]).0
                &&& times.done == cycles
                &&& times.total == total_of(ran)
            },
            ReopenNext::Failed(number, m) => {
                &&& 1 <= number <= cycles
                &&& !ran[number - 1].0
                &&& forall|k: int| 0 <= k < number - 1 ==> (#[trigger] ran[k]).0
                &&& m == cycle_fault(number)
            },
        },
{
    if cycles > 0 {
        lemma_reopen_from(reopen_start(cycles)->Cycle_0, ran);
    }
}

proof fn lemma_reopen_from(t: ReopenView, ran: Seq<(bool, int)>)
    requires
        1 <= t.number <= t.cycles,
        t.times.done == t.number - 1,
        ran.len() == t.cycles - t.number + 1,
    ensures
        match reopen_after(ReopenNext::Cycle(t), ran) {
            ReopenNext::Cycle(_) => false,
            ReopenNext::Done(times) => {
                &&& forall|k: int| 0 <= k < ran.len() ==> (#[trigger] ran[k]).0
                &&& times.done == t.cycles
                &&& times.total == t.times.total + total_of(ran)
            },
            ReopenNext::Failed(number, m) => {
                &&& t.number <= number <= t.cycles
                &&& !ran[number - t.number].0
                &&& forall|k: int| 0 <= k < number - t.number ==> (#[trigger] ran[k]).0
                &&& m == cycle_fault(number)
            },
        },
    decreases ran.len(),
{
    let rest = ran.skip(1);
    let next = reopen_next(t, ran[0].0, ran[0].1);
    match next {
        ReopenNext::Cycle(u) => {
            lemma_reopen_from(u, rest);
            let end = reopen_after(ReopenNext::Cycle(t), ran);
            assert(end == reopen_after(next, rest));
            assert forall|k: int| 0 < k < ran.len() implies #[trigger] ran[k] == rest[k - 1] by {}
        },
        _ => {
            assert(reopen_after(next, rest) == next);
            assert(total_of(rest) == 0 || !ran[0].0);
        },
    }
}

/// Whether the step goes on with one command of this code and these parameters, in this stage, and takes one
/// transaction of the session for it.
pub open spec fn asks(
    next: ProbeNext,
    s: SessionView,
    stage: ProbeStageView,
    code: u16,
    params: Seq<u32>,
) -> bool {
    &&& next is Exchange
    &&& next->Exchange_0.stage == stage
    &&& next->Exchange_0.session == s.taken()
    &&& next->Exchange_1.phase is Command
    &&& next->Exchange_1.sink == Some(Seq::<u8>::empty())
    &&& container::is_command(next->Exchange_1.phase->Command_0, code, s.transaction, params)
}

proof fn lemma_asks(
    s: SessionView,
    stage: ProbeStageView,
    name: &'static str,
    code: u16,
    params: Seq<u32>,
)
    requires
        s.config.wf(),
        params.len() <= 5,
    ensures
        asks(asking(s, stage, name, code, params), s, stage, code, params),
{
    crate::session::state::law_an_operation_starts_with_its_command(s, name, code, params, true);
}

/// What a probe does with each answer of 0x2001: it asks for the storages, then about each storage of the
/// array that the device gave, all of them and in order, then closes the session, opens one with the number 2,
/// and closes that. A device without storages is asked again after 300 milliseconds, up to the tenth attempt.
pub proof fn law_what_a_probe_asks_for(
    s: SessionView,
    attempt: u32,
    v: Seq<u32>,
    next: int,
    out: Outcome,
)
    requires
        s.config.wf(),
        1 <= attempt <= 10,
        v.len() <= u32::MAX,
        out.response_code == 0x2001,
    ensures
        asks(
            probe_next(ProbeView { session: s, stage: ProbeStageView::OpenFirst }, Ok(out)),
            SessionView { session_open: true, ..s },
            ProbeStageView::Storages { attempt: 1 },
            0x1004,
            Seq::empty(),
        ),
        out.data@ == bytes::u32_bytes(v.len() as u32) + bytes::u32_list_bytes(v) ==> {
            let p = ProbeView { session: s, stage: ProbeStageView::Storages { attempt } };
            &&& v.len() > 0 ==> asks(
                probe_next(p, Ok(out)),
                s,
                ProbeStageView::Info { ids: v, next: 0 },
                0x1005,
                seq![v[0]],
            )
            &&& v.len() == 0 && attempt < 10 ==> probe_next(p, Ok(out)) == ProbeNext::Wait(
                ProbeView {
                    session: s,
                    stage: ProbeStageView::Storages { attempt: (attempt + 1) as u32 },
                },
                300,
            )
            &&& v.len() == 0 && attempt == 10 ==> asks(
                probe_next(p, Ok(out)),
                s,
                ProbeStageView::Empty,
                0x1003,
                Seq::empty(),
            )
        },
        0 <= next < v.len() ==> {
            let p = ProbeView { session: s, stage: ProbeStageView::Info { ids: v, next } };
            &&& next + 1 < v.len() ==> asks(
                probe_next(p, Ok(out)),
                s,
                ProbeStageView::Info { ids: v, next: next + 1 },
                0x1005,
                seq![v[next + 1]],
            )
            &&& next + 1 == v.len() ==> asks(
                probe_next(p, Ok(out)),
                s,
                ProbeStageView::CloseFirst,
                0x1003,
                Seq::empty(),
            )
        },
        asks(
            probe_next(ProbeView { session: s, stage: ProbeStageView::CloseFirst }, Ok(out)),
            SessionView { session_open: false, ..s },
            ProbeStageView::OpenSecond,
            0x1002,
            seq![2u32],
        ),
        asks(
            probe_next(ProbeView { session: s, stage: ProbeStageView::OpenSecond }, Ok(out)),
            SessionView { session_open: true, ..s },
            ProbeStageView::CloseSecond,
            0x1003,
            Seq::empty(),
        ),
        probe_next(ProbeView { session: s, stage: ProbeStageView::CloseSecond }, Ok(out))
            == ProbeNext::Over(SessionView { session_open: false, ..s }, Ok(())),
{
    let none = Seq::<u32>::empty();
    let opened = SessionView { session_open: true, ..s };
    let shut = SessionView { session_open: false, ..s };
    lemma_asks(
        opened,
        ProbeStageView::Storages { attempt: 1 },
        "GetStorageIDs",
        OP_GET_STORAGE_IDS,
        none,
    );
    assert(bytes::u32_bytes(v.len() as u32) + bytes::u32_list_bytes(v) =~= bytes::u32_bytes(
        v.len() as u32,
    ) + bytes::u32_list_bytes(v) + Seq::<u8>::empty());
    backend::law_an_array_reads_as_its_values(v, Seq::empty());
    if v.len() > 0 {
        lemma_asks(
            s,
            ProbeStageView::Info { ids: v, next: 0 },
            "GetStorageInfo",
            OP_GET_STORAGE_INFO,
            seq![v[0]],
        );
    }
    lemma_asks(s, ProbeStageView::Empty, "CloseSession", op::CLOSE_SESSION, none);
    if 0 <= next < v.len() - 1 {
        lemma_asks(
            s,
            ProbeStageView::Info { ids: v, next: next + 1 },
            "GetStorageInfo",
            OP_GET_STORAGE_INFO,
            seq![v[next + 1]],
        );
    }
    lemma_asks(s, ProbeStageView::CloseFirst, "CloseSession", OP_CLOSE_SESSION, none);
    lemma_asks(shut, ProbeStageView::OpenSecond, "OpenSession", op::OPEN_SESSION, seq![2u32]);
    lemma_asks(opened, ProbeStageView::CloseSecond, "CloseSession", op::CLOSE_SESSION, none);
}

/// An answer other than 0x2001, and a fault, end a probe where it needs the answer. Opening the second session
/// needs none but an answer at all.
pub proof fn law_what_ends_a_probe(p: ProbeView, r: Result<Outcome, SessionError>)
    requires
        r is Err || r->Ok_0.response_code != 0x2001,
    ensures
        p.stage is OpenFirst || p.stage is Storages || p.stage is Info || p.stage is CloseFirst
            ==> probe_next(p, r) is Over && probe_next(p, r)->Over_0 == p.session && probe_next(
            p,
            r,
        )->Over_1 is Err,
        p.stage is OpenSecond ==> (probe_next(p, r) is Over <==> r is Err),
{
}

/// A cycle asks for the storages and closes the session, and counts every storage of the array that the device
/// gave.
pub proof fn law_a_cycle_counts_every_storage(s: SessionView, v: Seq<u32>, out: Outcome, count: u16)
    requires
        s.config.wf(),
        v.len() <= 0xffff,
        out.data@ == bytes::u32_bytes(v.len() as u32) + bytes::u32_list_bytes(v),
    ensures
        ({
            let open = cycle_next(CycleView { session: s, stage: CycleStage::Open }, Ok(out));
            let read = cycle_next(CycleView { session: s, stage: CycleStage::Storages }, Ok(out));
            let close = cycle_next(
                CycleView { session: s, stage: CycleStage::Close(count) },
                Ok(out),
            );
            &&& open is Exchange && open->Exchange_0.stage is Storages
            &&& container::is_command(
                open->Exchange_1.phase->Command_0,
                0x1004,
                s.transaction,
                Seq::empty(),
            )
            &&& read is Exchange
            &&& read->Exchange_0.stage == CycleStage::Close(v.len() as u16)
            &&& container::is_command(
                read->Exchange_1.phase->Command_0,
                0x1003,
                s.transaction,
                Seq::empty(),
            )
            &&& close is Over
            &&& close->Over_1 == Ok::<u16, Seq<char>>(count)
        }),
{
    assert(bytes::u32_bytes(v.len() as u32) + bytes::u32_list_bytes(v) =~= bytes::u32_bytes(
        v.len() as u32,
    ) + bytes::u32_list_bytes(v) + Seq::<u8>::empty());
    backend::law_an_array_reads_as_its_values(v, Seq::empty());
    let opened = s.after_open(out.response_code);
    crate::session::state::law_an_operation_starts_with_its_command(
        opened,
        "GetStorageIDs",
        OP_GET_STORAGE_IDS,
        Seq::empty(),
        true,
    );
    crate::session::state::law_an_operation_starts_with_its_command(
        s,
        "CloseSession",
        op::CLOSE_SESSION,
        Seq::empty(),
        true,
    );
}

/// What the times of cycles say: the slowest is the largest of all the times, and the mean is the whole time
/// divided by the cycles, both in whole milliseconds.
pub proof fn law_what_times_say(
    t: Times,
    elapsed: Duration,
    next: Times,
    slow: u128,
    cycles: u32,
    mean: u128,
)
    requires
        t@.done < u32::MAX,
        cycles > 0,
        t@.total >= 0,
        call_ensures(Times::cycle, (t, elapsed), next),
        call_ensures(Times::slowest, (&t,), slow),
        call_ensures(Times::mean, (&t, cycles), mean),
    ensures
        next@.slowest >= t@.slowest && next@.slowest >= elapsed.nanos(),
        next@.slowest == t@.slowest || next@.slowest == elapsed.nanos(),
        next@.total == t@.total + elapsed.nanos(),
        next@.done == t@.done + 1,
        1_000_000 * slow <= t@.slowest < 1_000_000 * slow + 1_000_000,
        mean * cycles * 1_000_000 <= t@.total < (mean + 1) * cycles * 1_000_000,
{
    let ms = t@.total / 1_000_000;
    vstd::arithmetic::div_mod::lemma_fundamental_div_mod(ms, cycles as int);
    vstd::arithmetic::div_mod::lemma_mod_bound(ms, cycles as int);
    let q = ms / (cycles as int);
    assert(q == mean);
    assert(mean * cycles <= ms < (mean + 1) * cycles) by (nonlinear_arith)
        requires
            ms == cycles * q + ms % (cycles as int),
            0 <= ms % (cycles as int) < cycles,
            q == mean,
    ;
}

/// A count of cycles that is written on the command line is the count that is done, for every number that 32
/// bits hold. Without one, or with a word that is no number, it is 20.
pub proof fn law_how_many_cycles_are_done(args: &Vec<String>, n: u32, r: Command)
    requires
        args@.len() >= 1,
        args@[0]@ == "reopen"@,
        call_ensures(command, (args,), r),
    ensures
        args@.len() == 1 ==> r == Command::Reopen(20),
        args@.len() > 1 && args@[1]@ == text::decimal(n as nat) ==> r == Command::Reopen(n),
        args@.len() > 1 && args@[1]@.len() == 0 ==> r == Command::Reopen(20),
{
    reveal_strlit("probe");
    reveal_strlit("reopen");
    assert("probe"@.len() == 5 && "reopen"@.len() == 6);
    text::lemma_decimal_round_trip(n as nat);
    assert(text::is_digit(text::decimal(n as nat)[0]));
}

/// The size of the read buffer is the number of the setting, where it is one of at least 512, and 65536
/// otherwise.
pub proof fn law_the_size_of_the_read_buffer(n: u32, s: &str, r: usize, without: usize)
    requires
        s@ == text::decimal(n as nat),
        call_ensures(read_buffer_size, (Some(s),), r),
        call_ensures(read_buffer_size, (None,), without),
    ensures
        n >= 512 ==> r == n,
        n < 512 ==> r == 65536,
        without == 65536,
{
    text::lemma_decimal_round_trip(n as nat);
    assert(text::is_digit(text::decimal(n as nat)[0]));
}

/// A probe and a cycle start by opening a session with the number 1.
pub proof fn law_how_a_probe_starts(s: Session, p: ProbeStep, c: CycleStep)
    requires
        s@.config.wf(),
        call_ensures(Probe::start, (s,), p),
        call_ensures(Cycle::start, (s,), c),
    ensures
        p is Exchange,
        p->Exchange_0@.stage is OpenFirst,
        p->Exchange_0@.session == s@.taken(),
        crate::session::state::starts(p->Exchange_1@, s@, 0x1002, seq![1u32]),
        c is Exchange,
        c->Exchange_0@.stage is Open,
        c->Exchange_0@.session == s@.taken(),
        crate::session::state::starts(c->Exchange_1@, s@, 0x1002, seq![1u32]),
{
    crate::session::state::law_an_operation_starts_with_its_command(
        s@,
        "OpenSession",
        op::OPEN_SESSION,
        seq![1u32],
        true,
    );
}

/// A refused step tells its name, the whole code and the name of the code, and a cycle that fails tells its
/// number.
pub proof fn law_what_a_refusal_tells(
    name: &'static str,
    out: Outcome,
    r: Result<Outcome, String>,
    number: u32,
)
    requires
        call_ensures(step, (name, Ok(out)), r),
    ensures
        out.response_code == 0x2001 ==> r == Ok::<Outcome, String>(out),
        out.response_code != 0x2001 ==> r is Err && r->Err_0@ == name@ + " gave 0x"@ + text::hex(
            out.response_code as nat,
            4,
        ) + " "@ + name_of(out.response_code)@,
        cycle_fault(number) == "the reopen cycle failed at cycle "@ + text::decimal(number as nat),
{
}

/// What the words ask for: no word and `probe` ask for the probe, `reopen` for the cycles, `--help` and `-h` for
/// help, and any other word is unknown. A count is the number that the second word spells, and 20 where it spells
/// none that 32 bits hold.
pub proof fn law_what_the_words_ask_for(args: &Vec<String>, r: Command)
    requires
        call_ensures(command, (args,), r),
    ensures
        args@.len() == 0 ==> r is Probe,
        args@.len() > 0 ==> {
            let w = args@[0]@;
            &&& w == "probe"@ ==> r is Probe
            &&& w == "--help"@ || w == "-h"@ ==> r is Help
            &&& w == "reopen"@ ==> r is Reopen
            &&& w == "reopen"@ && args@.len() > 1 ==> r->Reopen_0 == match text::number_up_to(
                args@[1]@,
                0xffff_ffff,
            ) {
                Some(n) => n as u32,
                None => 20u32,
            }
            &&& w != "probe"@ && w != "--help"@ && w != "-h"@ && w != "reopen"@ ==> {
                &&& r is Unknown
                &&& r->Unknown_0@ == w
            }
        },
{
    reveal_strlit("probe");
    reveal_strlit("reopen");
    reveal_strlit("--help");
    reveal_strlit("-h");
    assert("probe"@.len() == 5 && "reopen"@.len() == 6 && "--help"@.len() == 6 && "-h"@.len() == 2);
    assert("reopen"@[0] == 'r' && "--help"@[0] == '-');
}

/// The size of the read buffer is the number that the setting spells, where it spells one of at least 512 that
/// fits, and 65536 otherwise.
pub proof fn law_which_settings_are_sizes(s: &str, r: usize)
    requires
        call_ensures(read_buffer_size, (Some(s),), r),
    ensures
        match text::number_up_to(s@, usize::MAX as int) {
            Some(n) => r == if n >= 512 {
                n
            } else {
                65536
            },
            None => r == 65536,
        },
{
}

/// Each step of a probe and of a cycle does what follows from the answer: it sends the operation that is due,
/// waits as long as it has to, or gives its result with the session.
pub proof fn law_a_step_does_what_follows(
    p: Probe,
    c: Cycle,
    r: Result<Outcome, SessionError>,
    out: ProbeStep,
    turn: CycleStep,
)
    requires
        p.wf(),
        c@.session.config.wf(),
        call_ensures(Probe::answered, (p, r), out),
        call_ensures(Cycle::answered, (c, r), turn),
    ensures
        match probe_next(p@, r) {
            ProbeNext::Exchange(q, x) => out is Exchange && out->Exchange_0@ == q
                && out->Exchange_1@ == x,
            ProbeNext::Wait(q, millis) => out is Wait && out->Wait_0@ == q && out->Wait_1.nanos()
                == millis * 1_000_000,
            ProbeNext::Over(s, Ok(_)) => out is Over && out->Over_0@ == s && out->Over_1 is Ok,
            ProbeNext::Over(s, Err(m)) => out is Over && out->Over_0@ == s && out->Over_1 is Err
                && out->Over_1->Err_0@ == m,
        },
        match cycle_next(c@, r) {
            CycleNext::Exchange(d, x) => turn is Exchange && turn->Exchange_0@ == d
                && turn->Exchange_1@ == x,
            CycleNext::Over(s, Ok(n)) => turn is Over && turn->Over_0@ == s && turn->Over_1 == Ok::<
                u16,
                String,
            >(n),
            CycleNext::Over(s, Err(m)) => turn is Over && turn->Over_0@ == s && turn->Over_1 is Err
                && turn->Over_1->Err_0@ == m,
        },
{
}

/// Two response codes that have a name have different names.
pub proof fn law_no_two_responses_have_the_same_name(a: u16, b: u16, x: &'static str, y: &'static str)
    requires
        call_ensures(response_name, (a,), x),
        call_ensures(response_name, (b,), y),
        x@ == y@,
    ensures
        a == b || x@ == "unknown"@,
{
    reveal_strlit("OK");
    reveal_strlit("General error");
    reveal_strlit("Session not open");
    reveal_strlit("Invalid transaction id");
    reveal_strlit("Operation not supported");
    reveal_strlit("Parameter not supported");
    reveal_strlit("Incomplete transfer");
    reveal_strlit("Invalid storage id");
    reveal_strlit("Invalid object handle");
    reveal_strlit("Store full");
    reveal_strlit("Store not available");
    reveal_strlit("Session already open");
    reveal_strlit("Transaction cancelled");
    reveal_strlit("unknown");
    assert("Operation not supported"@[0] != "Parameter not supported"@[0]);
    assert("Incomplete transfer"@[0] != "Store not available"@[0]);
    assert("Invalid object handle"@[0] != "Transaction cancelled"@[0]);
}

} // verus!
