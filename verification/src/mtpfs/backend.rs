//! The MTP session that answers a filesystem request.
//!
//! One session stays open while the mount runs, because a session costs time to open and a filesystem
//! does many operations. A request takes one operation or more. The host does the operation that is
//! due and hands back its outcome, until the request is over.

use vstd::prelude::*;
use vstd::string::*;

use crate::mtpfs::error;
use crate::mtpfs::error::Error;
use crate::mtpfs::tree::{Entry, EntryView, ROOT};
use crate::ptp::bytes;
use crate::ptp::container;
use crate::ptp::device_info::DeviceInfo;
use crate::ptp::error::{PayloadTooLarge, MAX_PAYLOAD_LEN};
use crate::ptp::object;
use crate::ptp::object::ObjectInfo;
use crate::ptp::op;
use crate::ptp::reader;
use crate::ptp::resp;
use crate::ptp::utf16;
use crate::session::config::USB2_PACKET;
use crate::session::error::SessionError;
use crate::session::exchange::{Exchange, ExchangeView};
use crate::session::outcome::Outcome;
use crate::session::state::{Session, SessionView};
use crate::text;

verus! {

/// The buffer size for a bulk endpoint, in bytes.
pub const BULK_BUFFER: u32 = 64 * 1024;
/// The value that lists the root folder, and that names it as the folder of a new object.
pub const LIST_ROOT: u32 = 0xffff_ffff;
/// The operation that reads what a device is.
pub const OP_GET_DEVICE_INFO: u16 = 0x1001;
/// The operation that lists the storages.
pub const OP_GET_STORAGE_IDS: u16 = 0x1004;
/// The operation that lists the objects of a folder.
pub const OP_GET_OBJECT_HANDLES: u16 = 0x1007;
/// The operation that reads what an object is.
pub const OP_GET_OBJECT_INFO: u16 = 0x1008;

/// The session a mount holds open.
#[derive(Debug)]
pub struct Mtp {
    session: Session,
    storage: u32,
    partial_read: u16,
    /// What the device says about itself.
    pub info: DeviceInfo,
}

/// What an [`Mtp`] holds.
pub struct MtpView {
    /// The session.
    pub session: SessionView,
    /// The storage that the filesystem shows.
    pub storage: u32,
    /// The operation the device uses for a partial read.
    pub partial_read: u16,
    /// What the device says about itself.
    pub info: DeviceInfo,
}

impl View for Mtp {
    type V = MtpView;

    closed spec fn view(&self) -> MtpView {
        MtpView {
            session: self.session@,
            storage: self.storage,
            partial_read: self.partial_read,
            info: self.info,
        }
    }
}

/// What a request has to do next.
#[derive(Debug)]
pub enum Step<S, T> {
    /// Do this operation, and hand its outcome to the request.
    Exchange(S, Exchange),
    /// Nothing: the request is over.
    Over(Result<T, Error>),
}

/// The payload of an operation that succeeded.
pub open spec fn payload_of(step: &'static str, r: Result<Outcome, SessionError>) -> Result<
    Seq<u8>,
    Error,
> {
    match r {
        Err(e) => Err(error::error_of(e)),
        Ok(o) => if o.response_code != resp::OK {
            Err(Error::Device { step, code: o.response_code })
        } else {
            Ok(o.data@)
        },
    }
}

/// Gives the payload of an operation. An answer other than success is a fault.
pub fn payload(step: &'static str, r: Result<Outcome, SessionError>) -> (out: Result<
    Vec<u8>,
    Error,
>)
    ensures
        match out {
            Ok(v) => payload_of(step, r) == Ok::<Seq<u8>, Error>(v@),
            Err(e) => payload_of(step, r) == Err::<Seq<u8>, Error>(e),
        },
{
    match r {
        Err(e) => Err(Error::from(e)),
        Ok(o) => {
            if !o.is_ok() {
                return Err(Error::Device { step, code: o.response_code });
            }
            Ok(o.data)
        },
    }
}

/// The values behind the count of a PTP array, as far as they are whole.
pub open spec fn values_behind_count(data: Seq<u8>) -> Seq<u32> {
    if data.len() < 4 {
        Seq::empty()
    } else {
        container::params_of(data.skip(4))
    }
}

/// Reads the values behind the count of a PTP array.
///
/// The function takes what is there, and does not hold it against the count.
pub fn values_in(data: &[u8]) -> (r: Vec<u32>)
    ensures
        r@ == values_behind_count(data@),
{
    let mut out: Vec<u32> = Vec::new();
    if data.len() < 4 {
        return out;
    }
    let count: usize = (data.len() - 4) / 4;
    let ghost all = values_behind_count(data@);
    let mut i: usize = 0;
    while i < count
        invariant
            i <= count,
            4 + 4 * count <= data@.len() <= usize::MAX,
            all == values_behind_count(data@),
            all.len() == count,
            data@.len() >= 4,
            out@ == all.take(i as int),
        decreases count - i,
    {
        let v: u32 = bytes::read_u32_at(data, 4 + 4 * i);
        proof {
            assert(all[i as int] == bytes::u32_at(data@.skip(4), 4 * i));
            assert(all.take(i + 1) =~= all.take(i as int).push(v));
        }
        out.push(v);
        i = i + 1;
    }
    proof {
        assert(all.take(count as int) =~= all);
    }
    out
}

/// The argument that names a folder to the device.
pub open spec fn folder_arg(parent: u32) -> u32 {
    if parent == ROOT {
        LIST_ROOT
    } else {
        parent
    }
}

/// Gives the argument that names a folder to the device. The root needs the value 0xffffffff, and a
/// folder needs its own handle.
fn folder_argument(parent: u32) -> (r: u32)
    ensures
        r == folder_arg(parent),
{
    if parent == ROOT {
        LIST_ROOT
    } else {
        parent
    }
}

impl MtpView {
    /// The backend with the next transaction taken.
    pub open spec fn taken(self) -> MtpView {
        MtpView { session: self.session.taken(), ..self }
    }

    /// An operation at its start.
    pub open spec fn started(self, step: &'static str, code: u16, params: Seq<u32>) -> ExchangeView {
        self.session.started(step, code, params, None, None, true)
    }

    /// An operation that sends a payload, at its start.
    pub open spec fn started_sending(
        self,
        step: &'static str,
        code: u16,
        params: Seq<u32>,
        payload: Seq<u8>,
    ) -> ExchangeView {
        self.session.started(
            step,
            code,
            params,
            Some(self.session.sender(code, payload.len() as u64)),
            Some(payload),
            true,
        )
    }

    /// The name of the device, for a person to read.
    pub open spec fn device_name(self) -> Seq<char> {
        text::trim_end(
            text::trim_start(self.info.manufacturer@ + seq![' '] + self.info.model@),
        )
    }

    /// The parameters of a partial read.
    pub open spec fn read_params(self, handle: u32, offset: u64, count: u64) -> Seq<u32> {
        if self.partial_read == op::GET_PARTIAL_OBJECT_64 {
            seq![
                handle,
                (offset % 0x1_0000_0000) as u32,
                (offset / 0x1_0000_0000) as u32,
                count as u32,
            ]
        } else {
            seq![handle, offset as u32, count as u32]
        }
    }
}

impl Mtp {
    /// The session can do operations.
    pub open spec fn wf(&self) -> bool {
        self@.session.config.wf()
    }

    /// Takes an open session with what the device is, the partial read that it supports, and its
    /// storage.
    pub fn new(session: Session, info: DeviceInfo, partial_read: u16, storage: u32) -> (r: Self)
        ensures
            r@ == (MtpView { session: session@, storage, partial_read, info }),
    {
        Mtp { session, storage, partial_read, info }
    }

    /// Gives the session back, for a caller that closes it.
    pub fn into_session(self) -> (r: Session)
        ensures
            r@ == self@.session,
    {
        self.session
    }

    /// The session, for the transfers of an operation.
    pub fn session(&self) -> (r: &Session)
        ensures
            r@ == self@.session,
    {
        &self.session
    }

    /// The name of the device, for a person to read.
    pub fn name(&self) -> (r: String)
        ensures
            r@ == self@.device_name(),
    {
        let mut s: String = String::new();
        s.append(self.info.manufacturer.as_str());
        s.push(' ');
        s.append(self.info.model.as_str());
        proof {
            assert(s@ =~= self.info.manufacturer@ + seq![' '] + self.info.model@);
        }
        text::trim(s.as_str())
    }

    /// Starts one operation.
    fn operation(&mut self, step: &'static str, code: u16, params: &[u32]) -> (r: Exchange)
        requires
            old(self).wf(),
        ensures
            final(self)@ == old(self)@.taken(),
            r@ == old(self)@.started(step, code, params@),
            r@.wf(),
    {
        self.session.operation(step, code, params)
    }

    /// Starts reading the objects a folder holds.
    pub fn list(&mut self, parent: u32) -> (r: (Listing, Exchange))
        requires
            old(self).wf(),
        ensures
            r.0@ == (ListingView { parent, handles: None, done: 0, out: Seq::empty() }),
            r.0.wf(),
            final(self)@ == old(self)@.taken(),
            r.1@ == old(self)@.started(
                "GetObjectHandles",
                OP_GET_OBJECT_HANDLES,
                seq![old(self)@.storage, 0, folder_arg(parent)],
            ),
            r.1@.wf(),
    {
        let params: [u32; 3] = [self.storage, 0, folder_argument(parent)];
        proof {
            assert(params@ =~= seq![self.storage, 0, folder_arg(parent)]);
        }
        let x = self.operation("GetObjectHandles", OP_GET_OBJECT_HANDLES, &params);
        let l = Listing { parent, handles: None, done: 0, out: Vec::new() };
        proof {
            assert(entry_views(l.out@) =~= Seq::empty());
        }
        (l, x)
    }
}

/// The views of entries.
pub open spec fn entry_views(entries: Seq<Entry>) -> Seq<EntryView> {
    entries.map_values(|e: Entry| e@)
}

/// A listing on its way: the handles of a folder, and then what each object is.
#[derive(Debug)]
pub struct Listing {
    parent: u32,
    handles: Option<Vec<u32>>,
    done: usize,
    out: Vec<Entry>,
}

/// What a [`Listing`] holds.
pub struct ListingView {
    /// The folder.
    pub parent: u32,
    /// The handles of the folder, once they are known.
    pub handles: Option<Seq<u32>>,
    /// The count of handles that were looked at.
    pub done: nat,
    /// The objects so far.
    pub out: Seq<EntryView>,
}

impl View for Listing {
    type V = ListingView;

    closed spec fn view(&self) -> ListingView {
        ListingView {
            parent: self.parent,
            handles: match self.handles {
                Some(v) => Some(v@),
                None => None,
            },
            done: self.done as nat,
            out: entry_views(self.out@),
        }
    }
}

/// The object that a dataset describes, where it can be read. A folder has the size 0, whatever the
/// dataset says.
pub open spec fn entry_from(parent: u32, handle: u32, raw: Seq<u8>) -> Option<EntryView> {
    if object::object_fault(raw) is Some {
        None
    } else {
        let is_dir = bytes::u16_at(raw, 4) == crate::ptp::format::ASSOCIATION;
        Some(
            EntryView {
                handle,
                parent,
                name: reader::string_at(raw, 52, "filename")->Ok_0,
                is_dir,
                size: if is_dir {
                    0
                } else {
                    bytes::u32_at(raw, 8) as u64
                },
            },
        )
    }
}

impl ListingView {
    /// The name of the operation whose outcome is due.
    pub open spec fn step(self) -> &'static str {
        if self.handles is None {
            "GetObjectHandles"
        } else {
            "GetObjectInfo"
        }
    }

    /// The listing after the payload that was due: the handles, or what the next object is. An object
    /// that cannot be read is left out.
    pub open spec fn with_payload(self, data: Seq<u8>) -> ListingView {
        match self.handles {
            None => ListingView { handles: Some(values_behind_count(data)), ..self },
            Some(handles) => ListingView {
                done: self.done + 1,
                out: match entry_from(self.parent, handles[self.done as int], data) {
                    Some(e) => self.out.push(e),
                    None => self.out,
                },
                ..self
            },
        }
    }

    /// Whether an object is still to be looked at.
    pub open spec fn is_open(self) -> bool {
        match self.handles {
            None => true,
            Some(handles) => self.done < handles.len(),
        }
    }
}

impl Listing {
    /// An outcome is due.
    pub open spec fn wf(&self) -> bool {
        self@.is_open()
    }

    /// Takes in the outcome of the operation that was due.
    pub fn answered(self, mtp: &mut Mtp, r: Result<Outcome, SessionError>) -> (step: Step<
        Listing,
        Vec<Entry>,
    >)
        requires
            old(mtp).wf(),
            self.wf(),
        ensures
            match payload_of(self@.step(), r) {
                Err(e) => step == Step::<Listing, Vec<Entry>>::Over(Err(e)) && final(mtp)@ == old(
                    mtp)@,
                Ok(data) => {
                    let next = self@.with_payload(data);
                    if next.is_open() {
                        &&& step is Exchange
                        &&& step->Exchange_0@ == next
                        &&& step->Exchange_0.wf()
                        &&& final(mtp)@ == old(mtp)@.taken()
                        &&& step->Exchange_1@ == old(mtp)@.started(
                            "GetObjectInfo",
                            OP_GET_OBJECT_INFO,
                            seq![next.handles->0[next.done as int]],
                        )
                        &&& step->Exchange_1@.wf()
                    } else {
                        &&& step is Over
                        &&& step->Over_0 is Ok
                        &&& entry_views(step->Over_0->Ok_0@) == next.out
                        &&& final(mtp)@ == old(mtp)@
                    }
                },
            },
    {
        let mut l = self;
        let step: &'static str = if l.handles.is_none() {
            "GetObjectHandles"
        } else {
            "GetObjectInfo"
        };
        let data = match payload(step, r) {
            Err(e) => {
                return Step::Over(Err(e));
            },
            Ok(d) => d,
        };
        match &l.handles {
            None => {
                l.handles = Some(values_in(data.as_slice()));
            },
            Some(handles) => {
                let handle: u32 = handles[l.done];
                assert(l.done < handles.len());
                match ObjectInfo::parse(data.as_slice()) {
                    Ok(info) => {
                        let ghost before = entry_views(l.out@);
                        let is_dir: bool = info.is_folder();
                        let e = Entry {
                            handle,
                            parent: l.parent,
                            name: info.filename,
                            is_dir,
                            size: if is_dir {
                                0
                            } else {
                                info.compressed_size as u64
                            },
                        };
                        l.out.push(e);
                        proof {
                            assert(entry_views(l.out@) =~= before.push(e@));
                        }
                    },
                    Err(_) => {},
                }
                l.done = l.done + 1;
            },
        }
        let next: Option<u32> = match &l.handles {
            Some(handles) => {
                if l.done < handles.len() {
                    Some(handles[l.done])
                } else {
                    None
                }
            },
            None => None,
        };
        match next {
            Some(h) => {
                let params: [u32; 1] = [h];
                proof {
                    assert(params@ =~= seq![h]);
                }
                let x = mtp.operation("GetObjectInfo", OP_GET_OBJECT_INFO, &params);
                Step::Exchange(l, x)
            },
            None => Step::Over(Ok(l.out)),
        }
    }
}

/// The objects of a folder: those among its handles whose dataset can be read, in the order of the
/// device.
pub open spec fn objects_of(parent: u32, handles: Seq<u32>, infos: Seq<Seq<u8>>) -> Seq<EntryView>
    decreases infos.len(),
{
    if infos.len() == 0 {
        Seq::empty()
    } else {
        let before = objects_of(parent, handles, infos.drop_last());
        match entry_from(parent, handles[infos.len() - 1], infos.last()) {
            Some(e) => before.push(e),
            None => before,
        }
    }
}

/// A listing after the payloads of `GetObjectInfo`.
pub open spec fn after_infos(l: ListingView, infos: Seq<Seq<u8>>) -> ListingView
    decreases infos.len(),
{
    if infos.len() == 0 {
        l
    } else {
        after_infos(l, infos.drop_last()).with_payload(infos.last())
    }
}

/// A listing asks about every handle of the folder once, and gives the objects in the order of the
/// device.
pub proof fn law_a_listing_gives_every_object(parent: u32, data: Seq<u8>, infos: Seq<Seq<u8>>)
    requires
        infos.len() <= values_behind_count(data).len(),
    ensures
        ({
            let start = ListingView { parent, handles: None, done: 0, out: Seq::empty() };
            let handles = values_behind_count(data);
            let l = after_infos(start.with_payload(data), infos);
            &&& l.parent == parent
            &&& l.handles == Some(handles)
            &&& l.done == infos.len()
            &&& l.out == objects_of(parent, handles, infos)
            &&& l.is_open() <==> infos.len() < handles.len()
        }),
    decreases infos.len(),
{
    if infos.len() > 0 {
        law_a_listing_gives_every_object(parent, data, infos.drop_last());
    }
}

/// Whether a partial read would stop a device: the read reaches the end of the file, and its last packet
/// holds exactly one USB 2.0 packet.
pub open spec fn stops_a_device(offset: int, count: int, file_size: int) -> bool {
    offset + count >= file_size && count % USB2_PACKET as int == 0
}

/// The count of bytes that the first request of a read asks for: all of them, or one less where that
/// request would stop a device.
pub open spec fn first_count(offset: u64, want: u64, file_size: u64) -> u64 {
    if stops_a_device(offset as int, want as int, file_size as int) {
        (want - 1) as u64
    } else {
        want
    }
}

/// A read on its way.
#[derive(Debug)]
pub struct Reading {
    handle: u32,
    offset: u64,
    asked: u64,
    rest: u64,
    data: Vec<u8>,
}

/// What a [`Reading`] holds.
pub struct ReadingView {
    /// The object.
    pub handle: u32,
    /// Where the request that is due starts.
    pub offset: u64,
    /// The count of bytes it asks for.
    pub asked: u64,
    /// The bytes that a further request has to read.
    pub rest: u64,
    /// The bytes that arrived.
    pub data: Seq<u8>,
}

impl View for Reading {
    type V = ReadingView;

    closed spec fn view(&self) -> ReadingView {
        ReadingView {
            handle: self.handle,
            offset: self.offset,
            asked: self.asked,
            rest: self.rest,
            data: self.data@,
        }
    }
}

impl ReadingView {
    /// The read at its start.
    pub open spec fn start(handle: u32, offset: u64, want: u64, file_size: u64) -> ReadingView {
        let asked = first_count(offset, want, file_size);
        ReadingView { handle, offset, asked, rest: (want - asked) as u64, data: Seq::empty() }
    }

    /// The counts of the read can be added up.
    pub open spec fn wf(self) -> bool {
        self.offset + self.asked + self.rest <= u64::MAX
    }

    /// Whether a further request is due when these bytes arrived. A device that gives another count
    /// than the host asked for has no more to give.
    pub open spec fn goes_on(self, data: Seq<u8>) -> bool {
        self.rest > 0 && data.len() == self.asked
    }

    /// The read with the further request due.
    pub open spec fn next(self, data: Seq<u8>) -> ReadingView {
        ReadingView {
            offset: (self.offset + self.asked) as u64,
            asked: self.rest,
            rest: 0,
            data: self.data + data,
            ..self
        }
    }
}

impl Mtp {
    /// Starts one request of a partial read.
    fn read_part(&mut self, handle: u32, offset: u64, count: u64) -> (r: Exchange)
        requires
            old(self).wf(),
        ensures
            final(self)@ == old(self)@.taken(),
            r@ == old(self)@.started(
                "GetPartialObject",
                old(self)@.partial_read,
                old(self)@.read_params(handle, offset, count),
            ),
            r@.wf(),
    {
        let ghost wanted = self@.read_params(handle, offset, count);
        let code: u16 = self.partial_read;
        if code == op::GET_PARTIAL_OBJECT_64 {
            let params: [u32; 4] = [
                handle,
                (offset % 0x1_0000_0000) as u32,
                (offset / 0x1_0000_0000) as u32,
                count as u32,
            ];
            proof {
                assert(params@ =~= wanted);
            }
            self.operation("GetPartialObject", code, &params)
        } else {
            let params: [u32; 3] = [handle, offset as u32, count as u32];
            proof {
                assert(params@ =~= wanted);
            }
            self.operation("GetPartialObject", code, &params)
        }
    }

    /// Starts reading part of an object.
    ///
    /// A Samsung stops when a read reaches the end of the file and its last packet holds exactly 512
    /// bytes. The read then asks for one byte less, and reads the last byte in a second request. One
    /// byte is no whole packet, so the second request does not stop the device.
    pub fn read_at(&mut self, handle: u32, offset: u64, want: usize, file_size: u64) -> (r: Step<
        Reading,
        Vec<u8>,
    >)
        requires
            old(self).wf(),
            offset + want <= u64::MAX,
        ensures
            if want == 0 {
                &&& r is Over
                &&& r->Over_0 is Ok
                &&& r->Over_0->Ok_0@.len() == 0
                &&& final(self)@ == old(self)@
            } else {
                let start = ReadingView::start(handle, offset, want as u64, file_size);
                &&& r is Exchange
                &&& r->Exchange_0@ == start
                &&& r->Exchange_0@.wf()
                &&& final(self)@ == old(self)@.taken()
                &&& r->Exchange_1@ == old(self)@.started(
                    "GetPartialObject",
                    old(self)@.partial_read,
                    old(self)@.read_params(handle, offset, start.asked),
                )
                &&& r->Exchange_1@.wf()
            },
    {
        if want == 0 {
            return Step::Over(Ok(Vec::new()));
        }
        let want: u64 = want as u64;
        let mut asked: u64 = want;
        if offset + want >= file_size && want % USB2_PACKET == 0 {
            asked = want - 1;
        }
        let x = self.read_part(handle, offset, asked);
        Step::Exchange(
            Reading { handle, offset, asked, rest: want - asked, data: Vec::new() },
            x,
        )
    }
}

impl Reading {
    /// Takes in the outcome of the operation that was due.
    pub fn answered(self, mtp: &mut Mtp, r: Result<Outcome, SessionError>) -> (step: Step<
        Reading,
        Vec<u8>,
    >)
        requires
            old(mtp).wf(),
            self@.wf(),
        ensures
            match payload_of("GetPartialObject", r) {
                Err(e) => step == Step::<Reading, Vec<u8>>::Over(Err(e)) && final(mtp)@ == old(
                    mtp)@,
                Ok(data) => if self@.goes_on(data) {
                    let next = self@.next(data);
                    &&& step is Exchange
                    &&& step->Exchange_0@ == next
                    &&& step->Exchange_0@.wf()
                    &&& final(mtp)@ == old(mtp)@.taken()
                    &&& step->Exchange_1@ == old(mtp)@.started(
                        "GetPartialObject",
                        old(mtp)@.partial_read,
                        old(mtp)@.read_params(next.handle, next.offset, next.asked),
                    )
                    &&& step->Exchange_1@.wf()
                } else {
                    &&& step is Over
                    &&& step->Over_0 is Ok
                    &&& step->Over_0->Ok_0@ == self@.data + data
                    &&& final(mtp)@ == old(mtp)@
                },
            },
    {
        let data = match payload("GetPartialObject", r) {
            Err(e) => {
                return Step::Over(Err(e));
            },
            Ok(d) => d,
        };
        let count: u64 = data.len() as u64;
        let mut all = self.data;
        let ghost before = all@;
        let mut more = data;
        all.append(&mut more);
        proof {
            assert(all@ =~= before + data@);
        }
        if self.rest > 0 && count == self.asked {
            let offset: u64 = self.offset + self.asked;
            let x = mtp.read_part(self.handle, offset, self.rest);
            return Step::Exchange(
                Reading {
                    handle: self.handle,
                    offset,
                    asked: self.rest,
                    rest: 0,
                    data: all,
                },
                x,
            );
        }
        Step::Over(Ok(all))
    }
}

/// No request of a read stops a device: neither the first one, nor the one that reads the rest. The two
/// requests follow each other and ask for exactly the bytes that the caller asked for.
pub proof fn law_no_request_stops_a_device(
    handle: u32,
    offset: u64,
    want: u64,
    file_size: u64,
    data: Seq<u8>,
)
    requires
        want > 0,
        offset + want <= u64::MAX,
    ensures
        ({
            let first = ReadingView::start(handle, offset, want, file_size);
            let second = first.next(data);
            &&& !stops_a_device(first.offset as int, first.asked as int, file_size as int)
            &&& first.rest > 0 ==> !stops_a_device(
                second.offset as int,
                second.asked as int,
                file_size as int,
            )
            &&& first.asked + first.rest == want
            &&& second.offset == first.offset + first.asked
            &&& second.asked == first.rest
            &&& first.rest <= 1
        }),
{
    if stops_a_device(offset as int, want as int, file_size as int) {
        assert((want - 1) % 512 == 511) by {
            assert(want % 512 == 0);
        }
    }
}

/// The bytes of a file that a device gives to a partial read.
pub open spec fn device_bytes(file: Seq<u8>, offset: int, count: int) -> Seq<u8> {
    if offset >= file.len() {
        Seq::empty()
    } else if offset + count <= file.len() {
        file.subrange(offset, offset + count)
    } else {
        file.skip(offset)
    }
}

/// A read gives the bytes of the file: from a device that gives what each request asks for, the caller
/// gets every byte that it asked for, also where the read takes two requests.
pub proof fn law_a_read_gives_the_bytes_of_the_file(
    handle: u32,
    offset: u64,
    want: u64,
    file: Seq<u8>,
)
    requires
        want > 0,
        offset + want <= file.len() <= u64::MAX,
    ensures
        ({
            let first = ReadingView::start(handle, offset, want, file.len() as u64);
            let a = device_bytes(file, first.offset as int, first.asked as int);
            let second = first.next(a);
            let b = device_bytes(file, second.offset as int, second.asked as int);
            let wanted = file.subrange(offset as int, offset + want);
            if first.goes_on(a) {
                !second.goes_on(b) && second.data + b == wanted
            } else {
                first.data + a == wanted
            }
        }),
{
    let first = ReadingView::start(handle, offset, want, file.len() as u64);
    let a = device_bytes(file, first.offset as int, first.asked as int);
    let second = first.next(a);
    let b = device_bytes(file, second.offset as int, second.asked as int);
    let wanted = file.subrange(offset as int, offset + want);
    if first.goes_on(a) {
        assert(second.data + b =~= wanted);
    } else {
        assert(first.data + a =~= wanted);
    }
}

/// A new object on its way to the device: what it is, and then its bytes.
#[derive(Debug)]
pub struct Storing {
    data: Option<Vec<u8>>,
    handle: Option<u32>,
}

/// What a [`Storing`] holds.
pub struct StoringView {
    /// The bytes of a file, until they are sent.
    pub data: Option<Seq<u8>>,
    /// The handle that the device gave to the object.
    pub handle: Option<u32>,
}

impl View for Storing {
    type V = StoringView;

    closed spec fn view(&self) -> StoringView {
        StoringView {
            data: match self.data {
                Some(v) => Some(v@),
                None => None,
            },
            handle: self.handle,
        }
    }
}

/// The handle of a new object, from the parameters of the response to `SendObjectInfo`: the storage, the
/// folder and the object.
pub open spec fn new_handle(params: Seq<u32>) -> Option<u32> {
    if params.len() > 2 {
        Some(params[2])
    } else {
        None
    }
}

/// The fault of a file that no container can carry.
pub open spec fn file_too_large(len: int) -> Error {
    Error::Session(
        SessionError::Build { step: "SendObject", source: PayloadTooLarge { len: len as u64 } },
    )
}

impl Mtp {
    /// Starts sending a new object: a file with its bytes, or a folder.
    ///
    /// MTP needs the size of a file before the bytes, and the size has 32 bits. A file that is too
    /// large is a fault, before anything is sent.
    pub fn send_object(&mut self, parent: u32, name: &str, data: Vec<u8>, is_folder: bool) -> (r: Step<
        Storing,
        Option<u32>,
    >)
        requires
            old(self).wf(),
        ensures
            if data@.len() > MAX_PAYLOAD_LEN {
                r == Step::<Storing, Option<u32>>::Over(Err(file_too_large(data@.len() as int)))
                    && final(self)@ == old(self)@
            } else {
                &&& r is Exchange
                &&& r->Exchange_0@ == (StoringView {
                    data: if is_folder {
                        None
                    } else {
                        Some(data@)
                    },
                    handle: None,
                })
                &&& r->Exchange_0.wf()
                &&& final(self)@ == old(self)@.taken()
                &&& r->Exchange_1@ == old(self)@.started_sending(
                    "SendObjectInfo",
                    op::SEND_OBJECT_INFO,
                    seq![old(self)@.storage, folder_arg(parent)],
                    object::object_bytes(
                        old(self)@.storage,
                        parent,
                        name@,
                        data@.len() as u32,
                        is_folder,
                    ),
                )
                &&& r->Exchange_1@.wf()
            },
    {
        if data.len() > MAX_PAYLOAD_LEN {
            return Step::Over(
                Err(
                    Error::Session(
                        SessionError::Build {
                            step: "SendObject",
                            source: PayloadTooLarge { len: data.len() as u64 },
                        },
                    ),
                ),
            );
        }
        let dataset = ObjectInfo::build_for_send(
            self.storage,
            parent,
            name,
            data.len() as u32,
            is_folder,
        );
        let params: [u32; 2] = [self.storage, folder_argument(parent)];
        proof {
            assert(params@ =~= seq![self.storage, folder_arg(parent)]);
            object::lemma_object_bytes_are_few(
                self.storage,
                parent,
                name@,
                data@.len() as u32,
                is_folder,
            );
        }
        match self.session.operation_with_data(
            "SendObjectInfo",
            op::SEND_OBJECT_INFO,
            &params,
            dataset,
        ) {
            Ok(x) => {
                let held: Option<Vec<u8>> = if is_folder {
                    None
                } else {
                    Some(data)
                };
                Step::Exchange(Storing { data: held, handle: None }, x)
            },
            Err(e) => Step::Over(Err(Error::from(e))),
        }
    }

    /// Starts removing an object.
    pub fn delete_object(&mut self, handle: u32) -> (r: Exchange)
        requires
            old(self).wf(),
        ensures
            final(self)@ == old(self)@.taken(),
            r@ == old(self)@.started("DeleteObject", op::DELETE_OBJECT, seq![handle, 0]),
            r@.wf(),
    {
        let params: [u32; 2] = [handle, 0];
        proof {
            assert(params@ =~= seq![handle, 0]);
        }
        self.operation("DeleteObject", op::DELETE_OBJECT, &params)
    }

    /// What the outcome of a removal means.
    pub fn deleted(&self, r: Result<Outcome, SessionError>) -> (out: Result<(), Error>)
        ensures
            out == (match payload_of("DeleteObject", r) {
                Ok(_) => Ok::<(), Error>(()),
                Err(e) => Err(e),
            }),
    {
        match payload("DeleteObject", r) {
            Ok(_) => Ok(()),
            Err(e) => Err(e),
        }
    }
}

impl Storing {
    /// The bytes can be sent, and are sent before the object is complete.
    pub open spec fn wf(&self) -> bool {
        self@.data is Some ==> self@.data->0.len() <= MAX_PAYLOAD_LEN && self@.handle is None
    }

    /// Takes in the outcome of `SendObjectInfo`. A folder is complete then, and a file needs its bytes.
    pub fn announced(self, mtp: &mut Mtp, r: Result<Outcome, SessionError>) -> (step: Step<
        Storing,
        Option<u32>,
    >)
        requires
            old(mtp).wf(),
            self.wf(),
        ensures
            match payload_of("SendObjectInfo", r) {
                Err(e) => step == Step::<Storing, Option<u32>>::Over(Err(e)) && final(mtp)@ == old(
                    mtp)@,
                Ok(_) => {
                    let handle = new_handle(r->Ok_0.response_params@);
                    match self@.data {
                        None => step == Step::<Storing, Option<u32>>::Over(Ok(handle)) && final(
                            mtp)@ == old(mtp)@,
                        Some(data) => {
                            &&& step is Exchange
                            &&& step->Exchange_0@ == (StoringView { data: None, handle })
                            &&& final(mtp)@ == old(mtp)@.taken()
                            &&& step->Exchange_1@ == old(mtp)@.started_sending(
                                "SendObject",
                                op::SEND_OBJECT,
                                Seq::empty(),
                                data,
                            )
                            &&& step->Exchange_1@.wf()
                        },
                    }
                },
            },
    {
        let handle: Option<u32> = match &r {
            Ok(o) => {
                if o.response_params.len() > 2 {
                    Some(o.response_params[2])
                } else {
                    None
                }
            },
            Err(_) => None,
        };
        match payload("SendObjectInfo", r) {
            Err(e) => {
                return Step::Over(Err(e));
            },
            Ok(_) => {},
        }
        match self.data {
            None => Step::Over(Ok(handle)),
            Some(data) => {
                let params: [u32; 0] = [];
                proof {
                    assert(params@ =~= Seq::empty());
                }
                match mtp.session.operation_with_data(
                    "SendObject",
                    op::SEND_OBJECT,
                    &params,
                    data,
                ) {
                    Ok(x) => Step::Exchange(Storing { data: None, handle }, x),
                    Err(e) => Step::Over(Err(Error::from(e))),
                }
            },
        }
    }

    /// Takes in the outcome of `SendObject`, and gives the handle of the new object.
    pub fn sent(self, r: Result<Outcome, SessionError>) -> (out: Result<Option<u32>, Error>)
        ensures
            out == (match payload_of("SendObject", r) {
                Ok(_) => Ok::<Option<u32>, Error>(self@.handle),
                Err(e) => Err(e),
            }),
    {
        match payload("SendObject", r) {
            Ok(_) => Ok(self.handle),
            Err(e) => Err(e),
        }
    }
}

/// A writer that takes every byte and keeps none. It stands where an operation needs a writer that the
/// host can let go.
#[derive(Debug, Clone, Copy, PartialEq, Eq)]
pub struct Sink;

impl Sink {
    /// Takes the bytes, and gives their count.
    pub fn write(&mut self, buf: &[u8]) -> (r: usize)
        ensures
            r == buf@.len(),
            *final(self) == *old(self),
    {
        buf.len()
    }
}

/// The parameters of a partial read name the object and the range that was asked for. With 64 bits of offset,
/// the second parameter and 2^32 times the third are the offset, and the fourth is the count. With 32 bits,
/// the second is the offset and the third is the count, as far as 32 bits hold them.
pub proof fn law_read_parameters_name_the_range(mtp: MtpView, handle: u32, offset: u64, count: u64)
    ensures
        ({
            let p = mtp.read_params(handle, offset, count);
            if mtp.partial_read == 0x95c1 {
                &&& p.len() == 4
                &&& p[0] == handle
                &&& p[1] + 0x1_0000_0000 * p[2] == offset
                &&& count <= u32::MAX ==> p[3] == count
            } else {
                &&& p.len() == 3
                &&& p[0] == handle
                &&& offset <= u32::MAX ==> p[1] == offset
                &&& count <= u32::MAX ==> p[2] == count
            }
        }),
{
}

/// What a device that holds these files gives to a partial read, by the bytes of the command alone: the
/// object, the offset and the count are the parameters of the command, and the code of the operation says
/// whether the offset takes one parameter or two.
pub open spec fn served(files: spec_fn(u32) -> Seq<u8>, command: Seq<u8>) -> Seq<u8> {
    let file = files(bytes::u32_at(command, 12));
    if bytes::u16_at(command, 6) == 0x95c1 {
        device_bytes(
            file,
            bytes::u32_at(command, 16) + 0x1_0000_0000 * bytes::u32_at(command, 20),
            bytes::u32_at(command, 24) as int,
        )
    } else {
        device_bytes(file, bytes::u32_at(command, 16) as int, bytes::u32_at(command, 20) as int)
    }
}

/// The bytes of the command that starts one request of a partial read.
pub open spec fn read_command(mtp: MtpView, r: ReadingView) -> Seq<u8> {
    mtp.started(
        "GetPartialObject",
        mtp.partial_read,
        mtp.read_params(r.handle, r.offset, r.asked),
    ).phase->Command_0
}

/// A read gives the bytes of the object that the caller asked for, from a device that serves exactly what the
/// parameters of each command say, for every offset that the operation can name.
pub proof fn law_a_read_gives_what_its_commands_ask_for(
    mtp: MtpView,
    files: spec_fn(u32) -> Seq<u8>,
    handle: u32,
    offset: u64,
    want: u64,
)
    requires
        mtp.session.config.wf(),
        0 < want <= u32::MAX,
        offset + want <= files(handle).len() <= u64::MAX,
        mtp.partial_read == 0x95c1 || offset + want <= 0x1_0000_0000,
    ensures
        ({
            let first = ReadingView::start(handle, offset, want, files(handle).len() as u64);
            let a = served(files, read_command(mtp, first));
            let second = first.next(a);
            let b = served(files, read_command(mtp.taken(), second));
            let wanted = files(handle).subrange(offset as int, offset + want);
            if first.goes_on(a) {
                !second.goes_on(b) && second.data + b == wanted
            } else {
                first.data + a == wanted
            }
        }),
{
    let file = files(handle);
    let first = ReadingView::start(handle, offset, want, file.len() as u64);
    lemma_served(mtp, files, first);
    let a = served(files, read_command(mtp, first));
    assert(a == device_bytes(file, first.offset as int, first.asked as int));
    let second = first.next(a);
    if first.goes_on(a) {
        lemma_served(mtp.taken(), files, second);
    }
    law_a_read_gives_the_bytes_of_the_file(handle, offset, want, file);
}

proof fn lemma_served(mtp: MtpView, files: spec_fn(u32) -> Seq<u8>, r: ReadingView)
    requires
        mtp.session.config.wf(),
        r.asked <= u32::MAX,
        mtp.partial_read == 0x95c1 || r.offset <= u32::MAX,
    ensures
        served(files, read_command(mtp, r)) == device_bytes(
            files(r.handle),
            r.offset as int,
            r.asked as int,
        ),
{
    let p = mtp.read_params(r.handle, r.offset, r.asked);
    law_read_parameters_name_the_range(mtp, r.handle, r.offset, r.asked);
    crate::session::state::law_an_operation_starts_with_its_command(
        mtp.session,
        "GetPartialObject",
        mtp.partial_read,
        p,
        true,
    );
    let c = read_command(mtp, r);
    assert(bytes::u32_at(c, 12) == p[0]);
    assert(bytes::u32_at(c, 16) == p[1]);
    assert(bytes::u32_at(c, 20) == p[2]);
    if mtp.partial_read == 0x95c1 {
        assert(bytes::u32_at(c, 24) == p[3]);
    }
}

/// A read is split only where it must be. It takes one request, for all of the bytes, unless it reaches the
/// end of the file with a whole number of packets of 512 bytes. It then takes two, and neither of them reaches
/// the end with a whole number of packets. A device that gives fewer bytes than it was asked for ends the read.
pub proof fn law_when_a_read_takes_two_requests(
    handle: u32,
    offset: u64,
    want: u64,
    file_size: u64,
    data: Seq<u8>,
)
    requires
        want > 0,
        offset + want <= u64::MAX,
    ensures
        ({
            let first = ReadingView::start(handle, offset, want, file_size);
            let second = first.next(data);
            let split = offset + want >= file_size && want % 512 == 0;
            &&& first.handle == handle && first.offset == offset && first.data.len() == 0
            &&& !split ==> first.asked == want && !first.goes_on(data)
            &&& split ==> first.asked == want - 1 && (first.goes_on(data) <==> data.len() == want - 1)
            &&& split ==> second.handle == handle && second.offset == offset + want - 1
                && second.asked == 1 && second.data == data
            &&& !(first.offset + first.asked >= file_size && first.asked % 512 == 0)
            &&& split ==> !(second.offset + second.asked >= file_size && second.asked % 512 == 0)
            &&& forall|more: Seq<u8>| !#[trigger] second.goes_on(more)
        }),
{
    let first = ReadingView::start(handle, offset, want, file_size);
    assert(first.next(data).data =~= data);
}

/// An array dataset of `n` values reads as exactly those `n` values, in order: a count field and then the
/// values, four little-endian bytes each. Up to three bytes behind the last value are ignored.
pub proof fn law_an_array_reads_as_its_values(v: Seq<u32>, tail: Seq<u8>)
    requires
        v.len() <= u32::MAX,
        tail.len() < 4,
    ensures
        values_behind_count(bytes::u32_bytes(v.len() as u32) + bytes::u32_list_bytes(v) + tail)
            == v,
{
    let count = bytes::u32_bytes(v.len() as u32);
    let list = bytes::u32_list_bytes(v);
    let data = count + list + tail;
    assert(data.skip(4) =~= list + tail);
    container::law_parameters_round_trip(v, tail);
}

/// Whatever the count says, the values are all the whole groups of four bytes behind it, each the value of
/// its four bytes.
pub proof fn law_values_are_the_bytes_behind_the_count(data: &[u8], r: Vec<u32>)
    requires
        call_ensures(values_in, (data,), r),
    ensures
        data@.len() < 4 ==> r@.len() == 0,
        data@.len() >= 4 ==> 4 * r@.len() + 4 <= data@.len() < 4 * r@.len() + 8,
        forall|i: int|
            0 <= i < r@.len() ==> #[trigger] r@[i] == data@[4 + 4 * i] + 256 * (data@[5 + 4 * i] + 256
                * (data@[6 + 4 * i] + 256 * data@[7 + 4 * i])),
{
    if data@.len() >= 4 {
        assert forall|i: int| 0 <= i < r@.len() implies #[trigger] r@[i] == data@[4 + 4 * i] + 256
            * (data@[5 + 4 * i] + 256 * (data@[6 + 4 * i] + 256 * data@[7 + 4 * i])) by {
            assert(r@[i] == bytes::u32_at(data@.skip(4), 4 * i));
            bytes::law_numbers_are_little_endian(data@.skip(4), 4 * i);
        }
    }
}

/// What a dataset says of an object, byte by byte: it is a folder where the format is 0x3001, and the size of
/// anything else is the four bytes behind the protection status. The name is the string behind the fixed
/// fields, and the handle and the folder are those that were asked about.
pub proof fn law_what_a_dataset_says_of_an_object(parent: u32, handle: u32, raw: Seq<u8>)
    ensures
        entry_from(parent, handle, raw) is Some <==> raw.len() >= 52 && reader::string_at(
            raw,
            52,
            "filename",
        ) is Ok,
        entry_from(parent, handle, raw) is Some ==> {
            let e = entry_from(parent, handle, raw)->0;
            &&& e.handle == handle
            &&& e.parent == parent
            &&& reader::string_at(raw, 52, "filename") == Ok::<
                Seq<char>,
                crate::ptp::error::ParseError,
            >(e.name)
            &&& e.is_dir <==> raw[4] + 256 * raw[5] == 0x3001
            &&& e.is_dir ==> e.size == 0
            &&& !e.is_dir ==> e.size == raw[8] + 256 * (raw[9] + 256 * (raw[10] + 256 * raw[11]))
        },
{
    object::law_which_datasets_can_be_read(raw);
    bytes::law_numbers_are_little_endian(raw, 8);
}

/// An object of a device: what `ObjectInfo` announces, and how it is listed.
pub struct DeviceObject {
    pub storage: u32,
    pub holder: u32,
    pub name: Seq<char>,
    pub size: u32,
    pub is_folder: bool,
}

/// Whether a listed entry is the object: with its handle, its size unless it is a folder, and its name, as far
/// as the wire can carry it.
pub open spec fn is_listed_as(o: DeviceObject, parent: u32, handle: u32, e: EntryView) -> bool {
    &&& e.handle == handle
    &&& e.parent == parent
    &&& e.is_dir == o.is_folder
    &&& e.size == if o.is_folder {
        0
    } else {
        o.size
    }
    &&& reader::is_longest_that_fits(e.name, o.name)
    &&& utf16::encode(o.name).len() <= 254 ==> e.name == o.name
}

/// A folder lists all of its objects, however many there are: where the device answers with an array of their
/// handles, and then with the dataset of each, the listing has one entry for each, in the order of the device,
/// with the handle, the kind, the size and the name of the object.
pub proof fn law_a_folder_lists_all_its_objects(
    parent: u32,
    handles: Seq<u32>,
    objects: Seq<DeviceObject>,
    infos: Seq<Seq<u8>>,
)
    requires
        handles.len() <= u32::MAX,
        objects.len() == handles.len(),
        infos.len() == handles.len(),
        forall|i: int|
            0 <= i < infos.len() ==> #[trigger] infos[i] == object::object_bytes(
                objects[i].storage,
                objects[i].holder,
                objects[i].name,
                objects[i].size,
                objects[i].is_folder,
            ),
    ensures
        ({
            let start = ListingView { parent, handles: None, done: 0, out: Seq::empty() };
            let data = bytes::u32_bytes(handles.len() as u32) + bytes::u32_list_bytes(handles);
            let l = after_infos(start.with_payload(data), infos);
            &&& start.with_payload(data).handles == Some(handles)
            &&& !l.is_open()
            &&& l.out.len() == handles.len()
            &&& forall|i: int|
                0 <= i < handles.len() ==> is_listed_as(
                    objects[i],
                    parent,
                    handles[i],
                    #[trigger] l.out[i],
                )
        }),
{
    let data = bytes::u32_bytes(handles.len() as u32) + bytes::u32_list_bytes(handles);
    assert(data =~= bytes::u32_bytes(handles.len() as u32) + bytes::u32_list_bytes(handles)
        + Seq::<u8>::empty());
    law_an_array_reads_as_its_values(handles, Seq::empty());
    law_a_listing_gives_every_object(parent, data, infos);
    lemma_all_objects(parent, handles, objects, infos);
}

proof fn lemma_all_objects(
    parent: u32,
    handles: Seq<u32>,
    objects: Seq<DeviceObject>,
    infos: Seq<Seq<u8>>,
)
    requires
        infos.len() <= handles.len(),
        infos.len() <= objects.len(),
        forall|i: int|
            0 <= i < infos.len() ==> #[trigger] infos[i] == object::object_bytes(
                objects[i].storage,
                objects[i].holder,
                objects[i].name,
                objects[i].size,
                objects[i].is_folder,
            ),
    ensures
        ({
            let out = objects_of(parent, handles, infos);
            &&& out.len() == infos.len()
            &&& forall|i: int|
                0 <= i < infos.len() ==> is_listed_as(
                    objects[i],
                    parent,
                    handles[i],
                    #[trigger] out[i],
                )
        }),
    decreases infos.len(),
{
    if infos.len() > 0 {
        let front = infos.drop_last();
        let k = infos.len() - 1;
        assert forall|i: int| 0 <= i < front.len() implies #[trigger] front[i]
            == object::object_bytes(
            objects[i].storage,
            objects[i].holder,
            objects[i].name,
            objects[i].size,
            objects[i].is_folder,
        ) by {
            assert(front[i] == infos[i]);
        }
        lemma_all_objects(parent, handles, objects, front);
        let o = objects[k];
        assert(infos[k] == object::object_bytes(o.storage, o.holder, o.name, o.size, o.is_folder));
        law_an_announced_object_is_listed(parent, handles[k], o);
    }
}

/// The dataset that announces an object lists as that object.
pub proof fn law_an_announced_object_is_listed(parent: u32, handle: u32, o: DeviceObject)
    ensures
        ({
            let raw = object::object_bytes(o.storage, o.holder, o.name, o.size, o.is_folder);
            &&& entry_from(parent, handle, raw) is Some
            &&& is_listed_as(o, parent, handle, entry_from(parent, handle, raw)->0)
        }),
{
    object::lemma_an_announced_object_reads(o.storage, o.holder, o.name, o.size, o.is_folder);
}

/// An object that cannot be read is left out of the listing, and every other object stays.
pub proof fn law_only_unreadable_objects_are_left_out(
    l: ListingView,
    raw: Seq<u8>,
)
    requires
        l.handles is Some,
    ensures
        ({
            let next = l.with_payload(raw);
            let h = l.handles->0[l.done as int];
            &&& next.parent == l.parent && next.handles == l.handles && next.done == l.done + 1
            &&& entry_from(l.parent, h, raw) is None ==> next.out == l.out
            &&& entry_from(l.parent, h, raw) is Some ==> next.out == l.out.push(
                entry_from(l.parent, h, raw)->0,
            )
        }),
{
}

/// The root of the filesystem is named to a device by 0xffffffff, and any other folder by its own handle.
pub proof fn law_how_a_folder_is_named(parent: u32)
    ensures
        parent == 0 ==> folder_arg(parent) == 0xffff_ffff,
        parent != 0 ==> folder_arg(parent) == parent,
{
}

/// The handle of a new object is the third parameter of the response, and there is none in a response with
/// fewer.
pub proof fn law_which_parameter_is_the_new_handle(params: Seq<u32>, h: u32, more: Seq<u32>)
    requires
        params.len() == 2,
    ensures
        new_handle(params + seq![h] + more) == Some(h),
        new_handle(params) is None,
        new_handle(params.take(1)) is None,
        new_handle(params.take(0)) is None,
{
}

/// Only an answer of 0x2001 is a success, and it gives the data of the answer. Any other answer is a fault
/// that holds its code, and a fault of the session stays a fault.
pub proof fn law_what_an_outcome_gives(step: &'static str, r: Result<Outcome, SessionError>)
    ensures
        r is Ok && r->Ok_0.response_code == 0x2001 ==> payload_of(step, r) == Ok::<Seq<u8>, Error>(
            r->Ok_0.data@,
        ),
        r is Ok && r->Ok_0.response_code != 0x2001 ==> payload_of(step, r) == Err::<Seq<u8>, Error>(
            Error::Device { step, code: r->Ok_0.response_code },
        ),
        r is Err ==> payload_of(step, r) is Err,
        r is Err && r->Err_0 is Usb ==> payload_of(step, r) == Err::<Seq<u8>, Error>(
            Error::Usb(r->Err_0->Usb_source),
        ),
        r is Err && r->Err_0 is Parse ==> payload_of(step, r) == Err::<Seq<u8>, Error>(
            Error::Parse(r->Err_0->Parse_source),
        ),
        r is Err && !(r->Err_0 is Usb) && !(r->Err_0 is Parse) ==> payload_of(step, r) == Err::<Seq<u8>, Error>(
            Error::Session(r->Err_0),
        ),
{
}

/// A stored object goes to the device whole: the dataset of its announcement and the bytes of its contents
/// each stand behind the header of a data container, and the announcement names the storage and the folder.
pub proof fn law_a_stored_object_is_sent_whole(
    mtp: MtpView,
    parent: u32,
    name: Seq<char>,
    data: Seq<u8>,
    is_folder: bool,
)
    requires
        mtp.session.config.wf(),
        data.len() + 12 <= u32::MAX,
    ensures
        ({
            let dataset = object::object_bytes(mtp.storage, parent, name, data.len() as u32, is_folder);
            let announce = crate::session::exchange::write_log(
                mtp.started_sending(
                    "SendObjectInfo",
                    op::SEND_OBJECT_INFO,
                    seq![mtp.storage, folder_arg(parent)],
                    dataset,
                ),
            );
            let send = crate::session::exchange::write_log(
                mtp.started_sending("SendObject", op::SEND_OBJECT, Seq::empty(), data),
            );
            let announced = crate::session::answer::all_bytes(announce.skip(1));
            let sent = crate::session::answer::all_bytes(send.skip(1));
            &&& bytes::u16_at(announce[0], 6) == 0x100c
            &&& bytes::u32_at(announce[0], 12) == mtp.storage
            &&& bytes::u32_at(announce[0], 16) == folder_arg(parent)
            &&& announced.skip(12) == dataset
            &&& bytes::u16_at(send[0], 6) == 0x100d
            &&& bytes::u32_at(sent, 0) == 12 + data.len()
            &&& sent.skip(12) == data
        }),
{
    let dataset = object::object_bytes(mtp.storage, parent, name, data.len() as u32, is_folder);
    object::lemma_object_bytes_are_few(mtp.storage, parent, name, data.len() as u32, is_folder);
    let p = seq![mtp.storage, folder_arg(parent)];
    crate::session::state::law_an_operation_sends_its_payload(
        mtp.session,
        "SendObjectInfo",
        op::SEND_OBJECT_INFO,
        p,
        dataset,
    );
    let announce = crate::session::exchange::write_log(
        mtp.started_sending("SendObjectInfo", op::SEND_OBJECT_INFO, p, dataset),
    );
    assert(bytes::u32_at(announce[0], 12) == p[0]);
    assert(bytes::u32_at(announce[0], 16) == p[1]);
    crate::session::state::law_an_operation_sends_its_payload(
        mtp.session,
        "SendObject",
        op::SEND_OBJECT,
        Seq::empty(),
        data,
    );
}

/// Whether a backend took one transaction, and nothing else of it changed.
pub open spec fn took_one(m: MtpView, n: MtpView) -> bool {
    &&& crate::session::state::took_one(m.session, n.session)
    &&& n.storage == m.storage
    &&& n.partial_read == m.partial_read
    &&& n.info == m.info
}

/// Whether an operation of the backend starts with this command, and keeps what it reads.
pub open spec fn asks(x: ExchangeView, m: MtpView, code: u16, params: Seq<u32>) -> bool {
    &&& crate::session::state::starts(x, m.session, code, params)
    &&& x.sink == Some(Seq::<u8>::empty())
}

proof fn lemma_asks(m: MtpView, step: &'static str, code: u16, params: Seq<u32>)
    requires
        m.session.config.wf(),
        params.len() <= 5,
    ensures
        asks(m.started(step, code, params), m, code, params),
        took_one(m, m.taken()),
{
    crate::session::state::law_an_operation_starts_with_its_command(
        m.session,
        step,
        code,
        params,
        true,
    );
}

/// A listing starts by asking for the handles of the folder in the storage of the backend: 0xffffffff names the
/// root, and every other folder is named by its handle. A removal asks to remove the one object.
pub proof fn law_what_listing_and_removing_ask_for(parent: u32, handle: u32)
    ensures
        forall|m: &mut Mtp, r: (Listing, Exchange)| #[trigger]
            call_ensures(Mtp::list, (m, parent), r) && (*m).wf() ==> {
                let (l, x) = r;
                &&& l@.parent == parent
                &&& l@.handles is None
                &&& l@.done == 0
                &&& l@.out.len() == 0
                &&& asks(
                    x@,
                    (*m)@,
                    0x1007,
                    seq![
                        (*m)@.storage,
                        0,
                        if parent == 0 {
                            0xffff_ffff
                        } else {
                            parent
                        },
                    ],
                )
                &&& took_one((*m)@, final(m)@)
            },
        forall|m: &mut Mtp, x: Exchange| #[trigger]
            call_ensures(Mtp::delete_object, (m, handle), x) && (*m).wf() ==> {
                &&& asks(x@, (*m)@, 0x100b, seq![handle, 0])
                &&& took_one((*m)@, final(m)@)
            },
{
    assert forall|m: &mut Mtp, r: (Listing, Exchange)| #[trigger]
        call_ensures(Mtp::list, (m, parent), r) && (*m).wf() implies {
        let (_, x) = r;
        asks(
            x@,
            (*m)@,
            0x1007,
            seq![
                (*m)@.storage,
                0,
                if parent == 0 {
                    0xffff_ffff
                } else {
                    parent
                },
            ],
        ) && took_one((*m)@, final(m)@)
    } by {
        lemma_asks(
            (*m)@,
            "GetObjectHandles",
            OP_GET_OBJECT_HANDLES,
            seq![(*m)@.storage, 0, folder_arg(parent)],
        );
    }
    assert forall|m: &mut Mtp, x: Exchange| #[trigger]
        call_ensures(Mtp::delete_object, (m, handle), x) && (*m).wf() implies asks(
        x@,
        (*m)@,
        0x100b,
        seq![handle, 0],
    ) && took_one((*m)@, final(m)@) by {
        lemma_asks((*m)@, "DeleteObject", op::DELETE_OBJECT, seq![handle, 0]);
    }
}

/// A listing that gets the array of the handles holds all of them, and asks about the first. An empty folder
/// gives no object.
pub proof fn law_a_listing_starts_with_the_first_handle(l: Listing, v: Seq<u32>, out: Outcome)
    requires
        l.wf(),
        l@.handles is None,
        l@.done == 0,
        v.len() <= u32::MAX,
        out.response_code == 0x2001,
        out.data@ == bytes::u32_bytes(v.len() as u32) + bytes::u32_list_bytes(v),
    ensures
        forall|m: &mut Mtp, step: Step<Listing, Vec<Entry>>| #[trigger]
            call_ensures(Listing::answered, (l, m, Ok(out)), step) && (*m).wf() ==> {
                &&& v.len() > 0 ==> {
                    &&& step is Exchange
                    &&& step->Exchange_0@.handles == Some(v)
                    &&& step->Exchange_0@.done == 0
                    &&& step->Exchange_0@.parent == l@.parent
                    &&& step->Exchange_0@.out == l@.out
                    &&& asks(step->Exchange_1@, (*m)@, 0x1008, seq![v[0]])
                    &&& took_one((*m)@, final(m)@)
                }
                &&& v.len() == 0 ==> step is Over && step->Over_0 is Ok && entry_views(
                    step->Over_0->Ok_0@,
                ) == l@.out
            },
{
    assert(values_behind_count(out.data@) == v) by {
        assert(out.data@ =~= bytes::u32_bytes(v.len() as u32) + bytes::u32_list_bytes(v) + Seq::<
            u8,
        >::empty());
        law_an_array_reads_as_its_values(v, Seq::empty());
    }
    if v.len() > 0 {
        assert forall|m: &mut Mtp, step: Step<Listing, Vec<Entry>>| #[trigger]
            call_ensures(Listing::answered, (l, m, Ok(out)), step) && (*m).wf() implies asks(
            step->Exchange_1@,
            (*m)@,
            0x1008,
            seq![v[0]],
        ) && took_one((*m)@, final(m)@) by {
            lemma_asks((*m)@, "GetObjectInfo", OP_GET_OBJECT_INFO, seq![v[0]]);
        }
    }
}

/// A listing asks about each handle behind the other, for every handle that it holds. When none is left, it
/// gives the objects that it could read.
pub proof fn law_a_listing_goes_on_with_the_next_handle(l: Listing, v: Seq<u32>, out: Outcome)
    requires
        l.wf(),
        l@.handles == Some(v),
        out.response_code == 0x2001,
    ensures
        forall|m: &mut Mtp, step: Step<Listing, Vec<Entry>>| #[trigger]
            call_ensures(Listing::answered, (l, m, Ok(out)), step) && (*m).wf() ==> {
                let e = entry_from(l@.parent, v[l@.done as int], out.data@);
                let objects = if e is Some {
                    l@.out.push(e->0)
                } else {
                    l@.out
                };
                &&& l@.done + 1 < v.len() ==> {
                    &&& step is Exchange
                    &&& step->Exchange_0@.handles == Some(v)
                    &&& step->Exchange_0@.done == l@.done + 1
                    &&& step->Exchange_0@.parent == l@.parent
                    &&& step->Exchange_0@.out == objects
                    &&& asks(step->Exchange_1@, (*m)@, 0x1008, seq![v[(l@.done + 1) as int]])
                    &&& took_one((*m)@, final(m)@)
                }
                &&& l@.done + 1 == v.len() ==> step is Over && step->Over_0 is Ok && entry_views(
                    step->Over_0->Ok_0@,
                ) == objects
            },
{
    if l@.done + 1 < v.len() {
        let h = v[(l@.done + 1) as int];
        assert forall|m: &mut Mtp, step: Step<Listing, Vec<Entry>>| #[trigger]
            call_ensures(Listing::answered, (l, m, Ok(out)), step) && (*m).wf() implies asks(
            step->Exchange_1@,
            (*m)@,
            0x1008,
            seq![h],
        ) && took_one((*m)@, final(m)@) by {
            lemma_asks((*m)@, "GetObjectInfo", OP_GET_OBJECT_INFO, seq![h]);
        }
    }
}

/// A read starts with one request for the bytes at the offset, and gives nothing without asking where nothing is
/// wanted. What arrives is added to what is there, and a request that is left is made for the bytes behind.
pub proof fn law_what_a_read_asks_for(
    handle: u32,
    offset: u64,
    want: usize,
    file_size: u64,
    r: Reading,
    out: Outcome,
)
    requires
        offset + want <= u64::MAX,
        out.response_code == 0x2001,
        r@.wf(),
    ensures
        forall|m: &mut Mtp, step: Step<Reading, Vec<u8>>| #[trigger]
            call_ensures(Mtp::read_at, (m, handle, offset, want, file_size), step) && (*m).wf()
                ==> {
                &&& want == 0 ==> step is Over && step->Over_0 is Ok && step->Over_0->Ok_0@.len()
                    == 0 && final(m)@ == (*m)@
                &&& want > 0 ==> {
                    let first = ReadingView::start(handle, offset, want as u64, file_size);
                    &&& step is Exchange
                    &&& step->Exchange_0@ == first
                    &&& asks(
                        step->Exchange_1@,
                        (*m)@,
                        (*m)@.partial_read,
                        (*m)@.read_params(first.handle, first.offset, first.asked),
                    )
                    &&& took_one((*m)@, final(m)@)
                }
            },
        forall|m: &mut Mtp, step: Step<Reading, Vec<u8>>| #[trigger]
            call_ensures(Reading::answered, (r, m, Ok(out)), step) && (*m).wf() ==> {
                &&& !r@.goes_on(out.data@) ==> step is Over && step->Over_0 is Ok
                    && step->Over_0->Ok_0@ == r@.data + out.data@
                &&& r@.goes_on(out.data@) ==> {
                    let next = r@.next(out.data@);
                    &&& step is Exchange
                    &&& step->Exchange_0@ == next
                    &&& asks(
                        step->Exchange_1@,
                        (*m)@,
                        (*m)@.partial_read,
                        (*m)@.read_params(next.handle, next.offset, next.asked),
                    )
                    &&& took_one((*m)@, final(m)@)
                }
            },
{
    assert forall|m: &mut Mtp, step: Step<Reading, Vec<u8>>| #[trigger]
        call_ensures(Mtp::read_at, (m, handle, offset, want, file_size), step) && (*m).wf() && want
            > 0 implies asks(
        step->Exchange_1@,
        (*m)@,
        (*m)@.partial_read,
        (*m)@.read_params(
            handle,
            offset,
            ReadingView::start(handle, offset, want as u64, file_size).asked,
        ),
    ) && took_one((*m)@, final(m)@) by {
        lemma_asks(
            (*m)@,
            "GetPartialObject",
            (*m)@.partial_read,
            (*m)@.read_params(
                handle,
                offset,
                ReadingView::start(handle, offset, want as u64, file_size).asked,
            ),
        );
    }
    assert forall|m: &mut Mtp, step: Step<Reading, Vec<u8>>| #[trigger]
        call_ensures(Reading::answered, (r, m, Ok(out)), step) && (*m).wf() && r@.goes_on(
            out.data@,
        ) implies asks(
        step->Exchange_1@,
        (*m)@,
        (*m)@.partial_read,
        (*m)@.read_params(
            r@.next(out.data@).handle,
            r@.next(out.data@).offset,
            r@.next(out.data@).asked,
        ),
    ) && took_one((*m)@, final(m)@) by {
        lemma_asks(
            (*m)@,
            "GetPartialObject",
            (*m)@.partial_read,
            (*m)@.read_params(
                r@.next(out.data@).handle,
                r@.next(out.data@).offset,
                r@.next(out.data@).asked,
            ),
        );
    }
}

/// A fault, and an answer other than 0x2001, end a request, and take no further transaction.
pub proof fn law_a_fault_ends_a_request(
    l: Listing,
    d: Reading,
    t: Storing,
    r: Result<Outcome, SessionError>,
)
    requires
        l.wf(),
        d@.wf(),
        t.wf(),
        r is Err || r->Ok_0.response_code != 0x2001,
    ensures
        forall|m: &mut Mtp, step: Step<Listing, Vec<Entry>>| #[trigger]
            call_ensures(Listing::answered, (l, m, r), step) ==> step is Over
                && step->Over_0 is Err && final(m)@ == (*m)@ && tells(step->Over_0->Err_0, r),
        forall|m: &mut Mtp, step: Step<Reading, Vec<u8>>| #[trigger]
            call_ensures(Reading::answered, (d, m, r), step) ==> step is Over
                && step->Over_0 is Err && final(m)@ == (*m)@ && tells(step->Over_0->Err_0, r),
        forall|m: &mut Mtp, step: Step<Storing, Option<u32>>| #[trigger]
            call_ensures(Storing::announced, (t, m, r), step) ==> step is Over
                && step->Over_0 is Err && final(m)@ == (*m)@ && tells(step->Over_0->Err_0, r),
        forall|out: Result<Option<u32>, Error>| #[trigger]
            call_ensures(Storing::sent, (t, r), out) ==> out is Err && tells(out->Err_0, r),
        forall|m: &Mtp, out: Result<(), Error>| #[trigger]
            call_ensures(Mtp::deleted, (m, r), out) ==> out is Err && tells(out->Err_0, r),
{
}

/// Whether a fault of the filesystem is the one that the outcome of an operation is: the code of the answer, the
/// fault of the transport, the fault of a dataset, or the fault of the session.
pub open spec fn tells(e: Error, r: Result<Outcome, SessionError>) -> bool {
    match r {
        Ok(o) => e is Device && e->Device_code == o.response_code,
        Err(f) => {
            &&& f is Usb ==> e == Error::Usb(f->Usb_source)
            &&& f is Parse ==> e == Error::Parse(f->Parse_source)
            &&& !(f is Usb) && !(f is Parse) ==> e == Error::Session(f)
        },
    }
}

/// A stored object is announced with its name, its size, its storage and its folder, and then a file is sent
/// with all of its bytes. The handle is the one that the device answered the announcement with. A file is too
/// large exactly where a container cannot count it.
pub proof fn law_how_an_object_is_stored(
    parent: u32,
    name: &str,
    data: Vec<u8>,
    is_folder: bool,
    t: Storing,
    out: Outcome,
)
    requires
        out.response_code == 0x2001,
        t.wf(),
    ensures
        forall|m: &mut Mtp, step: Step<Storing, Option<u32>>| #[trigger]
            call_ensures(Mtp::send_object, (m, parent, name, data, is_folder), step) ==> {
                &&& data@.len() + 12 > u32::MAX ==> step == Step::<Storing, Option<u32>>::Over(
                    Err(
                        Error::Session(
                            SessionError::Build {
                                step: "SendObject",
                                source: PayloadTooLarge { len: data@.len() as u64 },
                            },
                        ),
                    ),
                ) && final(m)@ == (*m)@
                &&& data@.len() + 12 <= u32::MAX ==> {
                    &&& step is Exchange
                    &&& is_folder ==> step->Exchange_0@.data is None
                    &&& !is_folder ==> step->Exchange_0@.data == Some(data@)
                    &&& step->Exchange_0@.handle is None
                    &&& step->Exchange_1@.source == Some(
                        object::object_bytes(
                            (*m)@.storage,
                            parent,
                            name@,
                            data@.len() as u32,
                            is_folder,
                        ),
                    )
                    &&& final(m)@ == (*m)@.taken()
                }
            },
        forall|m: &mut Mtp, step: Step<Storing, Option<u32>>| #[trigger]
            call_ensures(Storing::announced, (t, m, Ok(out)), step) ==> {
                let handle = if out.response_params@.len() > 2 {
                    Some(out.response_params@[2])
                } else {
                    None
                };
                &&& t@.data is None ==> step == Step::<Storing, Option<u32>>::Over(Ok(handle))
                &&& t@.data is Some ==> {
                    &&& step is Exchange
                    &&& step->Exchange_0@.data is None
                    &&& step->Exchange_0@.handle == handle
                    &&& step->Exchange_1@.source == t@.data
                }
            },
        forall|r: Result<Option<u32>, Error>| #[trigger]
            call_ensures(Storing::sent, (t, Ok(out)), r) ==> r == Ok::<Option<u32>, Error>(
                t@.handle,
            ),
        forall|m: &Mtp, r: Result<(), Error>| #[trigger]
            call_ensures(Mtp::deleted, (m, Ok(out)), r) ==> r is Ok,
{
}

/// The name of a device is its maker and its model with one space between them, without the white space around
/// that.
pub proof fn law_the_name_of_a_device(
    m: &Mtp,
    front: Seq<char>,
    middle: Seq<char>,
    back: Seq<char>,
    r: String,
)
    requires
        call_ensures(Mtp::name, (m,), r),
        m@.info.manufacturer@ + seq![' '] + m@.info.model@ == front + middle + back,
        text::is_blank(front),
        text::is_blank(back),
        middle.len() > 0 ==> !text::is_white_space(middle[0]) && !text::is_white_space(
            middle.last(),
        ),
    ensures
        r@ == middle,
{
    text::lemma_trimmed(front, middle, back);
}

} // verus!
