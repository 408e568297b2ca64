//! The data phase that a host sends: a container header, and then the payload.
//!
//! The host holds one block, and not the whole payload. The first write holds the header and as much
//! payload as fits, so every write but the last is one chunk of whole USB packets.

use vstd::prelude::*;

use crate::ptp::container;
use crate::ptp::container::{ContainerType, Header};
use crate::ptp::error::{HEADER_LEN, MAX_PAYLOAD_LEN};
use crate::session::answer;
use crate::session::error::SessionError;

verus! {

/// Whether a data phase ends on a packet boundary.
pub open spec fn ends_on_a_packet(total: int, packet: int) -> bool {
    packet != 0 && total % packet == 0
}

/// Says whether a data phase needs a packet of zero bytes at the end.
///
/// A device counts packets. A last packet that is full tells the device that more bytes follow, and
/// the device then waits. A packet of zero bytes tells the device that the data phase is complete.
pub fn needs_zero_packet(total: u64, packet: u64) -> (r: bool)
    ensures
        r == ends_on_a_packet(total as int, packet as int),
{
    packet != 0 && total % packet == 0
}

/// A fault of the reader that gives a payload.
#[derive(Debug, Clone, PartialEq, Eq)]
pub enum ReadFault {
    /// The read was interrupted, and can be tried again.
    Interrupted,
    /// The read failed, with this cause.
    Failed(String),
}

/// Takes in one read of a reader that fills a block of `want` bytes of which `done` are there, and
/// gives the count that is there now.
///
/// A reader that ends too early or fails is a short read, with its cause. A read that was interrupted
/// is tried again.
pub fn read_exact_or_short(
    want: usize,
    done: usize,
    got: Result<usize, ReadFault>,
    step: &'static str,
) -> (r: Result<usize, SessionError>)
    requires
        got is Ok ==> done + got->Ok_0 <= usize::MAX,
    ensures
        r == (match got {
            Ok(n) => if n == 0 {
                Err::<usize, SessionError>(
                    SessionError::ShortRead {
                        step,
                        want: want as u64,
                        got: done as u64,
                        source: None,
                    },
                )
            } else {
                Ok((done + n) as usize)
            },
            Err(ReadFault::Interrupted) => Ok(done),
            Err(ReadFault::Failed(cause)) => Err(
                SessionError::ShortRead {
                    step,
                    want: want as u64,
                    got: done as u64,
                    source: Some(cause),
                },
            ),
        }),
{
    match got {
        Ok(n) => {
            if n == 0 {
                return Err(
                    SessionError::ShortRead {
                        step,
                        want: want as u64,
                        got: done as u64,
                        source: None,
                    },
                );
            }
            Ok(done + n)
        },
        Err(ReadFault::Interrupted) => Ok(done),
        Err(ReadFault::Failed(cause)) => Err(
            SessionError::ShortRead {
                step,
                want: want as u64,
                got: done as u64,
                source: Some(cause),
            },
        ),
    }
}

/// A data phase on its way to the device.
#[derive(Debug, Clone, Copy, PartialEq, Eq, Structural)]
pub struct Sender {
    /// The operation.
    pub code: u16,
    /// The transaction of the operation.
    pub transaction_id: u32,
    /// The count of payload bytes.
    pub size: u64,
    /// The size of one write, in bytes.
    pub chunk: usize,
    /// The size of one USB packet, in bytes.
    pub packet: u64,
    /// The payload bytes that were sent.
    pub sent: u64,
    /// Whether the header was sent.
    pub started: bool,
}

impl Sender {
    /// The counts fit each other: the length field can count the payload, a chunk is made of whole
    /// packets and holds the header and more, and every write so far was a whole chunk or the last.
    pub open spec fn wf(self) -> bool {
        &&& self.size <= MAX_PAYLOAD_LEN
        &&& self.chunk > HEADER_LEN
        &&& self.packet > 0
        &&& self.chunk as int % self.packet as int == 0
        &&& self.sent <= self.size
        &&& !self.started ==> self.sent == 0
        &&& self.at() == self.total() || self.at() % self.chunk as int == 0
    }

    /// The header of the data container.
    pub open spec fn header(self) -> Header {
        Header {
            length: (HEADER_LEN + self.size) as u32,
            kind: ContainerType::Data,
            code: self.code,
            transaction_id: self.transaction_id,
        }
    }

    /// The bytes of the data phase, header and payload.
    pub open spec fn total(self) -> int {
        HEADER_LEN + self.size
    }

    /// The bytes of the data phase that were sent, header and payload.
    pub open spec fn at(self) -> int {
        if self.started {
            HEADER_LEN + self.sent
        } else {
            0
        }
    }

    /// Whether the whole data phase was sent.
    pub open spec fn over(self) -> bool {
        self.started && self.sent == self.size
    }

    /// The payload bytes of the next write.
    pub open spec fn wanted(self) -> int {
        let room = if self.started {
            self.chunk as int
        } else {
            self.chunk - HEADER_LEN
        };
        if room < self.size - self.sent {
            room
        } else {
            self.size - self.sent
        }
    }

    /// The next write, for these bytes of payload.
    pub open spec fn block(self, payload: Seq<u8>) -> Seq<u8> {
        if self.started {
            payload
        } else {
            container::header_bytes(self.header()) + payload
        }
    }

    /// The data phase after the next write.
    pub open spec fn advanced(self) -> Sender {
        Sender { sent: (self.sent + self.wanted()) as u64, started: true, ..self }
    }

    /// Gives the count of payload bytes of the next write.
    pub fn want(&self) -> (r: usize)
        requires
            self.wf(),
        ensures
            r == self.wanted(),
    {
        let room: usize = if self.started {
            self.chunk
        } else {
            self.chunk - HEADER_LEN
        };
        let rest: u64 = self.size - self.sent;
        if (room as u64) < rest {
            room
        } else {
            rest as usize
        }
    }

    /// Says whether the whole data phase was sent.
    pub fn is_over(&self) -> (r: bool)
        ensures
            r == self.over(),
    {
        self.started && self.sent == self.size
    }

    /// Says whether the data phase needs a packet of zero bytes at the end.
    pub fn closes_with_zero(&self) -> (r: bool)
        requires
            self.wf(),
        ensures
            r == ends_on_a_packet(self.total(), self.packet as int),
    {
        needs_zero_packet(HEADER_LEN as u64 + self.size, self.packet)
    }

    /// Gives the next write, and moves on behind it.
    pub fn next_block(&mut self, payload: &[u8]) -> (r: Vec<u8>)
        requires
            old(self).wf(),
            !old(self).over(),
            payload@.len() == old(self).wanted(),
        ensures
            *final(self) == old(self).advanced(),
            final(self).wf(),
            r@ == old(self).block(payload@),
    {
        proof {
            lemma_advanced(*self);
        }
        let mut out: Vec<u8> = Vec::new();
        if !self.started {
            let length: u32 = (HEADER_LEN as u64 + self.size) as u32;
            container::push_header(
                &mut out,
                length,
                ContainerType::Data,
                self.code,
                self.transaction_id,
            );
        }
        let ghost head = out@;
        out.extend_from_slice(payload);
        proof {
            assert(out@ =~= head + payload@);
            assert(out@ =~= old(self).block(payload@));
        }
        self.sent = self.sent + payload.len() as u64;
        self.started = true;
        out
    }
}

/// The position behind the next write is the end of the data phase, or a whole number of chunks.
pub proof fn lemma_advanced(s: Sender)
    requires
        s.wf(),
        !s.over(),
    ensures
        s.advanced().wf(),
        s.advanced().at() == if s.at() + s.chunk < s.total() {
            s.at() + s.chunk
        } else {
            s.total()
        },
{
    let at = s.at();
    let chunk = s.chunk as int;
    if at + chunk < s.total() {
        vstd::arithmetic::div_mod::lemma_mod_add_multiples_vanish(at, chunk);
        assert((chunk + at) % chunk == at % chunk);
    }
}

/// The writes that send the rest of a data phase, with the packet of zero bytes that may close it.
pub open spec fn writes(s: Sender, payload: Seq<u8>) -> Seq<Seq<u8>>
    decreases s.total() - s.at(),
    when s.wf()
    via writes_decreases
{
    if s.over() {
        if ends_on_a_packet(s.total(), s.packet as int) {
            seq![Seq::empty()]
        } else {
            Seq::empty()
        }
    } else {
        seq![s.block(payload.subrange(s.sent as int, s.sent + s.wanted()))] + writes(
            s.advanced(),
            payload,
        )
    }
}

#[via_fn]
proof fn writes_decreases(s: Sender, payload: Seq<u8>) {
    if !s.over() {
        lemma_advanced(s);
    }
}

/// The bytes of a data phase: the header, and then the payload.
pub open spec fn data_phase(s: Sender, payload: Seq<u8>) -> Seq<u8> {
    container::header_bytes(s.header()) + payload
}

/// The writes of a data phase send the header and every byte of the payload, each of them once and
/// in order.
pub proof fn law_writes_send_everything(s: Sender, payload: Seq<u8>)
    requires
        s.wf(),
        payload.len() == s.size,
    ensures
        answer::all_bytes(writes(s, payload)) == data_phase(s, payload).skip(s.at()),
        container::header_at(data_phase(s, payload)) == Ok::<Header, crate::ptp::error::ParseError>(
            s.header(),
        ),
        s.header().length == data_phase(s, payload).len(),
    decreases s.total() - s.at(),
{
    container::law_header_round_trip(s.header(), payload);
    let whole = data_phase(s, payload);
    let ws = writes(s, payload);
    if s.over() {
        if ends_on_a_packet(s.total(), s.packet as int) {
            assert(ws.skip(1) =~= Seq::empty());
            assert(answer::all_bytes(ws.skip(1)) =~= Seq::empty());
            assert(answer::all_bytes(ws) =~= Seq::empty());
        }
        assert(whole.skip(s.at()) =~= Seq::empty());
    } else {
        lemma_advanced(s);
        let next = s.advanced();
        let part = payload.subrange(s.sent as int, s.sent + s.wanted());
        law_writes_send_everything(next, payload);
        assert(ws.skip(1) =~= writes(next, payload));
        assert(next.header() == s.header());
        assert(s.block(part) + whole.skip(next.at()) =~= whole.skip(s.at()));
    }
}

/// Every write but the last is a whole number of packets and not empty, and the last write is the one
/// that ends the data phase for the device: it is short of a whole number of packets, or empty.
pub proof fn law_only_the_last_write_ends_the_data_phase(s: Sender, payload: Seq<u8>)
    requires
        s.wf(),
        !s.started,
        payload.len() == s.size,
    ensures
        writes(s, payload).len() > 0,
        forall|i: int|
            0 <= i < writes(s, payload).len() - 1 ==> is_whole((#[trigger] writes(s, payload)[i]), s),
        ends(writes(s, payload).last(), s),
{
    lemma_write_sizes(s, payload);
}

/// Whether a write is a whole number of packets, and not empty.
pub open spec fn is_whole(write: Seq<u8>, s: Sender) -> bool {
    write.len() > 0 && write.len() as int % s.packet as int == 0
}

/// Whether a write tells the device that the data phase is over.
pub open spec fn ends(write: Seq<u8>, s: Sender) -> bool {
    write.len() == 0 || write.len() as int % s.packet as int != 0
}

proof fn lemma_multiple_of_multiple(x: int, chunk: int, packet: int)
    requires
        packet > 0,
        chunk > 0,
        x % chunk == 0,
        chunk % packet == 0,
    ensures
        x % packet == 0,
{
    let q = x / chunk;
    let r = chunk / packet;
    vstd::arithmetic::div_mod::lemma_fundamental_div_mod(x, chunk);
    vstd::arithmetic::div_mod::lemma_fundamental_div_mod(chunk, packet);
    assert(x == (r * q) * packet) by (nonlinear_arith)
        requires
            x == chunk * q,
            chunk == packet * r,
    ;
    vstd::arithmetic::div_mod::lemma_mod_multiples_basic(r * q, packet);
}

proof fn lemma_write_sizes(s: Sender, payload: Seq<u8>)
    requires
        s.wf(),
        payload.len() == s.size,
    ensures
        ({
            let ws = writes(s, payload);
            &&& !s.over() || ends_on_a_packet(s.total(), s.packet as int) ==> ws.len() > 0 && ends(
                ws.last(),
                s,
            )
            &&& forall|i: int| 0 <= i < ws.len() - 1 ==> is_whole((#[trigger] ws[i]), s)
        }),
    decreases s.total() - s.at(),
{
    let ws = writes(s, payload);
    if !s.over() {
        lemma_advanced(s);
        let next = s.advanced();
        let part = payload.subrange(s.sent as int, s.sent + s.wanted());
        let first = s.block(part);
        container::law_header_round_trip(s.header(), part);
        lemma_write_sizes(next, payload);
        let more = writes(next, payload);
        let packet = s.packet as int;
        let chunk = s.chunk as int;
        assert(first.len() == next.at() - s.at());
        lemma_multiple_of_multiple(s.at(), chunk, packet);
        if next.over() {
            // The last write of data: its size and the whole size leave the same rest.
            vstd::arithmetic::div_mod::lemma_add_mod_noop(s.at(), first.len() as int, packet);
            vstd::arithmetic::div_mod::lemma_mod_twice(first.len() as int, packet);
            assert(s.at() + first.len() == s.total());
            assert(first.len() as int % packet == s.total() % packet);
            if ends_on_a_packet(s.total(), packet) {
                assert(more =~= seq![Seq::<u8>::empty()]);
                assert(ws.last() == more.last());
            } else {
                assert(more =~= Seq::<Seq<u8>>::empty());
                assert(ws.last() == first);
            }
        } else {
            assert(first.len() == chunk);
            assert(ws.last() == more.last());
        }
        assert forall|i: int| 0 <= i < ws.len() - 1 implies is_whole((#[trigger] ws[i]), s) by {
            if i > 0 {
                assert(ws[i] == more[i - 1]);
            }
        }
    }
}

/// A data phase never takes writes without end: the count of writes comes from the size and the chunk.
pub proof fn law_a_data_phase_always_ends(s: Sender, payload: Seq<u8>)
    requires
        s.wf(),
    ensures
        writes(s, payload).len() <= s.size as int / s.chunk as int + 3,
{
    lemma_write_count(s, payload);
    let n = writes(s, payload).len() as int;
    let chunk = s.chunk as int;
    if n > 3 {
        assert((n - 3) * chunk < s.size) by (nonlinear_arith)
            requires
                n * chunk <= s.size + HEADER_LEN + 2 * chunk,
                chunk > HEADER_LEN,
        ;
        vstd::arithmetic::div_mod::lemma_div_is_ordered((n - 3) * chunk, s.size as int, chunk);
        vstd::arithmetic::div_mod::lemma_div_multiples_vanish(n - 3, chunk);
    } else {
        vstd::arithmetic::div_mod::lemma_div_pos_is_pos(s.size as int, chunk);
    }
}

proof fn lemma_write_count(s: Sender, payload: Seq<u8>)
    requires
        s.wf(),
    ensures
        writes(s, payload).len() * s.chunk <= s.total() - s.at() + 2 * s.chunk,
    decreases s.total() - s.at(),
{
    let n = writes(s, payload).len() as int;
    let chunk = s.chunk as int;
    if s.over() {
        assert(n * chunk <= 2 * chunk) by (nonlinear_arith)
            requires
                n <= 1,
                chunk > 0,
        ;
    } else {
        lemma_advanced(s);
        let next = s.advanced();
        lemma_write_count(next, payload);
        let m = writes(next, payload).len() as int;
        assert(n == m + 1);
        assert(n * chunk == m * chunk + chunk) by (nonlinear_arith)
            requires
                n == m + 1,
        ;
        if next.over() {
            assert(m * chunk <= chunk) by (nonlinear_arith)
                requires
                    m <= 1,
                    chunk > 0,
            ;
        }
    }
}

/// A packet of zero bytes is needed exactly where the data phase is a whole number of packets.
pub proof fn law_when_a_zero_packet_is_needed(packets: u64, packet: u64, over: u64, r: bool)
    requires
        packet > 0,
        over < packet,
        packets * packet + over <= u64::MAX,
        call_ensures(needs_zero_packet, ((packets * packet + over) as u64, packet), r),
    ensures
        r <==> over == 0,
{
    let total = packets * packet + over;
    vstd::arithmetic::div_mod::lemma_mod_multiples_vanish(packets as int, over as int, packet as int);
    vstd::arithmetic::mul::lemma_mul_is_commutative(packets as int, packet as int);
    vstd::arithmetic::div_mod::lemma_small_mod(over as nat, packet as nat);
    assert(total % packet as int == over);
}

/// What one read of a source does to a block: its bytes are added, an interrupted read changes nothing, and a
/// source that ends or fails is a short read that says how much of the block was there.
pub proof fn law_what_a_read_adds_to_a_block(
    want: usize,
    done: usize,
    got: Result<usize, ReadFault>,
    step: &'static str,
    r: Result<usize, SessionError>,
)
    requires
        got is Ok ==> done + got->Ok_0 <= usize::MAX,
        call_ensures(read_exact_or_short, (want, done, got, step), r),
    ensures
        got is Ok && got->Ok_0 > 0 ==> r is Ok && r->Ok_0 == done + got->Ok_0,
        got == Err::<usize, ReadFault>(ReadFault::Interrupted) ==> r == Ok::<usize, SessionError>(
            done,
        ),
        (got is Ok && got->Ok_0 == 0) || (got is Err && got->Err_0 is Failed) ==> {
            &&& r is Err && r->Err_0 is ShortRead
            &&& r->Err_0->ShortRead_step == step
            &&& r->Err_0->ShortRead_want == want
            &&& r->Err_0->ShortRead_got == done
            &&& r->Err_0->ShortRead_source is Some <==> got is Err
        },
{
}

/// Every write of a data phase but the last two is one whole chunk, and no write is larger than a chunk.
pub proof fn law_writes_are_chunks(s: Sender, payload: Seq<u8>, i: int)
    requires
        s.wf(),
        payload.len() == s.size,
        0 <= i < writes(s, payload).len(),
    ensures
        writes(s, payload)[i].len() <= s.chunk,
        s.at() + (i + 1) * s.chunk < s.total() ==> writes(s, payload)[i].len() == s.chunk,
    decreases i,
{
    let ws = writes(s, payload);
    if !s.over() {
        lemma_advanced(s);
        let next = s.advanced();
        let part = payload.subrange(s.sent as int, s.sent + s.wanted());
        container::law_header_round_trip(s.header(), part);
        assert(s.block(part).len() == next.at() - s.at());
        let chunk = s.chunk as int;
        if i == 0 {
            assert(ws[0] == s.block(part));
        } else {
            assert(ws[i] == writes(next, payload)[i - 1]);
            law_writes_are_chunks(next, payload, i - 1);
            if s.at() + (i + 1) * chunk < s.total() {
                assert((i + 1) * chunk == i * chunk + chunk) by (nonlinear_arith);
                assert(i * chunk >= 0) by (nonlinear_arith)
                    requires
                        i >= 0,
                        chunk > 0,
                ;
                assert(next.at() == s.at() + chunk);
                assert(next.at() + i * chunk < next.total());
            }
        }
    } else {
        assert(ws[i].len() == 0);
        assert((i + 1) * s.chunk >= 0) by (nonlinear_arith)
            requires
                i >= 0,
                s.chunk >= 0,
        ;
    }
}

} // verus!
