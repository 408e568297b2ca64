//! The answer of a device: an optional data phase, then the response container.
//!
//! This is the one place that joins many transfers into one payload, and the one place that checks
//! the payload against the length the device declared.

use vstd::prelude::*;

use crate::ptp::container;
use crate::ptp::container::{Container, ContainerType, Header};
use crate::ptp::error::HEADER_LEN;
use crate::session::error::SessionError;

verus! {

/// The largest data phase the host accepts, in bytes.
///
/// The host does not hold the payload in memory. The limit guards against a damaged length field,
/// and not against a large file.
pub const MAX_DATA_BYTES: u64 = 64 * 1024 * 1024 * 1024;

/// The largest count of further reads for one data phase.
///
/// The count of reads a transfer needs is the declared size divided by the read size. The smallest
/// read is 512 bytes, so the largest honest count is [`MAX_DATA_BYTES`] divided by that.
pub const MAX_READ_ROUNDS: u64 = MAX_DATA_BYTES / 512;

/// Which read of an answer is due.
#[derive(Debug, Clone, Copy, PartialEq, Eq, Structural)]
pub enum AnswerState {
    /// The first read.
    First,
    /// A further read of a data phase.
    Joining {
        /// The size that the device declared, which counts the header.
        declared: u32,
        /// The bytes that arrived.
        have: u64,
        /// The payload bytes among them.
        payload: u64,
        /// The reads so far.
        reads: usize,
        /// The reads that are left.
        left: u64,
    },
    /// The read of the response behind a data phase.
    Closing {
        /// The payload bytes that arrived.
        payload: u64,
        /// The reads of the data phase.
        reads: usize,
    },
    /// None: the data phase did not reach the size that the device declared.
    Short {
        /// The size that the device declared.
        declared: u32,
        /// The bytes that arrived.
        have: u64,
    },
}

/// What a device answered.
#[derive(Debug, Clone, PartialEq, Eq)]
pub struct Response {
    /// The response code.
    pub code: u16,
    /// The parameters of the response container.
    pub params: Vec<u32>,
    /// The payload bytes of the data phase.
    pub bytes: u64,
    /// The reads of the data phase.
    pub reads: usize,
}

/// What a [`Response`] holds.
pub struct ResponseView {
    pub code: u16,
    pub params: Seq<u32>,
    pub bytes: u64,
    pub reads: usize,
}

impl View for Response {
    type V = ResponseView;

    open spec fn view(&self) -> ResponseView {
        ResponseView {
            code: self.code,
            params: self.params@,
            bytes: self.bytes,
            reads: self.reads,
        }
    }
}

/// What to do after a read.
#[derive(Debug, Clone, PartialEq, Eq)]
pub enum Progress {
    /// Give the bytes from this position on to the caller, and then go on.
    Deliver { from: usize, next: AnswerState },
    /// The answer is complete.
    Finished(Response),
    /// The answer is a fault.
    Failed(SessionError),
}

/// What a [`Progress`] holds.
pub enum ProgressView {
    Deliver { from: usize, next: AnswerState },
    Finished(ResponseView),
    Failed(SessionError),
}

impl View for Progress {
    type V = ProgressView;

    open spec fn view(&self) -> ProgressView {
        match *self {
            Progress::Deliver { from, next } => ProgressView::Deliver { from, next },
            Progress::Finished(r) => ProgressView::Finished(r@),
            Progress::Failed(e) => ProgressView::Failed(e),
        }
    }
}

/// The reads that a data phase may take behind the first one. The bound comes from the declared
/// size and the read size.
pub open spec fn read_rounds(declared: u32, capacity: usize) -> u64 {
    let n = declared as int / capacity as int + 16;
    if n < MAX_READ_ROUNDS {
        n as u64
    } else {
        MAX_READ_ROUNDS
    }
}

/// The read that is due when `have` bytes of a data phase arrived.
pub open spec fn after_data(
    declared: u32,
    have: u64,
    payload: u64,
    reads: usize,
    left: u64,
) -> AnswerState {
    if have >= declared {
        AnswerState::Closing { payload, reads }
    } else if left == 0 {
        AnswerState::Short { declared, have }
    } else {
        AnswerState::Joining { declared, have, payload, reads, left }
    }
}

/// The response in a transfer, behind a data phase of this size.
pub open spec fn response_in(step: &'static str, buf: Seq<u8>, bytes: u64, reads: usize) -> ProgressView {
    match container::whole_container(buf) {
        Err(e) => ProgressView::Failed(SessionError::Parse { step, source: e }),
        Ok(h) => if h.kind != ContainerType::Response {
            ProgressView::Failed(
                SessionError::Unexpected { step, expected: ContainerType::Response, got: h.kind },
            )
        } else {
            ProgressView::Finished(
                ResponseView {
                    code: h.code,
                    params: container::params_of(
                        buf.subrange(HEADER_LEN as int, h.length as int),
                    ),
                    bytes,
                    reads,
                },
            )
        },
    }
}

/// What the first transfer of an answer means.
pub open spec fn first_transfer(step: &'static str, capacity: usize, buf: Seq<u8>) -> ProgressView {
    match container::header_at(buf) {
        Err(e) => ProgressView::Failed(SessionError::Parse { step, source: e }),
        Ok(h) => match h.kind {
            ContainerType::Data => ProgressView::Deliver {
                from: HEADER_LEN,
                next: after_data(
                    h.length,
                    buf.len() as u64,
                    (buf.len() - HEADER_LEN) as u64,
                    1,
                    read_rounds(h.length, capacity),
                ),
            },
            ContainerType::Response => response_in(step, buf, 0, 1),
            other => ProgressView::Failed(
                SessionError::Unexpected { step, expected: ContainerType::Response, got: other },
            ),
        },
    }
}

/// The fault of a data phase that stopped too early.
pub open spec fn incomplete(step: &'static str, declared: u32, have: u64) -> SessionError {
    SessionError::Incomplete { step, want: declared as u64, got: have }
}

/// What a transfer means for an answer in this state.
pub open spec fn transfer(
    step: &'static str,
    capacity: usize,
    state: AnswerState,
    buf: Seq<u8>,
) -> ProgressView {
    match state {
        AnswerState::First => first_transfer(step, capacity, buf),
        AnswerState::Joining { declared, have, payload, reads, left } => if buf.len() == 0 {
            ProgressView::Failed(incomplete(step, declared, have))
        } else {
            ProgressView::Deliver {
                from: 0,
                next: after_data(
                    declared,
                    (have + buf.len()) as u64,
                    (payload + buf.len()) as u64,
                    (reads + 1) as usize,
                    (left - 1) as u64,
                ),
            }
        },
        AnswerState::Closing { payload, reads } => response_in(step, buf, payload, reads),
        AnswerState::Short { declared, have } => ProgressView::Failed(
            incomplete(step, declared, have),
        ),
    }
}

impl AnswerState {
    /// The counts of the state fit each other.
    pub open spec fn wf(self) -> bool {
        match self {
            AnswerState::Joining { declared, have, payload, reads, left } => {
                &&& have < declared
                &&& payload <= have
                &&& 1 <= left
                &&& reads + left <= MAX_READ_ROUNDS + 1
            },
            AnswerState::Short { declared, have } => have < declared,
            _ => true,
        }
    }

    /// Takes in one transfer of the answer.
    ///
    /// A short data phase is a fault, and never a short answer that looks complete. The bound on
    /// the count of reads never stops a transfer that the device can finish.
    pub fn read_answer(self, step: &'static str, capacity: usize, buf: &[u8]) -> (r: Progress)
        requires
            self.wf(),
            capacity > 0,
            buf@.len() <= isize::MAX,
        ensures
            r@ == transfer(step, capacity, self, buf@),
            match r {
                Progress::Deliver { from, next } => from <= buf@.len() && next.wf(),
                _ => true,
            },
    {
        match self {
            AnswerState::First => first_answer(step, capacity, buf),
            AnswerState::Joining { declared, have, payload, reads, left } => {
                if buf.len() == 0 {
                    return Progress::Failed(
                        SessionError::Incomplete { step, want: declared as u64, got: have },
                    );
                }
                let more: u64 = buf.len() as u64;
                let next = joined(declared, have + more, payload + more, reads + 1, left - 1);
                Progress::Deliver { from: 0, next }
            },
            AnswerState::Closing { payload, reads } => response(step, buf, payload, reads),
            AnswerState::Short { declared, have } => Progress::Failed(
                SessionError::Incomplete { step, want: declared as u64, got: have },
            ),
        }
    }
}

/// A transfer keeps the counts of an answer in order.
pub proof fn lemma_transfer_keeps_order(
    step: &'static str,
    capacity: usize,
    state: AnswerState,
    buf: Seq<u8>,
)
    requires
        state.wf(),
        capacity > 0,
        buf.len() <= isize::MAX,
    ensures
        match transfer(step, capacity, state, buf) {
            ProgressView::Deliver { from, next } => from <= buf.len() && next.wf(),
            _ => true,
        },
{
    if state is First && container::header_at(buf) is Ok {
        let declared = container::header_at(buf)->Ok_0.length as int;
        vstd::arithmetic::div_mod::lemma_div_pos_is_pos(declared, capacity as int);
    }
}

/// Gives the read that is due when `have` bytes of a data phase arrived.
fn joined(declared: u32, have: u64, payload: u64, reads: usize, left: u64) -> (r: AnswerState)
    ensures
        r == after_data(declared, have, payload, reads, left),
{
    if have >= declared as u64 {
        AnswerState::Closing { payload, reads }
    } else if left == 0 {
        AnswerState::Short { declared, have }
    } else {
        AnswerState::Joining { declared, have, payload, reads, left }
    }
}

/// Takes in the first transfer of an answer.
fn first_answer(step: &'static str, capacity: usize, buf: &[u8]) -> (r: Progress)
    requires
        capacity > 0,
        buf@.len() <= isize::MAX,
    ensures
        r@ == first_transfer(step, capacity, buf@),
        match r {
            Progress::Deliver { from, next } => from <= buf@.len() && next.wf(),
            _ => true,
        },
{
    // The whole container does not have to fit in one transfer, so this reads the header alone.
    let first = match Header::parse(buf) {
        Ok(h) => h,
        Err(source) => {
            return Progress::Failed(SessionError::Parse { step, source });
        },
    };
    match first.kind {
        ContainerType::Data => {
            let declared: u32 = first.length;
            // A length field holds 32 bits, so it never declares more than the host accepts.
            assert(declared <= MAX_DATA_BYTES);
            let mut rounds: u64 = declared as u64 / capacity as u64 + 16;
            if rounds > MAX_READ_ROUNDS {
                rounds = MAX_READ_ROUNDS;
            }
            let have: u64 = buf.len() as u64;
            let next = joined(declared, have, have - HEADER_LEN as u64, 1, rounds);
            Progress::Deliver { from: HEADER_LEN, next }
        },
        ContainerType::Response => response(step, buf, 0, 1),
        other => Progress::Failed(
            SessionError::Unexpected { step, expected: ContainerType::Response, got: other },
        ),
    }
}

/// Reads the response container in a transfer.
fn response(step: &'static str, buf: &[u8], bytes: u64, reads: usize) -> (r: Progress)
    ensures
        r@ == response_in(step, buf@, bytes, reads),
        !(r is Deliver),
{
    match Container::parse(buf) {
        Err(source) => Progress::Failed(SessionError::Parse { step, source }),
        Ok(c) => {
            if c.kind != ContainerType::Response {
                return Progress::Failed(
                    SessionError::Unexpected {
                        step,
                        expected: ContainerType::Response,
                        got: c.kind,
                    },
                );
            }
            Progress::Finished(
                Response { code: c.code, params: c.parameters(), bytes, reads },
            )
        },
    }
}

/// What an answer comes to when these transfers arrive: the response or the fault, and the payload
/// bytes that went to the caller. `None` means that more transfers are due.
pub open spec fn answer(
    step: &'static str,
    capacity: usize,
    state: AnswerState,
    transfers: Seq<Seq<u8>>,
) -> Option<(Result<ResponseView, SessionError>, Seq<u8>)>
    decreases transfers.len(),
{
    match state {
        AnswerState::Short { declared, have } => Some(
            (Err(incomplete(step, declared, have)), Seq::empty()),
        ),
        _ => if transfers.len() == 0 {
            None
        } else {
            match transfer(step, capacity, state, transfers[0]) {
                ProgressView::Finished(r) => Some((Ok(r), Seq::empty())),
                ProgressView::Failed(e) => Some((Err(e), Seq::empty())),
                ProgressView::Deliver { from, next } => match answer(
                    step,
                    capacity,
                    next,
                    transfers.skip(1),
                ) {
                    None => None,
                    Some((r, more)) => Some((r, transfers[0].skip(from as int) + more)),
                },
            }
        },
    }
}

/// The bytes of transfers, one after the other.
pub open spec fn all_bytes(transfers: Seq<Seq<u8>>) -> Seq<u8>
    decreases transfers.len(),
{
    if transfers.len() == 0 {
        Seq::empty()
    } else {
        transfers[0] + all_bytes(transfers.skip(1))
    }
}

/// Whether every transfer fits in memory.
pub open spec fn sizes_fit(transfers: Seq<Seq<u8>>) -> bool {
    forall|i: int| 0 <= i < transfers.len() ==> (#[trigger] transfers[i]).len() <= isize::MAX
}

/// A short data phase is never a success: where an answer with a data phase ends well, at least
/// the bytes that the device declared arrived, and the caller has all of them but the header.
pub proof fn law_success_means_a_complete_data_phase(
    step: &'static str,
    capacity: usize,
    transfers: Seq<Seq<u8>>,
)
    requires
        capacity > 0,
        sizes_fit(transfers),
        transfers.len() > 0,
        container::header_at(transfers[0]) is Ok,
        container::header_at(transfers[0])->Ok_0.kind == ContainerType::Data,
    ensures
        match answer(step, capacity, AnswerState::First, transfers) {
            Some((Ok(r), delivered)) => {
                &&& r.bytes == delivered.len()
                &&& HEADER_LEN + delivered.len() >= container::header_at(transfers[0])->Ok_0.length
            },
            _ => true,
        },
{
    let h = container::header_at(transfers[0])->Ok_0;
    match transfer(step, capacity, AnswerState::First, transfers[0]) {
        ProgressView::Deliver { from, next } => {
            assert(sizes_fit(transfers.skip(1)));
            lemma_success_is_complete(step, capacity, next, transfers.skip(1));
            if let AnswerState::Closing { .. } = next {
                lemma_closing_delivers_nothing(step, capacity, next, transfers.skip(1));
            }
        },
        _ => {},
    }
}

proof fn lemma_closing_delivers_nothing(
    step: &'static str,
    capacity: usize,
    state: AnswerState,
    transfers: Seq<Seq<u8>>,
)
    requires
        state is Closing,
    ensures
        match answer(step, capacity, state, transfers) {
            Some((Ok(r), delivered)) => delivered.len() == 0 && r.bytes == state->Closing_payload,
            _ => true,
        },
{
}

proof fn lemma_success_is_complete(
    step: &'static str,
    capacity: usize,
    state: AnswerState,
    transfers: Seq<Seq<u8>>,
)
    requires
        state.wf(),
        sizes_fit(transfers),
    ensures
        match state {
            AnswerState::Joining { declared, have, payload, .. } => match answer(
                step,
                capacity,
                state,
                transfers,
            ) {
                Some((Ok(r), delivered)) => r.bytes == payload + delivered.len() && have
                    + delivered.len() >= declared,
                _ => true,
            },
            _ => true,
        },
    decreases transfers.len(),
{
    if let AnswerState::Joining { declared, have, payload, reads, left } = state {
        if transfers.len() > 0 {
            let got = transfers[0];
            match transfer(step, capacity, state, got) {
                ProgressView::Deliver { from, next } => {
                    assert(sizes_fit(transfers.skip(1)));
                    assert(got.skip(0) =~= got);
                    lemma_success_is_complete(step, capacity, next, transfers.skip(1));
                    if let AnswerState::Closing { .. } = next {
                        lemma_closing_delivers_nothing(step, capacity, next, transfers.skip(1));
                    }
                },
                _ => {},
            }
        }
    }
}

/// Whether a transfer holds a whole response container.
pub open spec fn is_response(buf: Seq<u8>) -> bool {
    container::whole_container(buf) is Ok && container::whole_container(buf)->Ok_0.kind
        == ContainerType::Response
}

/// The response in a transfer that holds one, behind a data phase of this size.
pub open spec fn response_of(buf: Seq<u8>, bytes: u64, reads: usize) -> ResponseView {
    let h = container::whole_container(buf)->Ok_0;
    ResponseView {
        code: h.code,
        params: container::params_of(buf.subrange(HEADER_LEN as int, h.length as int)),
        bytes,
        reads,
    }
}

/// Whether transfers make up a data phase that declares this size: no transfer behind the first is
/// empty, and the last one is the one that completes the size.
pub open spec fn completes(data: Seq<Seq<u8>>, declared: u32) -> bool {
    &&& data.len() > 0
    &&& sizes_fit(data)
    &&& forall|i: int| 1 <= i < data.len() ==> (#[trigger] data[i]).len() > 0
    &&& all_bytes(data).len() >= declared
    &&& forall|k: int| 1 <= k < data.len() ==> all_bytes(#[trigger] data.take(k)).len() < declared
}

/// A data phase that completes within the bound on the count of reads arrives whole: the caller gets
/// every byte behind the header, and the response behind the data phase is the answer.
pub proof fn law_a_complete_data_phase_arrives(
    step: &'static str,
    capacity: usize,
    data: Seq<Seq<u8>>,
    response: Seq<u8>,
)
    requires
        capacity > 0,
        data.len() > 0,
        container::header_at(data[0]) is Ok,
        container::header_at(data[0])->Ok_0.kind == ContainerType::Data,
        completes(data, container::header_at(data[0])->Ok_0.length),
        data.len() - 1 <= read_rounds(container::header_at(data[0])->Ok_0.length, capacity),
        is_response(response),
    ensures
        answer(step, capacity, AnswerState::First, data.push(response)) == Some(
            (
                Ok::<ResponseView, SessionError>(
                    response_of(
                        response,
                        (all_bytes(data).len() - HEADER_LEN) as u64,
                        data.len() as usize,
                    ),
                ),
                all_bytes(data).skip(HEADER_LEN as int),
            ),
        ),
{
    let declared = container::header_at(data[0])->Ok_0.length;
    let transfers = data.push(response);
    let first = data[0];
    let rest = data.skip(1);
    assert(transfers.skip(1) =~= rest.push(response));
    assert(first.len() <= isize::MAX);
    let left = read_rounds(declared, capacity);
    let have = first.len() as u64;
    let payload = (first.len() - HEADER_LEN) as u64;
    if data.len() == 1 {
        assert(all_bytes(rest) =~= Seq::empty());
        assert(all_bytes(data) =~= first);
        lemma_response_closes(step, capacity, payload, 1, response, rest.push(response));
        assert(first.skip(HEADER_LEN as int) + Seq::<u8>::empty() =~= first.skip(
            HEADER_LEN as int,
        ));
    } else {
        assert(data.take(1) =~= seq![first]);
        assert(seq![first].skip(1) =~= Seq::empty());
        assert(all_bytes(seq![first].skip(1)) =~= Seq::empty());
        assert(all_bytes(data.take(1)) =~= first);
        lemma_prefixes(data, declared);
        lemma_joining_arrives(
            step,
            capacity,
            declared,
            have,
            payload,
            1,
            left,
            rest,
            response,
        );
        assert(first.skip(HEADER_LEN as int) + all_bytes(rest) =~= all_bytes(data).skip(
            HEADER_LEN as int,
        ));
    }
}

/// The parts of a data phase behind its first transfer complete it, in the same sense.
proof fn lemma_prefixes(data: Seq<Seq<u8>>, declared: u32)
    requires
        completes(data, declared),
        data.len() > 1,
    ensures
        ({
            let rest = data.skip(1);
            &&& data[0].len() + all_bytes(rest).len() >= declared
            &&& data[0].len() < declared
            &&& forall|k: int|
                1 <= k < rest.len() ==> data[0].len() + all_bytes(#[trigger] rest.take(k)).len()
                    < declared
        }),
{
    let rest = data.skip(1);
    assert(all_bytes(data.take(1)).len() < declared);
    assert(data.take(1).skip(1) =~= Seq::empty());
    assert(all_bytes(data.take(1)) =~= data[0]) by {
        assert(all_bytes(data.take(1).skip(1)) =~= Seq::empty());
    }
    assert forall|k: int| 1 <= k < rest.len() implies data[0].len() + all_bytes(
        #[trigger] rest.take(k),
    ).len() < declared by {
        assert(data.take(k + 1).skip(1) =~= rest.take(k));
        assert(all_bytes(data.take(k + 1)) == data[0] + all_bytes(rest.take(k)));
    }
}

proof fn lemma_response_closes(
    step: &'static str,
    capacity: usize,
    payload: u64,
    reads: usize,
    response: Seq<u8>,
    transfers: Seq<Seq<u8>>,
)
    requires
        is_response(response),
        transfers.len() > 0,
        transfers[0] == response,
    ensures
        answer(step, capacity, AnswerState::Closing { payload, reads }, transfers) == Some(
            (
                Ok::<ResponseView, SessionError>(response_of(response, payload, reads)),
                Seq::<u8>::empty(),
            ),
        ),
{
}

proof fn lemma_joining_arrives(
    step: &'static str,
    capacity: usize,
    declared: u32,
    have: u64,
    payload: u64,
    reads: usize,
    left: u64,
    rest: Seq<Seq<u8>>,
    response: Seq<u8>,
)
    requires
        rest.len() > 0,
        rest.len() <= left <= MAX_READ_ROUNDS,
        reads + left <= MAX_READ_ROUNDS + 1,
        payload <= have < declared,
        sizes_fit(rest),
        forall|i: int| 0 <= i < rest.len() ==> (#[trigger] rest[i]).len() > 0,
        have + all_bytes(rest).len() >= declared,
        forall|k: int|
            1 <= k < rest.len() ==> have + all_bytes(#[trigger] rest.take(k)).len() < declared,
        is_response(response),
    ensures
        answer(
            step,
            capacity,
            AnswerState::Joining { declared, have, payload, reads, left },
            rest.push(response),
        ) == Some(
            (
                Ok::<ResponseView, SessionError>(
                    response_of(
                        response,
                        (payload + all_bytes(rest).len()) as u64,
                        (reads + rest.len()) as usize,
                    ),
                ),
                all_bytes(rest),
            ),
        ),
    decreases rest.len(),
{
    let transfers = rest.push(response);
    let got = rest[0];
    let more = rest.skip(1);
    assert(transfers[0] == got);
    assert(transfers.skip(1) =~= more.push(response));
    assert(got.skip(0) =~= got);
    assert(got.len() > 0 && got.len() <= isize::MAX);
    assert(all_bytes(rest) == got + all_bytes(more));
    let have2 = (have + got.len()) as u64;
    let payload2 = (payload + got.len()) as u64;
    let reads2 = (reads + 1) as usize;
    let left2 = (left - 1) as u64;
    if rest.len() == 1 {
        assert(all_bytes(more) =~= Seq::empty());
        assert(all_bytes(rest) =~= got);
        lemma_response_closes(step, capacity, payload2, reads2, response, more.push(response));
        assert(got + Seq::<u8>::empty() =~= got);
    } else {
        assert(rest.take(1).skip(1) =~= Seq::empty());
        assert(all_bytes(rest.take(1).skip(1)) =~= Seq::empty());
        assert(all_bytes(rest.take(1)) =~= got);
        assert forall|k: int| 1 <= k < more.len() implies have2 + all_bytes(
            #[trigger] more.take(k),
        ).len() < declared by {
            assert(rest.take(k + 1).skip(1) =~= more.take(k));
            assert(all_bytes(rest.take(k + 1)) == got + all_bytes(more.take(k)));
        }
        assert forall|i: int| 0 <= i < more.len() implies (#[trigger] more[i]).len() > 0 by {
            assert(rest[i + 1].len() > 0);
        }
        lemma_joining_arrives(
            step,
            capacity,
            declared,
            have2,
            payload2,
            reads2,
            left2,
            more,
            response,
        );
    }
}

/// The bound on the count of reads never stops a transfer that the device can finish: where a device
/// fills every read but the last one, the data phase arrives whole.
pub proof fn law_full_reads_always_arrive(
    step: &'static str,
    capacity: usize,
    data: Seq<Seq<u8>>,
    response: Seq<u8>,
)
    requires
        512 <= capacity <= isize::MAX,
        data.len() > 0,
        container::header_at(data[0]) is Ok,
        container::header_at(data[0])->Ok_0.kind == ContainerType::Data,
        all_bytes(data).len() == container::header_at(data[0])->Ok_0.length,
        forall|i: int| 0 <= i < data.len() - 1 ==> (#[trigger] data[i]).len() == capacity,
        data.len() > 1 ==> 0 < data.last().len() <= capacity,
        data.len() == 1 ==> data.last().len() <= capacity,
        is_response(response),
    ensures
        answer(step, capacity, AnswerState::First, data.push(response)) == Some(
            (
                Ok::<ResponseView, SessionError>(
                    response_of(
                        response,
                        (all_bytes(data).len() - HEADER_LEN) as u64,
                        data.len() as usize,
                    ),
                ),
                all_bytes(data).skip(HEADER_LEN as int),
            ),
        ),
{
    let declared = container::header_at(data[0])->Ok_0.length;
    let n = data.len() as int;
    lemma_full_transfers(data, capacity as int);
    assert(sizes_fit(data)) by {
        assert forall|i: int| 0 <= i < n implies (#[trigger] data[i]).len() <= isize::MAX by {
            if i == n - 1 {
                assert(data[i] == data.last());
            }
        }
    }
    assert forall|k: int| 1 <= k < n implies all_bytes(#[trigger] data.take(k)).len() < declared by {
        lemma_full_prefix(data, capacity as int, k);
        assert(k * capacity <= (n - 1) * capacity) by (nonlinear_arith)
            requires
                k <= n - 1,
                capacity > 0,
        ;
    }
    assert forall|i: int| 1 <= i < n implies (#[trigger] data[i]).len() > 0 by {
        if i == n - 1 {
            assert(data[i] == data.last());
        }
    }
    assert(n - 1 <= declared as int / capacity as int) by {
        if n > 1 {
            vstd::arithmetic::div_mod::lemma_div_is_ordered(
                (n - 1) * capacity,
                declared as int,
                capacity as int,
            );
            vstd::arithmetic::div_mod::lemma_div_multiples_vanish(n - 1, capacity as int);
        } else {
            vstd::arithmetic::div_mod::lemma_div_pos_is_pos(declared as int, capacity as int);
        }
    }
    assert(declared as int / capacity as int + 16 < MAX_READ_ROUNDS) by {
        vstd::arithmetic::div_mod::lemma_div_is_ordered_by_denominator(
            declared as int,
            512,
            capacity as int,
        );
    }
    law_a_complete_data_phase_arrives(step, capacity, data, response);
}

proof fn lemma_full_transfers(data: Seq<Seq<u8>>, capacity: int)
    requires
        data.len() > 0,
        forall|i: int| 0 <= i < data.len() - 1 ==> (#[trigger] data[i]).len() == capacity,
    ensures
        all_bytes(data).len() == (data.len() - 1) * capacity + data.last().len(),
    decreases data.len(),
{
    let rest = data.skip(1);
    if data.len() == 1 {
        assert(all_bytes(rest) =~= Seq::empty());
    } else {
        lemma_full_transfers(rest, capacity);
        assert(data[0].len() == capacity);
        assert((rest.len() - 1) * capacity + capacity == (data.len() - 1) * capacity)
            by (nonlinear_arith)
            requires
                rest.len() == data.len() - 1,
        ;
    }
}

proof fn lemma_full_prefix(data: Seq<Seq<u8>>, capacity: int, k: int)
    requires
        0 <= k < data.len(),
        forall|i: int| 0 <= i < data.len() - 1 ==> (#[trigger] data[i]).len() == capacity,
    ensures
        all_bytes(data.take(k)).len() == k * capacity,
    decreases k,
{
    if k > 0 {
        assert(data.take(k).skip(1) =~= data.skip(1).take(k - 1));
        lemma_full_prefix(data.skip(1), capacity, k - 1);
        assert(data[0].len() == capacity);
        assert((k - 1) * capacity + capacity == k * capacity) by (nonlinear_arith);
    } else {
        assert(k * capacity == 0) by (nonlinear_arith)
            requires
                k == 0,
        ;
    }
}

/// An answer never asks for reads without end: whatever the device sends, the answer is over after
/// two reads more than the largest count of rounds.
pub proof fn law_an_answer_always_ends(
    step: &'static str,
    capacity: usize,
    transfers: Seq<Seq<u8>>,
)
    requires
        capacity > 0,
        sizes_fit(transfers),
        transfers.len() >= MAX_READ_ROUNDS + 2,
    ensures
        answer(step, capacity, AnswerState::First, transfers) is Some,
{
    match transfer(step, capacity, AnswerState::First, transfers[0]) {
        ProgressView::Deliver { from, next } => {
            lemma_an_answer_ends(step, capacity, next, transfers.skip(1));
        },
        _ => {},
    }
}

proof fn lemma_an_answer_ends(
    step: &'static str,
    capacity: usize,
    state: AnswerState,
    transfers: Seq<Seq<u8>>,
)
    requires
        sizes_fit(transfers),
        state.wf(),
        match state {
            AnswerState::First => false,
            AnswerState::Joining { left, .. } => transfers.len() > left,
            AnswerState::Closing { .. } => transfers.len() > 0,
            AnswerState::Short { .. } => true,
        },
    ensures
        answer(step, capacity, state, transfers) is Some,
    decreases transfers.len(),
{
    if let AnswerState::Joining { .. } = state {
        match transfer(step, capacity, state, transfers[0]) {
            ProgressView::Deliver { from, next } => {
                assert(sizes_fit(transfers.skip(1)));
                lemma_an_answer_ends(step, capacity, next, transfers.skip(1));
            },
            _ => {},
        }
    }
}

/// What a response container says is in its bytes: the code, and every parameter, however many there are. It
/// is the whole answer of an operation without a data phase, and it closes the answer of one that has it.
pub proof fn law_what_a_response_says(
    step: &'static str,
    capacity: usize,
    code: u16,
    transaction_id: u32,
    params: Seq<u32>,
    bytes_before: u64,
    reads_before: usize,
)
    requires
        HEADER_LEN + 4 * params.len() <= u32::MAX,
    ensures
        ({
            let h = Header {
                length: (12 + 4 * params.len()) as u32,
                kind: ContainerType::Response,
                code,
                transaction_id,
            };
            let buf = container::header_bytes(h) + crate::ptp::bytes::u32_list_bytes(params);
            &&& is_response(buf)
            &&& answer(step, capacity, AnswerState::First, seq![buf]) == Some(
                (
                    Ok::<ResponseView, SessionError>(
                        ResponseView { code, params, bytes: 0, reads: 1 },
                    ),
                    Seq::<u8>::empty(),
                ),
            )
            &&& answer(
                step,
                capacity,
                AnswerState::Closing { payload: bytes_before, reads: reads_before },
                seq![buf],
            ) == Some(
                (
                    Ok::<ResponseView, SessionError>(
                        ResponseView { code, params, bytes: bytes_before, reads: reads_before },
                    ),
                    Seq::<u8>::empty(),
                ),
            )
            &&& response_of(buf, bytes_before, reads_before) == (ResponseView {
                code,
                params,
                bytes: bytes_before,
                reads: reads_before,
            })
        }),
{
    let h = Header {
        length: (12 + 4 * params.len()) as u32,
        kind: ContainerType::Response,
        code,
        transaction_id,
    };
    let list = crate::ptp::bytes::u32_list_bytes(params);
    let buf = container::header_bytes(h) + list;
    crate::ptp::bytes::lemma_u32_list_len(params);
    container::law_header_round_trip(h, list);
    container::law_a_container_is_what_its_bytes_say(buf);
    assert(buf.subrange(12, h.length as int) =~= list);
    assert(list + Seq::<u8>::empty() =~= list);
    container::law_parameters_round_trip(params, Seq::empty());
}

/// A container that is neither data nor a response is no answer, and behind a data phase only a response is.
/// What cannot be read as a container is a fault of the device.
pub proof fn law_what_is_no_answer(step: &'static str, capacity: usize, buf: Seq<u8>, payload: u64, reads: usize)
    ensures
        buf.len() < 12 ==> answer(step, capacity, AnswerState::First, seq![buf]) == Some(
            (
                Err::<ResponseView, SessionError>(
                    SessionError::Parse {
                        step,
                        source: crate::ptp::error::ParseError::ShortHeader {
                            got: buf.len() as usize,
                        },
                    },
                ),
                Seq::<u8>::empty(),
            ),
        ),
        container::header_at(buf) is Ok && (container::header_at(buf)->Ok_0.kind is Command
            || container::header_at(buf)->Ok_0.kind is Event) ==> answer(
            step,
            capacity,
            AnswerState::First,
            seq![buf],
        ) == Some(
            (
                Err::<ResponseView, SessionError>(
                    SessionError::Unexpected {
                        step,
                        expected: ContainerType::Response,
                        got: container::header_at(buf)->Ok_0.kind,
                    },
                ),
                Seq::<u8>::empty(),
            ),
        ),
        container::whole_container(buf) is Ok && !(container::whole_container(
            buf,
        )->Ok_0.kind is Response) ==> answer(
            step,
            capacity,
            AnswerState::Closing { payload, reads },
            seq![buf],
        ) == Some(
            (
                Err::<ResponseView, SessionError>(
                    SessionError::Unexpected {
                        step,
                        expected: ContainerType::Response,
                        got: container::whole_container(buf)->Ok_0.kind,
                    },
                ),
                Seq::<u8>::empty(),
            ),
        ),
{
}

/// A data phase that stops before the declared size is a fault that says how many bytes were declared and how
/// many arrived. Stopping is an empty transfer, or the end of the reads that the answer allows.
pub proof fn law_a_data_phase_that_stops_early_is_incomplete(
    step: &'static str,
    capacity: usize,
    data: Seq<Seq<u8>>,
)
    requires
        capacity > 0,
        data.len() > 0,
        container::header_at(data[0]) is Ok,
        container::header_at(data[0])->Ok_0.kind == ContainerType::Data,
        sizes_fit(data),
        forall|i: int| 1 <= i < data.len() ==> (#[trigger] data[i]).len() > 0,
        all_bytes(data).len() < container::header_at(data[0])->Ok_0.length,
        data.len() - 1 <= read_rounds(container::header_at(data[0])->Ok_0.length, capacity),
    ensures
        answer(step, capacity, AnswerState::First, data.push(Seq::empty())) == Some(
            (
                Err::<ResponseView, SessionError>(
                    SessionError::Incomplete {
                        step,
                        want: container::header_at(data[0])->Ok_0.length as u64,
                        got: all_bytes(data).len() as u64,
                    },
                ),
                all_bytes(data).skip(12),
            ),
        ),
{
    let declared = container::header_at(data[0])->Ok_0.length;
    let transfers = data.push(Seq::empty());
    let first = data[0];
    let rest = data.skip(1);
    assert(transfers[0] == first);
    assert(transfers.skip(1) =~= rest.push(Seq::empty()));
    assert forall|i: int| 0 <= i < rest.len() implies (#[trigger] rest[i]).len() > 0 by {
        assert(data[i + 1].len() > 0);
    }
    assert(sizes_fit(rest));
    vstd::arithmetic::div_mod::lemma_div_pos_is_pos(declared as int, capacity as int);
    lemma_joining_stops(
        step,
        capacity,
        declared,
        first.len() as u64,
        (first.len() - HEADER_LEN) as u64,
        1,
        read_rounds(declared, capacity),
        rest,
    );
    assert(first.skip(12) + all_bytes(rest) =~= all_bytes(data).skip(12));
}

proof fn lemma_joining_stops(
    step: &'static str,
    capacity: usize,
    declared: u32,
    have: u64,
    payload: u64,
    reads: usize,
    left: u64,
    rest: Seq<Seq<u8>>,
)
    requires
        rest.len() <= left <= MAX_READ_ROUNDS,
        reads + left <= MAX_READ_ROUNDS + 1,
        payload <= have,
        sizes_fit(rest),
        forall|i: int| 0 <= i < rest.len() ==> (#[trigger] rest[i]).len() > 0,
        have + all_bytes(rest).len() < declared,
    ensures
        answer(
            step,
            capacity,
            after_data(declared, have, payload, reads, left),
            rest.push(Seq::empty()),
        ) == Some(
            (
                Err::<ResponseView, SessionError>(
                    SessionError::Incomplete {
                        step,
                        want: declared as u64,
                        got: (have + all_bytes(rest).len()) as u64,
                    },
                ),
                all_bytes(rest),
            ),
        ),
    decreases rest.len(),
{
    let transfers = rest.push(Seq::empty());
    if rest.len() == 0 {
        assert(all_bytes(rest) =~= Seq::empty());
        assert(transfers[0].len() == 0);
    } else {
        let got = rest[0];
        let more = rest.skip(1);
        assert(transfers[0] == got);
        assert(transfers.skip(1) =~= more.push(Seq::empty()));
        assert(got.skip(0) =~= got);
        assert forall|i: int| 0 <= i < more.len() implies (#[trigger] more[i]).len() > 0 by {
            assert(rest[i + 1].len() > 0);
        }
        lemma_joining_stops(
            step,
            capacity,
            declared,
            (have + got.len()) as u64,
            (payload + got.len()) as u64,
            (reads + 1) as usize,
            (left - 1) as u64,
            more,
        );
    }
}

/// How many reads a data phase may take behind the first one: as many as the declared size needs when every
/// read is full, and 16 more, and never more than a data phase of 64 gibibytes needs with the smallest reads.
pub proof fn law_how_many_reads_a_data_phase_may_take(declared: u32, capacity: usize)
    requires
        capacity > 0,
    ensures
        read_rounds(declared, capacity) <= 0x800_0000,
        read_rounds(declared, capacity) < 0x800_0000 ==> read_rounds(declared, capacity)
            == declared as int / capacity as int + 16,
        declared as int / capacity as int + 16 < 0x800_0000 ==> read_rounds(declared, capacity)
            == declared as int / capacity as int + 16,
{
    vstd::arithmetic::div_mod::lemma_div_pos_is_pos(declared as int, capacity as int);
}

} // verus!
