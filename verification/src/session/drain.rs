//! Dropping the bytes that a device still holds for the host.
//!
//! A program that stops in the middle of a data phase leaves the device with bytes to send. The next
//! program then finds a device that does not answer, and the fault looks like a broken device.

use vstd::prelude::*;

use crate::session::answer::MAX_READ_ROUNDS;
use crate::time::Duration;
use crate::usb::device::UsbError;

verus! {

/// The deadline for the first read of a drain, in milliseconds.
///
/// The value must be small. An endpoint with nothing on it costs this much time at each session
/// start. A device that holds bytes answers at once, because the bytes are already there.
pub const DRAIN_FIRST_MILLIS: u64 = 15;

/// The deadline for each read of a drain after the first, in milliseconds.
pub const DRAIN_REST_MILLIS: u64 = 250;

/// A drain on its way.
#[derive(Debug, Clone, Copy, PartialEq, Eq, Structural)]
pub struct Drain {
    /// The size of one read.
    pub capacity: usize,
    /// The bytes that were dropped.
    pub dropped: u64,
    /// The reads that are left.
    pub left: u64,
    /// Whether the endpoint is empty, or gave a fault.
    pub over: bool,
}

impl Drain {
    /// The deadline of the next read, in milliseconds.
    pub open spec fn deadline(self) -> u64 {
        if self.dropped == 0 {
            DRAIN_FIRST_MILLIS
        } else {
            DRAIN_REST_MILLIS
        }
    }

    /// The drain after a read.
    pub open spec fn after(self, r: Result<usize, UsbError>) -> Drain {
        match r {
            Ok(n) => if n == 0 {
                Drain { over: true, ..self }
            } else {
                Drain {
                    dropped: (self.dropped + n) as u64,
                    left: (self.left - 1) as u64,
                    over: self.left == 1,
                    ..self
                }
            },
            Err(_) => Drain { over: true, ..self },
        }
    }

    /// Whether reads are left unless the drain is over.
    pub open spec fn wf(self) -> bool {
        self.over || self.left > 0
    }

    /// Starts a drain with reads of this size.
    pub fn new(capacity: usize) -> (r: Self)
        ensures
            r == (Drain { capacity, dropped: 0, left: MAX_READ_ROUNDS, over: false }),
            r.wf(),
    {
        Drain { capacity, dropped: 0, left: MAX_READ_ROUNDS, over: false }
    }

    /// Tells the host the size and the deadline of the read that is due, until the drain is over.
    pub fn due(&self) -> (r: Option<(usize, Duration)>)
        ensures
            match r {
                Some((capacity, deadline)) => !self.over && capacity == self.capacity
                    && deadline.nanos() == self.deadline() * 1_000_000,
                None => self.over,
            },
    {
        if self.over {
            return None;
        }
        let millis: u64 = if self.dropped == 0 {
            DRAIN_FIRST_MILLIS
        } else {
            DRAIN_REST_MILLIS
        };
        Some((self.capacity, Duration::from_millis(millis)))
    }

    /// Takes in what a read gave. The drain is over at the first empty read, at the first fault, or
    /// at the limit on the count of reads.
    pub fn got(&mut self, r: Result<usize, UsbError>)
        requires
            old(self).wf(),
            !old(self).over,
            r is Ok ==> old(self).dropped + r->Ok_0 <= u64::MAX,
        ensures
            *final(self) == old(self).after(r),
            final(self).wf(),
    {
        match r {
            Ok(n) => {
                if n == 0 {
                    self.over = true;
                } else {
                    self.dropped = self.dropped + n as u64;
                    self.left = self.left - 1;
                    self.over = self.left == 0;
                }
            },
            Err(_) => {
                self.over = true;
            },
        }
    }
}

/// A drain after reads, as far as it asks for them.
pub open spec fn after_reads(d: Drain, reads: Seq<Result<usize, UsbError>>) -> Drain
    decreases reads.len(),
{
    if reads.len() == 0 || d.over {
        d
    } else {
        after_reads(d.after(reads[0]), reads.skip(1))
    }
}

/// A drain always ends: whatever the device sends, it is over when the reads are used up.
pub proof fn law_a_drain_always_ends(d: Drain, reads: Seq<Result<usize, UsbError>>)
    requires
        d.wf(),
        d.over || reads.len() >= d.left,
    ensures
        after_reads(d, reads).over,
    decreases reads.len(),
{
    if !d.over {
        law_a_drain_always_ends(d.after(reads[0]), reads.skip(1));
    }
}

/// Reads that each gave bytes.
pub open spec fn full_reads(counts: Seq<usize>) -> Seq<Result<usize, UsbError>> {
    counts.map_values(|n: usize| Ok::<usize, UsbError>(n))
}

/// The bytes of reads.
pub open spec fn total(counts: Seq<usize>) -> int
    decreases counts.len(),
{
    if counts.len() == 0 {
        0
    } else {
        counts[0] + total(counts.skip(1))
    }
}

/// A drain drops every byte the device still holds, and counts them: while reads give bytes it goes on, and
/// the first empty read or fault ends it. Where the device never stops, the limit ends it, and the bytes up
/// to there are counted.
pub proof fn law_a_drain_counts_what_it_drops(
    d: Drain,
    counts: Seq<usize>,
    last: Result<usize, UsbError>,
)
    requires
        !d.over,
        counts.len() <= d.left,
        d.left > 0,
        forall|i: int| 0 <= i < counts.len() ==> #[trigger] counts[i] > 0,
        d.dropped + total(counts) <= u64::MAX,
        last is Ok ==> last->Ok_0 == 0,
    ensures
        after_reads(d, full_reads(counts)) == (Drain {
            dropped: (d.dropped + total(counts)) as u64,
            left: (d.left - counts.len()) as u64,
            over: counts.len() == d.left,
            ..d
        }),
        after_reads(d, full_reads(counts).push(last)) == (Drain {
            over: true,
            ..after_reads(d, full_reads(counts))
        }),
    decreases counts.len(),
{
    let reads = full_reads(counts);
    if counts.len() > 0 {
        let more = counts.skip(1);
        lemma_total_is_no_debt(more);
        assert(reads.skip(1) =~= full_reads(more));
        assert(reads.push(last).skip(1) =~= full_reads(more).push(last));
        let next = d.after(reads[0]);
        assert(reads.push(last)[0] == reads[0]);
        if next.over {
            assert(more =~= Seq::empty());
            assert(after_reads(next, full_reads(more)) == next);
            assert(after_reads(next, full_reads(more).push(last)) == next);
        } else {
            law_a_drain_counts_what_it_drops(next, more, last);
        }
    } else {
        let after = d.after(last);
        assert(reads.push(last)[0] == last);
        assert(after_reads(after, reads.push(last).skip(1)) == after);
    }
}

proof fn lemma_total_is_no_debt(counts: Seq<usize>)
    ensures
        total(counts) >= 0,
    decreases counts.len(),
{
    if counts.len() > 0 {
        lemma_total_is_no_debt(counts.skip(1));
    }
}

/// What a drain asks for: reads of the size it was made with, with 15 milliseconds for the first bytes and 250
/// for every read behind them, and as many reads as a data phase may take.
pub proof fn law_what_a_drain_asks_for(capacity: usize, d: Drain, asked: Option<(usize, Duration)>, fresh: Drain)
    requires
        call_ensures(Drain::new, (capacity,), fresh),
        call_ensures(Drain::due, (&d,), asked),
    ensures
        fresh.capacity == capacity,
        fresh.dropped == 0,
        !fresh.over,
        fresh.left == 0x800_0000,
        d.over <==> asked is None,
        asked matches Some((size, wait)) ==> {
            &&& size == d.capacity
            &&& d.dropped == 0 ==> wait.nanos() == 15_000_000
            &&& d.dropped > 0 ==> wait.nanos() == 250_000_000
        },
{
}

} // verus!
