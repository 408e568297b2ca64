//! How a session reads and writes.

use vstd::prelude::*;

use crate::ptp::error::HEADER_LEN;
use crate::time::Duration;

verus! {

/// The smallest read buffer a session accepts.
///
/// A read must hold a container header. The value is far above that, because a read below one USB
/// packet wastes a transfer.
pub const READ_BUFFER_MIN: usize = 512;

/// The packet size of a USB 2.0 bulk endpoint, in bytes.
pub const USB2_PACKET: u64 = 512;

/// How a session reads and writes.
#[derive(Debug, Clone, Copy, PartialEq, Eq, Structural)]
pub struct Config {
    /// The deadline for one transfer.
    pub timeout: Duration,
    /// The size of one read, in bytes.
    pub read_buffer: usize,
    /// The count of payload bytes in one write to the device.
    pub write_chunk: usize,
    /// The largest packet the bulk endpoints accept, in bytes.
    ///
    /// A data phase that is a multiple of this count needs a packet of zero bytes at the end. The
    /// count is 512 at high speed, and 1024 at super speed.
    pub packet: u64,
}

impl Default for Config {
    fn default() -> (r: Self)
        ensures
            r.timeout.nanos() == 10 * 1_000_000_000,
            r.read_buffer == 64 * 1024,
            r.write_chunk == 512 * 1024,
            r.packet == USB2_PACKET,
    {
        Config {
            timeout: Duration::from_secs(10),
            read_buffer: 64 * 1024,
            write_chunk: 512 * 1024,
            packet: USB2_PACKET,
        }
    }
}

/// The smallest multiple of `packet` that is not below `n`.
pub open spec fn next_multiple(n: int, packet: int) -> int {
    if n % packet == 0 {
        n
    } else {
        n + (packet - n % packet)
    }
}

/// The packet size that a session uses.
pub open spec fn usable_packet(packet: u64) -> u64 {
    if packet == 0 {
        USB2_PACKET
    } else {
        packet
    }
}

/// The read buffer that a session uses.
pub open spec fn usable_read_buffer(bytes: usize) -> usize {
    if bytes < READ_BUFFER_MIN {
        READ_BUFFER_MIN
    } else {
        bytes
    }
}

/// The write chunk that a session uses: a whole number of packets, of which there are enough for a
/// header and one byte of payload.
pub open spec fn usable_write_chunk(chunk: int, packet: int) -> int {
    let least = next_multiple(HEADER_LEN + 1, packet);
    if chunk < least {
        least
    } else {
        chunk - chunk % packet
    }
}

impl Config {
    /// The configuration that a session uses in place of this one.
    pub open spec fn corrected(self) -> Config {
        let packet = usable_packet(self.packet);
        Config {
            timeout: self.timeout,
            read_buffer: usable_read_buffer(self.read_buffer),
            write_chunk: usable_write_chunk(self.write_chunk as int, packet as int) as usize,
            packet,
        }
    }

    /// Whether no value of the configuration would break a transfer.
    pub open spec fn wf(self) -> bool {
        &&& self.packet > 0
        &&& self.read_buffer >= READ_BUFFER_MIN
        &&& self.write_chunk > HEADER_LEN
        &&& self.write_chunk as int % self.packet as int == 0
    }

    /// Corrects any value that would break a transfer.
    ///
    /// The function raises a read buffer below [`READ_BUFFER_MIN`], and it rounds a write chunk down
    /// to a whole number of USB packets.
    ///
    /// A write that is not a whole number of packets ends with a short packet. The device reads a
    /// short packet as the end of the data phase, and the rest of the file never arrives.
    pub fn normalised(self) -> (r: Self)
        requires
            self.packet <= usize::MAX,
        ensures
            r == self.corrected(),
            r.wf(),
    {
        let mut c = self;
        if c.packet == 0 {
            c.packet = USB2_PACKET;
        }
        if c.read_buffer < READ_BUFFER_MIN {
            c.read_buffer = READ_BUFFER_MIN;
        }
        let packet: usize = c.packet as usize;
        let over: usize = (HEADER_LEN + 1) % packet;
        proof {
            lemma_usable_write_chunk(self.write_chunk as int, packet as int);
        }
        let least: usize = if over == 0 {
            HEADER_LEN + 1
        } else {
            packet - over + (HEADER_LEN + 1)
        };
        if c.write_chunk < least {
            c.write_chunk = least;
        }
        c.write_chunk = c.write_chunk - c.write_chunk % packet;
        c
    }
}

proof fn lemma_usable_write_chunk(chunk: int, packet: int)
    requires
        packet > 0,
        chunk >= 0,
    ensures
        ({
            let least = next_multiple(HEADER_LEN + 1, packet);
            &&& least % packet == 0
            &&& HEADER_LEN + 1 <= least
            &&& least <= packet || least <= 2 * HEADER_LEN + 1
            &&& chunk >= least ==> chunk - chunk % packet >= least
        }),
        usable_write_chunk(chunk, packet) % packet == 0,
        usable_write_chunk(chunk, packet) > HEADER_LEN,
{
    let n = HEADER_LEN + 1;
    let least = next_multiple(n, packet);
    vstd::arithmetic::div_mod::lemma_fundamental_div_mod(n, packet);
    vstd::arithmetic::div_mod::lemma_fundamental_div_mod(chunk, packet);
    vstd::arithmetic::div_mod::lemma_mod_bound(n, packet);
    vstd::arithmetic::div_mod::lemma_mod_bound(chunk, packet);
    let q = n / packet;
    assert(least % packet == 0) by {
        if n % packet != 0 {
            assert(least == packet * (q + 1)) by (nonlinear_arith)
                requires
                    n == packet * q + n % packet,
                    least == n + (packet - n % packet),
            ;
            vstd::arithmetic::div_mod::lemma_mod_multiples_basic(q + 1, packet);
            vstd::arithmetic::mul::lemma_mul_is_commutative(packet, q + 1);
        }
    }
    if n < packet {
        vstd::arithmetic::div_mod::lemma_small_mod(n as nat, packet as nat);
    }
    let k = chunk / packet;
    let m = least / packet;
    vstd::arithmetic::div_mod::lemma_fundamental_div_mod(least, packet);
    vstd::arithmetic::mul::lemma_mul_is_commutative(packet, k);
    vstd::arithmetic::div_mod::lemma_mod_multiples_basic(k, packet);
    assert(chunk - chunk % packet == packet * k);
    if chunk >= least {
        assert(packet * k >= packet * m) by (nonlinear_arith)
            requires
                packet > 0,
                packet * k + chunk % packet >= packet * m,
                0 <= chunk % packet < packet,
        ;
    }
}

/// Correcting a configuration that a session can use changes nothing, and a configuration needs to
/// be corrected only once.
pub proof fn law_normalised_is_stable(c: Config)
    requires
        c.packet <= usize::MAX,
    ensures
        c.wf() ==> c.corrected() == c,
        c.corrected().wf(),
        c.corrected().corrected() == c.corrected(),
{
    let packet = usable_packet(c.packet) as int;
    lemma_usable_write_chunk(c.write_chunk as int, packet);
    assert(usable_write_chunk(c.write_chunk as int, packet) <= usize::MAX);
    let w = c.corrected().write_chunk as int;
    lemma_usable_write_chunk(w, packet);
    if c.wf() {
        lemma_least_is_least(c.write_chunk as int, packet);
    }
    lemma_least_is_least(w, packet);
}

/// A multiple of the packet size that holds a header and a byte of payload is not below the least
/// chunk.
proof fn lemma_least_is_least(chunk: int, packet: int)
    requires
        packet > 0,
        chunk % packet == 0,
        chunk > HEADER_LEN,
    ensures
        chunk >= next_multiple(HEADER_LEN + 1, packet),
{
    let n = HEADER_LEN + 1;
    vstd::arithmetic::div_mod::lemma_fundamental_div_mod(n, packet);
    vstd::arithmetic::div_mod::lemma_fundamental_div_mod(chunk, packet);
    vstd::arithmetic::div_mod::lemma_mod_bound(n, packet);
    let q = n / packet;
    let k = chunk / packet;
    if n % packet != 0 {
        assert(packet * k >= packet * (q + 1)) by (nonlinear_arith)
            requires
                packet > 0,
                packet * k >= packet * q + n % packet,
                0 < n % packet < packet,
        ;
        assert(packet * (q + 1) == packet * q + packet) by (nonlinear_arith);
    }
}

/// What a session makes of a configuration: the deadline and a packet size stay, a read buffer stays unless it
/// is below 512 bytes, and the write chunk is the largest whole number of packets in it, or the smallest that
/// holds more than the 12 bytes of a header.
pub proof fn law_what_is_corrected(c: Config)
    requires
        c.packet <= usize::MAX,
    ensures
        ({
            let r = c.corrected();
            let packet = r.packet as int;
            &&& r.timeout == c.timeout
            &&& c.packet > 0 ==> r.packet == c.packet
            &&& c.packet == 0 ==> r.packet == 512
            &&& c.read_buffer >= 512 ==> r.read_buffer == c.read_buffer
            &&& c.read_buffer < 512 ==> r.read_buffer == 512
            &&& r.write_chunk as int % packet == 0
            &&& r.write_chunk > 12
            &&& r.write_chunk <= c.write_chunk ==> c.write_chunk - r.write_chunk < packet
            &&& r.write_chunk > c.write_chunk ==> r.write_chunk - packet <= 12
        }),
{
    let packet = usable_packet(c.packet) as int;
    lemma_usable_write_chunk(c.write_chunk as int, packet);
    let n = HEADER_LEN + 1;
    vstd::arithmetic::div_mod::lemma_mod_bound(n, packet);
    vstd::arithmetic::div_mod::lemma_mod_bound(c.write_chunk as int, packet);
    assert(usable_write_chunk(c.write_chunk as int, packet) <= usize::MAX);
}

/// What a configuration is unless it is set: ten seconds for a transfer, reads of 64 kibibytes, writes of 512
/// kibibytes, and packets of 512 bytes. It needs no correction.
pub proof fn law_the_usual_configuration(r: Config)
    requires
        call_ensures(Config::default, (), r),
    ensures
        r.timeout.nanos() == 10_000_000_000,
        r.read_buffer == 65536,
        r.write_chunk == 524288,
        r.packet == 512,
        r.wf(),
{
}

} // verus!
