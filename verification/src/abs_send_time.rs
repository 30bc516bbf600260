//! The abs-send-time RTP header extension: a 24-bit 6.18 fixed-point NTP
//! timestamp (http://www.webrtc.org/experiments/rtp-hdrext/abs-send-time).
//! Times are given in nanoseconds since the Unix epoch.
use vstd::prelude::*;

verus! {

/// Size of the extension payload.
pub const ABS_SEND_TIME_EXTENSION_SIZE: usize = 3;
/// Seconds between the NTP epoch (1900) and the Unix epoch (1970).
pub const NTP_UNIX_OFFSET: u64 = 0x83AA7E80;

/// Errors of the extension.
#[derive(Debug, PartialEq, Eq)]
pub enum ExtensionError {
    TooSmall,
}

/// The 64-bit NTP timestamp (32.32 fixed point) of `u` nanoseconds after the
/// Unix epoch; the seconds wrap modulo 2^32.
pub open spec fn spec_unix2ntp(u: u64) -> u64 {
    let s = u / 1_000_000_000 + NTP_UNIX_OFFSET;
    let f = (u % 1_000_000_000) * 4294967296 / 1_000_000_000;
    ((s % 4294967296) * 4294967296 + f) as u64
}

/// The nanoseconds after the Unix epoch of the NTP timestamp `t`.
pub open spec fn spec_ntp2unix(t: u64) -> u64 {
    let s = t / 4294967296 - NTP_UNIX_OFFSET;
    let f = (t % 4294967296) * 1_000_000_000 / 4294967296;
    (s * 1_000_000_000 + f) as u64
}

/// NTP timestamps from 1970 on: the ones `ntp2unix` converts.
pub open spec fn ntp_after_unix_epoch(t: u64) -> bool {
    t / 4294967296 >= NTP_UNIX_OFFSET
}

proof fn lemma_shl32(x: u64)
    ensures
        (x << 32u64) == ((x % 4294967296) * 4294967296) as u64,
        x >> 32u64 == x / 4294967296,
        x & 0xFFFF_FFFFu64 == x % 4294967296,
{
    assert((x << 32u64) == ((x % 4294967296) * 4294967296) as u64) by (bit_vector);
    assert(x >> 32u64 == x / 4294967296) by (bit_vector);
    assert(x & 0xFFFF_FFFFu64 == x % 4294967296) by (bit_vector);
}

proof fn lemma_or_low(hi: u64, lo: u64)
    requires
        hi % 4294967296 == 0,
        lo < 4294967296,
    ensures
        hi | lo == hi + lo,
{
    assert(hi % 4294967296 == 0 && lo < 4294967296 ==> hi | lo == hi + lo) by (bit_vector);
}

/// Converts `u` nanoseconds after the Unix epoch to a 64-bit NTP timestamp.
pub fn unix2ntp(u: u64) -> (r: u64)
    ensures
        r == spec_unix2ntp(u),
{
    let mut s = u / 1_000_000_000;
    s += NTP_UNIX_OFFSET;
    let mut f = u % 1_000_000_000;
    proof {
        lemma_shl32(f);
        lemma_shl32(s);
    }
    f = f << 32;
    f = f / 1_000_000_000;
    s = s << 32;
    proof {
        assert(f < 4294967296);
        lemma_or_low(s, f);
    }
    s | f
}

/// Converts a 64-bit NTP timestamp from 1970 on to nanoseconds after the Unix
/// epoch.
pub fn ntp2unix(t: u64) -> (r: u64)
    requires
        ntp_after_unix_epoch(t),
    ensures
        r == spec_ntp2unix(t),
{
    proof {
        lemma_shl32(t);
    }
    let mut s = t >> 32;
    let mut f = t & 0xFFFF_FFFF;
    f = f * 1_000_000_000;
    proof {
        assert(f >> 32u64 == f / 4294967296) by (bit_vector);
    }
    f = f >> 32;
    s = s - NTP_UNIX_OFFSET;
    s * 1_000_000_000 + f
}

/// The time of an NTP timestamp, or `None` for one before the Unix epoch.
pub fn ntp2unix_checked(t: u64) -> (r: Option<u64>)
    ensures
        ntp_after_unix_epoch(t) ==> r == Some(spec_ntp2unix(t)),
        !ntp_after_unix_epoch(t) ==> r is None,
{
    if t / 4294967296 < NTP_UNIX_OFFSET {
        None
    } else {
        Some(ntp2unix(t))
    }
}

/// Converting to NTP and back loses less than a nanosecond, as long as the
/// seconds of the NTP timestamp do not wrap (before the year 2036).
pub proof fn lemma_ntp_roundtrip(u: u64)
    requires
        u / 1_000_000_000 + NTP_UNIX_OFFSET < 4294967296,
    ensures
        ntp_after_unix_epoch(spec_unix2ntp(u)),
        u - 1 <= spec_ntp2unix(spec_unix2ntp(u)) <= u,
{
    let s = u / 1_000_000_000 + NTP_UNIX_OFFSET;
    let r = u % 1_000_000_000;
    let f = r * 4294967296 / 1_000_000_000;
    let t = spec_unix2ntp(u);
    assert(f < 4294967296) by (nonlinear_arith)
        requires
            f == r * 4294967296 / 1_000_000_000,
            0 <= r < 1_000_000_000,
    ;
    assert(t == s * 4294967296 + f);
    assert(t / 4294967296 == s && t % 4294967296 == f) by (nonlinear_arith)
        requires
            t == s * 4294967296 + f,
            0 <= f < 4294967296,
    ;
    let g = f * 1_000_000_000 / 4294967296;
    assert(r - 1 <= g <= r) by (nonlinear_arith)
        requires
            f == r * 4294967296 / 1_000_000_000,
            g == f * 1_000_000_000 / 4294967296,
            0 <= r < 1_000_000_000,
    ;
    assert(u == (u / 1_000_000_000) * 1_000_000_000 + r) by (nonlinear_arith)
        requires
            r == u % 1_000_000_000,
    ;
}

/// The abs-send-time extension: the send time's NTP timestamp in 6.18 fixed
/// point, of which 24 bits are sent.
#[derive(Debug, Default, PartialEq, Eq)]
pub struct AbsSendTimeExtension {
    pub timestamp: u64,
}

/// The three bytes sent for a timestamp: its low 24 bits, big-endian.
pub open spec fn abs_send_time_bytes(timestamp: u64) -> Seq<u8> {
    seq![
        ((timestamp / 65536) % 256) as u8,
        ((timestamp / 256) % 256) as u8,
        (timestamp % 256) as u8,
    ]
}

/// The absolute send time estimated from the 24-bit timestamp and the
/// receive time: the NTP time with the receive time's upper bits and the
/// timestamp's bits below them, one 2^24 period earlier if that lies after
/// the receive time.
pub open spec fn spec_estimate_ntp(timestamp: u64, receive_ntp: u64) -> u64 {
    let ntp = (receive_ntp / 274877906944) * 274877906944 + (timestamp % 16777216) * 16384;
    if receive_ntp < ntp {
        (ntp - 274877906944) as u64
    } else {
        ntp as u64
    }
}

proof fn lemma_estimate_no_underflow(r: u64, low: u64)
    requires
        low < 16777216,
        r >= 274877906944 || r % 274877906944 >= low * 16384,
    ensures
        r < (r / 274877906944) * 274877906944 + low * 16384 ==> (r / 274877906944)
            * 274877906944 + low * 16384 >= 274877906944,
        (r / 274877906944) * 274877906944 + low * 16384 < 18446744073709551616,
{
    let q = r / 274877906944;
    let m = r % 274877906944;
    assert(r == q * 274877906944 + m && 0 <= m < 274877906944) by (nonlinear_arith)
        requires
            q == r / 274877906944,
            m == r % 274877906944,
    ;
    assert(q < 67108864) by (nonlinear_arith)
        requires
            r == q * 274877906944 + m,
            0 <= m,
            r < 18446744073709551616,
    ;
    if r < 274877906944 {
        assert(q == 0) by (nonlinear_arith)
            requires
                r == q * 274877906944 + m,
                0 <= m,
                r < 274877906944,
                q >= 0,
        ;
    } else {
        assert(q >= 1) by (nonlinear_arith)
            requires
                r == q * 274877906944 + m,
                m < 274877906944,
                r >= 274877906944,
        ;
    }
}

impl AbsSendTimeExtension {
    /// The three bytes of the timestamp.
    pub fn marshal(&self) -> (r: Result<Vec<u8>, ExtensionError>)
        ensures
            r matches Ok(v) && v@ == abs_send_time_bytes(self.timestamp),
    {
        let t = self.timestamp;
        let b0 = ((t & 0xFF0000) >> 16) as u8;
        let b1 = ((t & 0xFF00) >> 8) as u8;
        let b2 = (t & 0xFF) as u8;
        proof {
            assert(((t & 0xFF0000) >> 16) == (t / 65536) % 256) by (bit_vector);
            assert(((t & 0xFF00) >> 8) == (t / 256) % 256) by (bit_vector);
            assert((t & 0xFF) == t % 256) by (bit_vector);
        }
        let mut v: Vec<u8> = Vec::new();
        v.push(b0);
        v.push(b1);
        v.push(b2);
        assert(v@ =~= abs_send_time_bytes(self.timestamp));
        Ok(v)
    }

    /// Reads the timestamp from the first three bytes of `raw_data`.
    pub fn unmarshal(&mut self, raw_data: &[u8]) -> (r: Result<(), ExtensionError>)
        ensures
            raw_data@.len() < 3 ==> r == Err::<(), ExtensionError>(ExtensionError::TooSmall)
                && final(self).timestamp == old(self).timestamp,
            raw_data@.len() >= 3 ==> r == Ok::<(), ExtensionError>(()) && final(self).timestamp
                == raw_data@[0] * 65536 + raw_data@[1] * 256 + raw_data@[2],
    {
        if raw_data.len() < ABS_SEND_TIME_EXTENSION_SIZE {
            return Err(ExtensionError::TooSmall);
        }
        let b0 = raw_data[0] as u64;
        let b1 = raw_data[1] as u64;
        let b2 = raw_data[2] as u64;
        proof {
            assert(b0 < 256 && b1 < 256 && b2 < 256 ==> (b0 << 16u64) | (b1 << 8u64) | b2 == b0
                * 65536 + b1 * 256 + b2) by (bit_vector);
        }
        self.timestamp = b0 << 16 | b1 << 8 | b2;
        Ok(())
    }

    /// Estimates the absolute send time (nanoseconds after the Unix epoch)
    /// from the receive time; wrong when the transmission took more than 64
    /// seconds.
    pub fn estimate(&self, receive: u64) -> (r: u64)
        requires
            spec_unix2ntp(receive) >= 274877906944 || spec_unix2ntp(receive) % 274877906944 >= (
            self.timestamp % 16777216) * 16384,
            ntp_after_unix_epoch(spec_estimate_ntp(self.timestamp, spec_unix2ntp(receive))),
        ensures
            r == spec_ntp2unix(spec_estimate_ntp(self.timestamp, spec_unix2ntp(receive))),
    {
        let receive_ntp = unix2ntp(receive);
        let t = self.timestamp;
        let mut ntp = receive_ntp & 0xFFFFFFC000000000 | (t & 0xFFFFFF) << 14;
        proof {
            assert(receive_ntp & 0xFFFFFFC000000000 | (t & 0xFFFFFF) << 14 == (receive_ntp
                / 274877906944) * 274877906944 + (t % 16777216) * 16384) by (bit_vector);
        }
        proof {
            lemma_estimate_no_underflow(receive_ntp, t % 16777216);
        }
        if receive_ntp < ntp {
            proof {
                assert((0x1000000u64 << 14u64) == 274877906944u64) by (bit_vector);
            }
            ntp -= 0x1000000u64 << 14u64;
        }
        ntp2unix(ntp)
    }

    /// The estimate of `estimate`, where it is defined: `None` where the
    /// step back by one period would go below zero or the estimate lies
    /// before the Unix epoch.
    pub fn estimate_checked(&self, receive: u64) -> (r: Option<u64>)
        ensures
            ({
                let rn = spec_unix2ntp(receive);
                if (rn >= 274877906944 || rn % 274877906944 >= (self.timestamp % 16777216) * 16384)
                    && ntp_after_unix_epoch(spec_estimate_ntp(self.timestamp, rn)) {
                    r == Some(spec_ntp2unix(spec_estimate_ntp(self.timestamp, rn)))
                } else {
                    r is None
                }
            }),
    {
        let receive_ntp = unix2ntp(receive);
        let low = self.timestamp % 16777216;
        if !(receive_ntp >= 274877906944 || receive_ntp % 274877906944 >= low * 16384) {
            return None;
        }
        proof {
            lemma_estimate_no_underflow(receive_ntp, low);
        }
        let mut ntp = (receive_ntp / 274877906944) * 274877906944 + low * 16384;
        if receive_ntp < ntp {
            ntp = ntp - 274877906944;
        }
        if ntp / 4294967296 < NTP_UNIX_OFFSET {
            return None;
        }
        Some(self.estimate(receive))
    }

    /// The extension for a send time given in nanoseconds after the Unix
    /// epoch.
    pub fn new(send_time: u64) -> (r: Self)
        ensures
            r.timestamp == spec_unix2ntp(send_time) / 16384,
    {
        let n = unix2ntp(send_time);
        proof {
            assert(n >> 14u64 == n / 16384) by (bit_vector);
        }
        AbsSendTimeExtension { timestamp: n >> 14 }
    }
}

/// The NTP timestamp of a time is the time scaled by 2^32 / 10^9 (counted
/// from 1900) and rounded down.
proof fn lemma_unix2ntp_floor(u: u64)
    requires
        u / 1_000_000_000 + NTP_UNIX_OFFSET < 4294967296,
    ensures
        spec_unix2ntp(u) * 1_000_000_000 <= (u + NTP_UNIX_OFFSET * 1_000_000_000) * 4294967296,
        (u + NTP_UNIX_OFFSET * 1_000_000_000) * 4294967296 < (spec_unix2ntp(u) + 1)
            * 1_000_000_000,
{
    let s = u / 1_000_000_000 + NTP_UNIX_OFFSET;
    let r = u % 1_000_000_000;
    let f = r * 4294967296 / 1_000_000_000;
    assert(f * 1_000_000_000 <= r * 4294967296 < (f + 1) * 1_000_000_000 && f < 4294967296)
        by (nonlinear_arith)
        requires
            f == r * 4294967296 / 1_000_000_000,
            0 <= r < 1_000_000_000,
    ;
    assert(s % 4294967296 == s);
    assert(s * 4294967296 + f < 18446744073709551616) by (nonlinear_arith)
        requires
            0 <= s < 4294967296,
            0 <= f < 4294967296,
    ;
    assert(spec_unix2ntp(u) == s * 4294967296 + f);
    assert(u == (u / 1_000_000_000) * 1_000_000_000 + r) by (nonlinear_arith)
        requires
            r == u % 1_000_000_000,
    ;
    assert((s * 4294967296 + f) * 1_000_000_000 == s * 1_000_000_000 * 4294967296 + f
        * 1_000_000_000) by (nonlinear_arith);
    assert((u + NTP_UNIX_OFFSET * 1_000_000_000) * 4294967296 == s * 1_000_000_000 * 4294967296
        + r * 4294967296) by (nonlinear_arith)
        requires
            u == (u / 1_000_000_000) * 1_000_000_000 + r,
            s == u / 1_000_000_000 + NTP_UNIX_OFFSET,
    ;
}

/// The time of an NTP timestamp from 1970 on is the timestamp scaled by
/// 10^9 / 2^32 (counted from 1970) and rounded down.
proof fn lemma_ntp2unix_floor(t: u64)
    requires
        ntp_after_unix_epoch(t),
    ensures
        (spec_ntp2unix(t) + NTP_UNIX_OFFSET * 1_000_000_000) * 4294967296 <= t * 1_000_000_000,
        t * 1_000_000_000 < (spec_ntp2unix(t) + NTP_UNIX_OFFSET * 1_000_000_000 + 1)
            * 4294967296,
{
    let s = t / 4294967296;
    let f = t % 4294967296;
    let g = f * 1_000_000_000 / 4294967296;
    assert(g * 4294967296 <= f * 1_000_000_000 < (g + 1) * 4294967296 && g < 1_000_000_000)
        by (nonlinear_arith)
        requires
            g == f * 1_000_000_000 / 4294967296,
            0 <= f < 4294967296,
    ;
    assert(t == s * 4294967296 + f && s < 4294967296) by (nonlinear_arith)
        requires
            s == t / 4294967296,
            f == t % 4294967296,
            t < 18446744073709551616,
    ;
    assert((s - NTP_UNIX_OFFSET) * 1_000_000_000 + g < 18446744073709551616) by (nonlinear_arith)
        requires
            NTP_UNIX_OFFSET <= s < 4294967296,
            0 <= g < 1_000_000_000,
    ;
    assert(spec_ntp2unix(t) == (s - NTP_UNIX_OFFSET) * 1_000_000_000 + g);
    assert((s * 1_000_000_000 + g) * 4294967296 == s * 4294967296 * 1_000_000_000 + g
        * 4294967296) by (nonlinear_arith);
    assert(t * 1_000_000_000 == s * 4294967296 * 1_000_000_000 + f * 1_000_000_000)
        by (nonlinear_arith)
        requires
            t == s * 4294967296 + f,
    ;
}

/// The send time estimated from an extension made at `send` and received at
/// `receive` is at most `send` and less than 4 microseconds before it, when
/// the packet took less than 63 seconds and both times lie before the NTP
/// seconds wrap (in 2036). The estimate is then defined.
pub proof fn lemma_estimate_accuracy(send: u64, receive: u64)
    requires
        send <= receive,
        receive - send < 63_000_000_000,
        receive / 1_000_000_000 + NTP_UNIX_OFFSET < 4294967296,
    ensures
        ({
            let ts = spec_unix2ntp(send) / 16384;
            let rn = spec_unix2ntp(receive);
            let e = spec_ntp2unix(spec_estimate_ntp(ts, rn));
            &&& rn >= 274877906944 || rn % 274877906944 >= (ts % 16777216) * 16384
            &&& ntp_after_unix_epoch(spec_estimate_ntp(ts, rn))
            &&& e <= send
            &&& send - e < 4000
        }),
{
    let sn = spec_unix2ntp(send);
    let rn = spec_unix2ntp(receive);
    let ts = sn / 16384;
    assert(send / 1_000_000_000 <= receive / 1_000_000_000) by (nonlinear_arith)
        requires
            send <= receive,
    ;
    lemma_unix2ntp_floor(send);
    lemma_unix2ntp_floor(receive);
    // The two timestamps lie less than one 2^38 period (64 s) apart.
    assert(sn <= rn);
    assert(rn - sn < 274877906944 - 16384);
    assert(rn >= 274877906944);
    let b = sn % 16384;
    let sp = (sn - b) as u64;
    assert((ts % 16777216) * 16384 == sn % 274877906944 - sn % 16384) by (bit_vector)
        requires
            ts == sn / 16384,
    ;
    let q1 = sn / 274877906944;
    let q2 = rn / 274877906944;
    let m1 = sn % 274877906944;
    let m2 = rn % 274877906944;
    assert(sn == q1 * 274877906944 + m1 && 0 <= m1 < 274877906944) by (nonlinear_arith)
        requires
            q1 == sn / 274877906944,
            m1 == sn % 274877906944,
    ;
    assert(rn == q2 * 274877906944 + m2 && 0 <= m2 < 274877906944) by (nonlinear_arith)
        requires
            q2 == rn / 274877906944,
            m2 == rn % 274877906944,
    ;
    assert(q2 == q1 || q2 == q1 + 1) by (nonlinear_arith)
        requires
            sn == q1 * 274877906944 + m1,
            rn == q2 * 274877906944 + m2,
            0 <= m1 < 274877906944,
            0 <= m2 < 274877906944,
            0 <= rn - sn < 274877906944,
    ;
    assert(0 <= b < 16384 && b <= m1);
    assert(spec_estimate_ntp(ts, rn) == sp);
    assert(sp / 4294967296 == sn / 4294967296) by (nonlinear_arith)
        requires
            sp == sn - sn % 16384,
            sn >= 0,
    ;
    assert(ntp_after_unix_epoch(sn));
    lemma_ntp2unix_floor(sp);
}

/// The three bytes of a timestamp read back give its low 24 bits.
pub proof fn lemma_abs_send_time_roundtrip(timestamp: u64)
    ensures
        ({
            let b = abs_send_time_bytes(timestamp);
            b[0] * 65536 + b[1] * 256 + b[2] == timestamp % 16777216
        }),
{
    let t = timestamp;
    assert(((t / 65536) % 256) * 65536 + ((t / 256) % 256) * 256 + t % 256 == t % 16777216)
        by (bit_vector);
}

} // verus!
