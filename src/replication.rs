//! The replication client's decisions: reading the frames of the WAL stream,
//! tracking the log position and the keepalive counter, and writing the
//! standby status update.

use vstd::prelude::*;
use vstd::utf8::{valid_utf8, decode_utf8};

verus! {

/// Tag of a frame that carries WAL data.
pub const XLOG_DATA_TAG: u8 = 0x77;

/// Tag of a keepalive frame.
pub const PRIMARY_KEEPALIVE_TAG: u8 = 0x6B;

/// Tag of a standby status update.
pub const STANDBY_STATUS_TAG: u8 = 0x72;

/// Keepalives that may ask for a reply in a row before the link is wedged.
pub const MAX_PENDING_KEEPALIVES: u8 = 5;

/// The big-endian `u64` at `off`.
pub open spec fn be_u64_at(s: Seq<u8>, off: int) -> u64 {
    (s[off] as u64) << 56u64 | (s[off + 1] as u64) << 48u64 | (s[off + 2] as u64) << 40u64 | (s[off
        + 3] as u64) << 32u64 | (s[off + 4] as u64) << 24u64 | (s[off + 5] as u64) << 16u64 | (s[off
        + 6] as u64) << 8u64 | (s[off + 7] as u64)
}

/// The eight big-endian bytes of `v`.
pub open spec fn be_bytes(v: u64) -> Seq<u8> {
    seq![
        (v >> 56u64) as u8,
        (v >> 48u64) as u8,
        (v >> 40u64) as u8,
        (v >> 32u64) as u8,
        (v >> 24u64) as u8,
        (v >> 16u64) as u8,
        (v >> 8u64) as u8,
        v as u8,
    ]
}

/// Reads the big-endian `u64` at `off`.
pub fn read_be_u64(b: &[u8], off: usize) -> (r: u64)
    requires
        off + 8 <= b@.len(),
    ensures
        r == be_u64_at(b@, off as int),
{
    (b[off] as u64) << 56u64 | (b[off + 1] as u64) << 48u64 | (b[off + 2] as u64) << 40u64 | (b[off
        + 3] as u64) << 32u64 | (b[off + 4] as u64) << 24u64 | (b[off + 5] as u64) << 16u64 | (b[off
        + 6] as u64) << 8u64 | (b[off + 7] as u64)
}

/// Appends the eight big-endian bytes of `v`.
pub fn put_be_u64(out: &mut Vec<u8>, v: u64)
    ensures
        final(out)@ == old(out)@ + be_bytes(v),
{
    out.push((v >> 56u64) as u8);
    out.push((v >> 48u64) as u8);
    out.push((v >> 40u64) as u8);
    out.push((v >> 32u64) as u8);
    out.push((v >> 24u64) as u8);
    out.push((v >> 16u64) as u8);
    out.push((v >> 8u64) as u8);
    out.push(v as u8);
    assert(final(out)@ =~= old(out)@ + be_bytes(v));
}

/// Reading back the bytes of a value gives the value.
pub proof fn lemma_be_round_trip(v: u64)
    ensures
        be_u64_at(be_bytes(v), 0) == v,
{
    let s = be_bytes(v);
    assert(s[0] == (v >> 56u64) as u8);
    assert(((v >> 56u64) as u8 as u64) << 56u64 | ((v >> 48u64) as u8 as u64) << 48u64 | ((v
        >> 40u64) as u8 as u64) << 40u64 | ((v >> 32u64) as u8 as u64) << 32u64 | ((v >> 24u64) as u8
        as u64) << 24u64 | ((v >> 16u64) as u8 as u64) << 16u64 | ((v >> 8u64) as u8 as u64) << 8u64
        | (v as u8 as u64) == v) by (bit_vector);
}

/// The standby status update for a log position and a client clock: the
/// tag, the position as written, flushed and applied, the clock, and no
/// reply asked.
pub open spec fn standby_update_spec(lsn: u64, now: u64) -> Seq<u8> {
    seq![STANDBY_STATUS_TAG] + be_bytes(lsn) + be_bytes(lsn) + be_bytes(lsn) + be_bytes(now) + seq![0u8]
}

/// Writes the standby status update.
pub fn standby_status_update(lsn: u64, now: u64) -> (r: Vec<u8>)
    ensures
        r@ == standby_update_spec(lsn, now),
        r@.len() == 34,
{
    let mut out: Vec<u8> = Vec::new();
    out.push(STANDBY_STATUS_TAG);
    put_be_u64(&mut out, lsn);
    put_be_u64(&mut out, lsn);
    put_be_u64(&mut out, lsn);
    put_be_u64(&mut out, now);
    out.push(0u8);
    assert(out@ =~= standby_update_spec(lsn, now));
    out
}

/// Relies on `std::str::from_utf8`: it succeeds exactly on valid UTF-8, and
/// the text holds the characters that the bytes encode.
#[verifier::external_body]
fn utf8_text(b: &[u8]) -> (r: Option<String>)
    ensures
        r is Some <==> valid_utf8(b@),
        r is Some ==> r->Some_0@ == decode_utf8(b@),
{
    std::str::from_utf8(b).ok().map(|s| s.to_owned())
}

/// A frame of the replication stream.
#[derive(Debug)]
pub enum Frame {
    /// WAL data: start position, end of WAL, server clock, plugin output.
    XLogData { start: u64, end: u64, timestamp: u64, payload: Vec<u8> },
    /// Keepalive: end of WAL, server clock, whether a reply is asked (1).
    KeepAlive { wal_end: u64, timestamp: u64, reply: u8 },
    /// A frame with another tag.
    Unknown { tag: u8 },
    /// A frame too short for what its tag announces, or empty.
    Truncated,
}

/// What a frame reads as.
pub open spec fn frame_kind(b: Seq<u8>) -> int {
    if b.len() == 0 {
        0
    } else if b[0] == XLOG_DATA_TAG {
        if b.len() >= 25 { 1 } else { 0 }
    } else if b[0] == PRIMARY_KEEPALIVE_TAG {
        if b.len() >= 18 { 2 } else { 0 }
    } else {
        3
    }
}

/// Reads a frame: the tag, then the fields that it announces.
pub fn parse_frame(b: &[u8]) -> (r: Frame)
    ensures
        match r {
            Frame::XLogData { start, end, timestamp, payload } => frame_kind(b@) == 1 && start
                == be_u64_at(b@, 1) && end == be_u64_at(b@, 9) && timestamp == be_u64_at(b@, 17)
                && payload@ == b@.skip(25),
            Frame::KeepAlive { wal_end, timestamp, reply } => frame_kind(b@) == 2 && wal_end
                == be_u64_at(b@, 1) && timestamp == be_u64_at(b@, 9) && reply == b@[17],
            Frame::Unknown { tag } => frame_kind(b@) == 3 && tag == b@[0],
            Frame::Truncated => frame_kind(b@) == 0,
        },
{
    let n = b.len();
    if n == 0 {
        return Frame::Truncated;
    }
    let tag = b[0];
    if tag == XLOG_DATA_TAG {
        if n < 25 {
            return Frame::Truncated;
        }
        let start = read_be_u64(b, 1);
        let end = read_be_u64(b, 9);
        let timestamp = read_be_u64(b, 17);
        let mut payload: Vec<u8> = Vec::new();
        let mut i: usize = 25;
        while i < n
            invariant
                n == b@.len(),
                25 <= i <= n,
                payload@ == b@.subrange(25, i as int),
            decreases n - i,
        {
            payload.push(b[i]);
            assert(b@.subrange(25, i + 1) =~= b@.subrange(25, i as int).push(b@[i as int]));
            i = i + 1;
        }
        assert(b@.subrange(25, n as int) =~= b@.skip(25));
        Frame::XLogData { start, end, timestamp, payload }
    } else if tag == PRIMARY_KEEPALIVE_TAG {
        if n < 18 {
            return Frame::Truncated;
        }
        Frame::KeepAlive { wal_end: read_be_u64(b, 1), timestamp: read_be_u64(b, 9), reply: b[17] }
    } else {
        Frame::Unknown { tag }
    }
}

/// Why the replication client stops.
#[derive(Debug, Clone, Copy, PartialEq, Eq, Structural)]
pub enum FatalReason {
    /// WAL data started before the position already reached.
    LsnDecrease,
    /// More keepalives asked for a reply in a row than allowed.
    KeepaliveOverrun,
}

/// What the client does after a frame.
#[derive(Debug)]
pub enum ReplicationAction {
    /// Hand this payload to the dispatcher.
    Forward(String),
    /// Send this standby status update upstream.
    Reply(Vec<u8>),
    /// Nothing to do: the frame is skipped.
    Skip,
    /// Stop this client; the supervisor restarts the pipeline.
    Fatal(FatalReason),
}

/// The replication state of one connection.
#[derive(Debug, Clone, Copy)]
pub struct ReplicationState {
    /// The log position reached.
    pub last_lsn: u64,
    /// Keepalives that asked for a reply since the last that did not.
    pub consecutive_pending_keepalives: u8,
}

/// The counter is within its bound while the client runs.
pub open spec fn repl_wf(s: ReplicationState) -> bool {
    s.consecutive_pending_keepalives <= MAX_PENDING_KEEPALIVES
}

impl ReplicationState {
    /// The state at the start of a stream, from the slot's consistent point.
    pub fn new(start_lsn: u64) -> (r: ReplicationState)
        ensures
            r.last_lsn == start_lsn,
            r.consecutive_pending_keepalives == 0,
            repl_wf(r),
    {
        ReplicationState { last_lsn: start_lsn, consecutive_pending_keepalives: 0 }
    }

    /// Takes one frame of the stream, with the client clock in microseconds
    /// since 2000-01-01, and says what to do.
    ///
    /// WAL data whose payload is valid UTF-8 and not empty is forwarded, and
    /// the position moves to its start; a start before the position reached
    /// is fatal. A keepalive moves the position to the larger of the two; one
    /// that asks for a reply counts up and is answered, unless the count
    /// passes its bound, which is fatal; one that does not resets the count.
    /// Anything else is skipped.
    pub fn on_frame(&mut self, frame: &[u8], now: u64) -> (r: ReplicationAction)
        requires
            repl_wf(*old(self)),
        ensures
            match r {
                ReplicationAction::Fatal(_) => true,
                _ => repl_wf(*final(self)),
            },
            final(self).last_lsn >= old(self).last_lsn,
            if frame_kind(frame@) == 1 {
                {
                    let start = be_u64_at(frame@, 1);
                    let payload = frame@.skip(25);
                    if start < old(self).last_lsn {
                        r == ReplicationAction::Fatal(FatalReason::LsnDecrease) && *final(self) == *old(self)
                    } else if payload.len() > 0 && valid_utf8(payload) {
                        &&& r is Forward
                        &&& r->Forward_0@ == decode_utf8(payload)
                        &&& final(self).last_lsn == start
                        &&& final(self).consecutive_pending_keepalives == old(self).consecutive_pending_keepalives
                    } else {
                        r is Skip && *final(self) == *old(self)
                    }
                }
            } else if frame_kind(frame@) == 2 {
                {
                    let wal_end = be_u64_at(frame@, 1);
                    let lsn = if wal_end > old(self).last_lsn { wal_end } else { old(self).last_lsn };
                    &&& final(self).last_lsn == lsn
                    &&& if frame@[17] == 1 {
                        &&& final(self).consecutive_pending_keepalives == old(self).consecutive_pending_keepalives + 1
                        &&& if final(self).consecutive_pending_keepalives > MAX_PENDING_KEEPALIVES {
                            r == ReplicationAction::Fatal(FatalReason::KeepaliveOverrun)
                        } else {
                            r is Reply && r->Reply_0@ == standby_update_spec(lsn, now)
                        }
                    } else {
                        final(self).consecutive_pending_keepalives == 0 && r is Skip
                    }
                }
            } else {
                r is Skip && *final(self) == *old(self)
            },
    {
        match parse_frame(frame) {
            Frame::XLogData { start, end, timestamp, payload } => {
                if start < self.last_lsn {
                    return ReplicationAction::Fatal(FatalReason::LsnDecrease);
                }
                if payload.len() == 0 {
                    return ReplicationAction::Skip;
                }
                match utf8_text(payload.as_slice()) {
                    None => ReplicationAction::Skip,
                    Some(text) => {
                        self.last_lsn = start;
                        ReplicationAction::Forward(text)
                    },
                }
            },
            Frame::KeepAlive { wal_end, timestamp, reply } => {
                if wal_end > self.last_lsn {
                    self.last_lsn = wal_end;
                }
                if reply == 1 {
                    self.consecutive_pending_keepalives = self.consecutive_pending_keepalives + 1;
                    if self.consecutive_pending_keepalives > MAX_PENDING_KEEPALIVES {
                        return ReplicationAction::Fatal(FatalReason::KeepaliveOverrun);
                    }
                    ReplicationAction::Reply(standby_status_update(self.last_lsn, now))
                } else {
                    self.consecutive_pending_keepalives = 0;
                    ReplicationAction::Skip
                }
            },
            Frame::Unknown { tag } => ReplicationAction::Skip,
            Frame::Truncated => ReplicationAction::Skip,
        }
    }
}

} // verus!
