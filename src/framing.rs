//! Framing on the streaming side of the link: the synchronizer that recovers
//! frames from an unstructured byte stream, and the envelope that turns a
//! datagram (type byte and payload) into a frame.
use crate::checksum::{calc_crc8, crc8_of};
use crate::crsf::{bytes_view, frame_of, MAX_FRAME_SIZE};
use vstd::prelude::*;
use vstd::slice::{slice_subrange, slice_to_vec};

verus! {

/// What the synchronizer reports for one complete candidate frame.
#[derive(Debug, Clone)]
pub enum SyncEvent {
    /// A frame whose CRC matched: its type byte and payload, without the
    /// address, length and CRC bytes.
    Packet(Vec<u8>),
    /// A frame whose CRC did not match; it was discarded.
    CrcMismatch,
}

/// A synchronizer event as a mathematical value.
pub enum SyncEventView {
    Packet(Seq<u8>),
    CrcMismatch,
}

impl View for SyncEvent {
    type V = SyncEventView;

    open spec fn view(&self) -> SyncEventView {
        match self {
            SyncEvent::Packet(p) => SyncEventView::Packet(p@),
            SyncEvent::CrcMismatch => SyncEventView::CrcMismatch,
        }
    }
}

/// The views of a list of events.
pub open spec fn events_view(events: Seq<SyncEvent>) -> Seq<SyncEventView> {
    events.map_values(|e: SyncEvent| e@)
}

/// What the synchronizer does with the buffered bytes `b`: the bytes it keeps
/// for later, and the events it reports, in order.
///
/// Bytes before the first sync byte are dropped (all of them when there is
/// none). With fewer than two bytes, or fewer than the frame the length byte
/// declares, everything is kept to wait for more data. A length byte that
/// declares a frame of more than 64 bytes, or a frame without room for its
/// CRC (length 0), is corrupt: only the sync byte is dropped and the search
/// goes on. A complete frame is reported (by its type byte and payload when
/// its CRC matches, as a mismatch otherwise), drained, and the rest is
/// scanned.
pub open spec fn scan(sync: u8, b: Seq<u8>) -> (Seq<u8>, Seq<SyncEventView>)
    decreases b.len(),
{
    if b.len() == 0 {
        (b, Seq::empty())
    } else if b[0] != sync {
        scan(sync, b.drop_first())
    } else if b.len() < 2 {
        (b, Seq::empty())
    } else if b[1] == 0 || b[1] as int + 2 > MAX_FRAME_SIZE {
        scan(sync, b.drop_first())
    } else if b.len() < b[1] as int + 2 {
        (b, Seq::empty())
    } else {
        let total = b[1] as int + 2;
        let payload = b.subrange(2, total - 1);
        let event = if crc8_of(payload) == b[total - 1] {
            SyncEventView::Packet(payload)
        } else {
            SyncEventView::CrcMismatch
        };
        let rest = scan(sync, b.subrange(total, b.len() as int));
        (rest.0, seq![event] + rest.1)
    }
}

/// Scanning is incremental: scanning `x` and then what it kept followed by
/// `y` reports the same events, and keeps the same bytes, as scanning `x`
/// and `y` read at once. A frame may thus be split across any number of
/// reads.
pub proof fn lemma_scan_incremental(sync: u8, x: Seq<u8>, y: Seq<u8>)
    ensures
        scan(sync, x + y) == (
            scan(sync, scan(sync, x).0 + y).0,
            scan(sync, x).1 + scan(sync, scan(sync, x).0 + y).1,
        ),
    decreases x.len(),
{
    let xy = x + y;
    if x.len() == 0 {
        assert(xy =~= y);
        assert(scan(sync, x).1 + scan(sync, y).1 =~= scan(sync, y).1);
    } else if x[0] != sync {
        assert(xy.drop_first() =~= x.drop_first() + y);
        lemma_scan_incremental(sync, x.drop_first(), y);
    } else if x.len() < 2 {
        assert(scan(sync, x).1 + scan(sync, xy).1 =~= scan(sync, xy).1);
    } else if x[1] == 0 || x[1] as int + 2 > MAX_FRAME_SIZE {
        assert(xy.drop_first() =~= x.drop_first() + y);
        lemma_scan_incremental(sync, x.drop_first(), y);
    } else if x.len() < x[1] as int + 2 {
        assert(scan(sync, x).1 + scan(sync, xy).1 =~= scan(sync, xy).1);
    } else {
        let total = x[1] as int + 2;
        let rest = x.subrange(total, x.len() as int);
        assert(xy.subrange(2, total - 1) =~= x.subrange(2, total - 1));
        assert(xy.subrange(total, xy.len() as int) =~= rest + y);
        lemma_scan_incremental(sync, rest, y);
        let tail = scan(sync, scan(sync, rest).0 + y).1;
        let head = scan(sync, x).1;
        assert(head =~= seq![head[0]] + scan(sync, rest).1);
        assert(seq![head[0]] + (scan(sync, rest).1 + tail) =~= head + tail);
    }
}

/// A frame built around a payload that fits, read by a synchronizer whose
/// sync byte is the frame's address, gives back exactly that payload and
/// leaves nothing behind.
pub proof fn lemma_framed_payload_recovered(address: u8, payload: Seq<u8>)
    requires
        payload.len() + 3 <= MAX_FRAME_SIZE,
    ensures
        frame_of(address, payload) is Some,
        scan(address, frame_of(address, payload).unwrap()) == (
            Seq::<u8>::empty(),
            seq![SyncEventView::Packet(payload)],
        ),
{
    let f = frame_of(address, payload).unwrap();
    let total = f[1] as int + 2;
    assert(total == f.len());
    assert(f[0] == address && f[1] != 0 && total <= MAX_FRAME_SIZE);
    assert(f[total - 1] == crc8_of(payload));
    assert(f.subrange(2, total - 1) =~= payload);
    let empty = Seq::<u8>::empty();
    assert(scan(address, empty) == (empty, Seq::<SyncEventView>::empty()));
    assert(f.subrange(total, f.len() as int) =~= Seq::<u8>::empty());
    assert(seq![SyncEventView::Packet(payload)] + Seq::<SyncEventView>::empty() =~= seq![
        SyncEventView::Packet(payload),
    ]);
}

/// The frame synchronizer of one link: the sync byte it looks for and the
/// bytes received but not yet consumed.
pub struct FrameSync {
    sync: u8,
    buf: Vec<u8>,
}

impl FrameSync {
    /// The sync (address) byte that starts each frame.
    pub closed spec fn sync_byte(&self) -> u8 {
        self.sync
    }

    /// The bytes kept for the next chunk.
    pub closed spec fn pending(&self) -> Seq<u8> {
        self.buf@
    }

    /// A synchronizer looking for frames that start with `sync`.
    pub fn new(sync: u8) -> (r: FrameSync)
        ensures
            r.sync_byte() == sync,
            r.pending() == Seq::<u8>::empty(),
    {
        FrameSync { sync, buf: Vec::new() }
    }

    /// The bytes kept for the next chunk.
    pub fn buffered(&self) -> (r: &[u8])
        ensures
            r@ == self.pending(),
    {
        self.buf.as_slice()
    }

    /// Appends a chunk read from the link and reports every complete frame
    /// that the buffered bytes now hold.
    pub fn push(&mut self, chunk: &[u8]) -> (events: Vec<SyncEvent>)
        ensures
            final(self).sync_byte() == old(self).sync_byte(),
            (final(self).pending(), events_view(events@)) == scan(
                old(self).sync_byte(),
                old(self).pending() + chunk@,
            ),
    {
        let mut i: usize = 0;
        while i < chunk.len()
            invariant
                i <= chunk@.len(),
                self.sync == old(self).sync,
                self.buf@ == old(self).buf@ + chunk@.take(i as int),
            decreases chunk@.len() - i,
        {
            self.buf.push(chunk[i]);
            i = i + 1;
            assert(self.buf@ =~= old(self).buf@ + chunk@.take(i as int));
        }
        assert(chunk@.take(i as int) =~= chunk@);
        let sync = self.sync;
        let ghost all = self.buf@;
        let len = self.buf.len();
        let mut events: Vec<SyncEvent> = Vec::new();
        let mut pos: usize = 0;
        assert(all.subrange(0, len as int) =~= all);
        loop
            invariant
                self.buf@ == all,
                len == all.len(),
                self.sync == sync,
                sync == old(self).sync,
                pos <= len,
                scan(sync, all).0 == scan(sync, all.subrange(pos as int, len as int)).0,
                scan(sync, all).1 == events_view(events@) + scan(
                    sync,
                    all.subrange(pos as int, len as int),
                ).1,
            ensures
                pos <= len,
                scan(sync, all).0 == all.subrange(pos as int, len as int),
                scan(sync, all).1 == events_view(events@),
            decreases len - pos,
        {
            let ghost rest = all.subrange(pos as int, len as int);
            if pos == len {
                assert(events_view(events@) + Seq::<SyncEventView>::empty() =~= events_view(
                    events@,
                ));
                break ;
            }
            if self.buf[pos] != sync {
                assert(rest.drop_first() =~= all.subrange(pos as int + 1, len as int));
                pos = pos + 1;
                continue ;
            }
            if len - pos < 2 {
                assert(events_view(events@) + Seq::<SyncEventView>::empty() =~= events_view(
                    events@,
                ));
                break ;
            }
            let total = self.buf[pos + 1] as usize + 2;
            if total > MAX_FRAME_SIZE || total < 3 {
                assert(rest.drop_first() =~= all.subrange(pos as int + 1, len as int));
                pos = pos + 1;
                continue ;
            }
            if len - pos < total {
                assert(events_view(events@) + Seq::<SyncEventView>::empty() =~= events_view(
                    events@,
                ));
                break ;
            }
            let body = slice_subrange(self.buf.as_slice(), pos + 2, pos + total - 1);
            assert(body@ =~= rest.subrange(2, total - 1));
            let ghost old_events = events@;
            if calc_crc8(body) == self.buf[pos + total - 1] {
                events.push(SyncEvent::Packet(slice_to_vec(body)));
            } else {
                events.push(SyncEvent::CrcMismatch);
            }
            assert(events_view(events@) =~= events_view(old_events) + seq![
                events@[events@.len() - 1]@,
            ]);
            assert(rest.subrange(total as int, rest.len() as int) =~= all.subrange(
                pos + total,
                len as int,
            ));
            pos = pos + total;
        }
        self.buf = slice_to_vec(slice_subrange(self.buf.as_slice(), pos, len));
        events
    }
}

/// Frames a datagram (type byte and payload) for the streaming side:
/// address, length, the bytes, and their CRC; `None` if the frame would
/// exceed 64 bytes.
pub fn wrap_payload(address: u8, payload: &[u8]) -> (r: Option<Vec<u8>>)
    ensures
        bytes_view(r) == frame_of(address, payload@),
{
    if payload.len() > MAX_FRAME_SIZE - 3 {
        return None;
    }
    let mut frame: Vec<u8> = Vec::with_capacity(payload.len() + 3);
    frame.push(address);
    frame.push((payload.len() + 1) as u8);
    let mut i: usize = 0;
    while i < payload.len()
        invariant
            i <= payload@.len(),
            payload@.len() + 3 <= MAX_FRAME_SIZE,
            frame@ == seq![address, (payload@.len() + 1) as u8] + payload@.take(i as int),
        decreases payload@.len() - i,
    {
        frame.push(payload[i]);
        i = i + 1;
        assert(frame@ =~= seq![address, (payload@.len() + 1) as u8] + payload@.take(i as int));
    }
    assert(payload@.take(i as int) =~= payload@);
    frame.push(calc_crc8(payload));
    Some(frame)
}

} // verus!
