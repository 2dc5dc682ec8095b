//! The driver as a value: what it holds, and what a call makes of it.
//!
//! The driver's functions are stated over `DriverView`. What the receiver
//! sends is not the driver's to decide, so each call is described for the
//! bytes that its fill happened to bring.

use crate::frame::checksum;
use crate::frame::covered;
use crate::frame::decode;
use crate::frame::fits;
use crate::frame::frame;
use crate::frame::frame_with;
use crate::frame::is_known;
use crate::frame::lemma_damaged_frame;
use crate::frame::lemma_scan_corrupt_frame;
use crate::frame::lemma_scan_frame;
use crate::frame::lemma_scan_frame_with;
use crate::frame::lemma_sync_end_bounds;
use crate::frame::scan;
use crate::frame::scan_body;
use crate::frame::sync_end;
use crate::frame::Scan;
use crate::frame::UbxMessage;
use crate::messages::lemma_mon_hw_round_trip;
use crate::messages::lemma_nav_dop_round_trip;
use crate::messages::lemma_nav_pvt_round_trip;
use crate::messages::mon_hw_encode;
use crate::messages::nav_dop_encode;
use crate::messages::nav_pvt_encode;
use crate::messages::MonHardwareM8;
use crate::messages::NavDopM8;
use crate::messages::NavPosVelTimeM8;
use crate::messages::UBX_MIN_MSG_LEN;
use vstd::prelude::*;

verus! {

/// What a driver holds, as far as its behaviour depends on it.
pub struct DriverView {
    /// The bytes that the interface has buffered, oldest first.
    pub buffered: Seq<u8>,
    /// Whether the interface never fails a read that it holds the bytes for.
    pub fault_free: bool,
    /// The UBX-NAV-PVT slot.
    pub last_nav_pvt: Option<NavPosVelTimeM8>,
    /// The UBX-MON-HW slot.
    pub last_mon_hw: Option<MonHardwareM8>,
    /// The UBX-NAV-DOP slot.
    pub last_nav_dop: Option<NavDopM8>,
}

impl DriverView {
    /// A driver with all three slots empty.
    pub open spec fn idle(buffered: Seq<u8>, fault_free: bool) -> DriverView {
        DriverView {
            buffered,
            fault_free,
            last_nav_pvt: None,
            last_mon_hw: None,
            last_nav_dop: None,
        }
    }

    /// Whether the three slots hold the same in both.
    pub open spec fn same_slots(self, other: DriverView) -> bool {
        &&& self.last_nav_pvt == other.last_nav_pvt
        &&& self.last_mon_hw == other.last_mon_hw
        &&& self.last_nav_dop == other.last_nav_dop
    }

    /// The same driver with other bytes buffered.
    pub open spec fn with_buffered(self, buffered: Seq<u8>) -> DriverView {
        DriverView { buffered, ..self }
    }

    /// The driver once `message` went into its slot, in place of what the
    /// slot held. No message leaves every slot as it was.
    pub open spec fn store(self, message: Option<UbxMessage>) -> DriverView {
        match message {
            None => self,
            Some(UbxMessage::NavPvt(m)) => DriverView { last_nav_pvt: Some(m), ..self },
            Some(UbxMessage::MonHw(m)) => DriverView { last_mon_hw: Some(m), ..self },
            Some(UbxMessage::NavDop(m)) => DriverView { last_nav_dop: Some(m), ..self },
        }
    }

    /// What taking the UBX-NAV-PVT slot hands out, and the driver it leaves.
    pub open spec fn take_nav_pvt(self) -> (Option<NavPosVelTimeM8>, DriverView) {
        (self.last_nav_pvt, DriverView { last_nav_pvt: None, ..self })
    }

    /// What taking the UBX-NAV-DOP slot hands out, and the driver it leaves.
    pub open spec fn take_nav_dop(self) -> (Option<NavDopM8>, DriverView) {
        (self.last_nav_dop, DriverView { last_nav_dop: None, ..self })
    }

    /// What taking the UBX-MON-HW slot hands out, and the driver it leaves.
    pub open spec fn take_mon_hw(self) -> (Option<MonHardwareM8>, DriverView) {
        (self.last_mon_hw, DriverView { last_mon_hw: None, ..self })
    }

    /// The driver once its buffered bytes were scanned with the outcome
    /// `found`.
    pub open spec fn scanned(self, found: Scan) -> DriverView {
        self.store(found.message).with_buffered(self.buffered.skip(found.consumed))
    }

    /// The driver once a fill brought the bytes `incoming`.
    pub open spec fn filled(self, incoming: Seq<u8>) -> DriverView {
        self.with_buffered(self.buffered + incoming)
    }

    /// The driver after one call of `handle_one_message` whose fill brought
    /// `incoming` and whose reads all went through.
    pub open spec fn polled(self, incoming: Seq<u8>) -> DriverView {
        self.filled(incoming).scanned(poll(self.buffered + incoming))
    }

    /// How many frames that call handled: 0 or 1.
    pub open spec fn handled(self, incoming: Seq<u8>) -> int {
        poll(self.buffered + incoming).handled
    }

    /// The driver after as many such calls in a row as `chunks` is long,
    /// the fill of each bringing the chunk of its turn.
    pub open spec fn drained(self, chunks: Seq<Seq<u8>>) -> DriverView
        decreases chunks.len(),
    {
        if chunks.len() == 0 {
            self
        } else {
            self.drained(chunks.drop_last()).polled(chunks.last())
        }
    }

    /// Whether each of those calls handled a frame.
    pub open spec fn all_handled(self, chunks: Seq<Seq<u8>>) -> bool
        decreases chunks.len(),
    {
        chunks.len() == 0 || {
            &&& self.all_handled(chunks.drop_last())
            &&& self.drained(chunks.drop_last()).handled(chunks.last()) == 1
        }
    }
}

/// What the driver makes of the bytes `s` that are buffered after a fill: it
/// leaves fewer bytes than the shortest frame alone, and scans anything
/// longer.
pub open spec fn poll(s: Seq<u8>) -> Scan {
    if s.len() < UBX_MIN_MSG_LEN {
        Scan { consumed: 0, handled: 0, message: None }
    } else {
        scan(s)
    }
}

/// Whether `after` is `before` without some number of leading bytes, `most`
/// at most.
pub open spec fn dropped_at_most(before: Seq<u8>, after: Seq<u8>, most: int) -> bool {
    exists|k: int| 0 <= k <= most && k <= before.len() && #[trigger] before.skip(k) == after
}

/// Bytes dropped after `a` bytes were skipped are dropped from the whole.
pub proof fn lemma_dropped_after_skip(s: Seq<u8>, a: int, after: Seq<u8>, most: int)
    requires
        0 <= a <= s.len(),
        dropped_at_most(s.skip(a), after, most),
    ensures
        dropped_at_most(s, after, a + most),
{
    let k = choose|k: int|
        0 <= k <= most && k <= s.skip(a).len() && #[trigger] s.skip(a).skip(k) == after;
    assert(s.skip(a + k) =~= s.skip(a).skip(k));
}

/// Whether the result `r` and the state `post` are what comes of a driver in
/// state `pre` whose buffered bytes scan as `found`.
///
/// A count is that of the scan, and goes with the scanned state. An error is
/// one that the interface reported on a read: only an interface that is not
/// fault free gives one, and only where the scan has something to read; the
/// slots are then as they were, and what was read before the error is gone
/// from the buffer, but nothing that the scan would have left.
pub open spec fn follows<E>(pre: DriverView, found: Scan, post: DriverView, r: Result<usize, E>) -> bool {
    &&& post.fault_free == pre.fault_free
    &&& match r {
        Ok(count) => count == found.handled && post == pre.scanned(found),
        Err(_) => {
            &&& !pre.fault_free
            &&& found.consumed > 0
            &&& post.same_slots(pre)
            &&& dropped_at_most(pre.buffered, post.buffered, found.consumed)
        },
    }
}

/// Whether the result `r` and the state `post` are what one call of
/// `handle_one_message` makes of a driver in state `pre`, where the fill of
/// that call brings `incoming`: what follows from polling the bytes that are
/// then buffered.
pub open spec fn one_handled<E>(
    pre: DriverView,
    incoming: Seq<u8>,
    post: DriverView,
    r: Result<usize, E>,
) -> bool {
    follows(pre.filled(incoming), poll(pre.buffered + incoming), post, r)
}

/// Whether the result `r` and the state `post` are what comes of draining a
/// driver in state `pre`, where the fills of the calls that handled a frame
/// brought `chunks`, one each, and the fill of the call that ended the run
/// brought `last`.
///
/// A count is the number of calls that handled a frame. The run has then
/// ended on a call that handled none, or, without such a call, on a count
/// that no `usize` can exceed. An error is that of the call that ended the
/// run, and what `one_handled` says of that call holds.
pub open spec fn drain_ends<E>(
    pre: DriverView,
    chunks: Seq<Seq<u8>>,
    last: Seq<u8>,
    post: DriverView,
    r: Result<usize, E>,
) -> bool {
    let mid = pre.drained(chunks);
    &&& pre.all_handled(chunks)
    &&& match r {
        Ok(count) => {
            &&& count == chunks.len()
            &&& if count == usize::MAX {
                post == mid
            } else {
                mid.handled(last) == 0 && post == mid.polled(last)
            }
        },
        Err(_) => one_handled(mid, last, post, r),
    }
}


/// What holds of the bytes behind a header holds of the whole scan: where
/// the scan of `pre` found a sync pair ending at `start` and a header behind
/// it, and `r` and `post` are what comes of scanning the rest, which `mid`
/// holds, then `r` and `post` are what comes of the scan of `pre`.
pub proof fn lemma_follows_behind_header<E>(
    pre: DriverView,
    mid: DriverView,
    post: DriverView,
    start: int,
    r: Result<usize, E>,
)
    requires
        sync_end(pre.buffered, 0) == Some(start),
        pre.buffered.len() - start >= 4,
        mid == pre.with_buffered(pre.buffered.skip(start + 4)),
        follows(
            mid,
            scan_body(pre.buffered.subrange(start, start + 4), pre.buffered.skip(start + 4)),
            post,
            r,
        ),
    ensures
        follows(pre, scan(pre.buffered), post, r),
{
    let s = pre.buffered;
    let body = scan_body(s.subrange(start, start + 4), s.skip(start + 4));
    lemma_sync_end_bounds(s, 0);
    match r {
        Ok(_) => {
            assert(s.skip(start + 4).skip(body.consumed) == s.skip(start + 4 + body.consumed));
        },
        Err(_) => {
            lemma_dropped_after_skip(s, start + 4, post.buffered, body.consumed);
        },
    }
}

/// A call whose fill leaves a frame at the front of the buffer handles that
/// frame: the message goes into its slot if the frame is of a known kind,
/// the slots stay as they were if it is not, and what follows the frame
/// stays buffered.
pub proof fn lemma_poll_frame(
    pre: DriverView,
    incoming: Seq<u8>,
    class: u8,
    id: u8,
    payload: Seq<u8>,
    rest: Seq<u8>,
)
    requires
        fits(class, id, payload),
        pre.buffered + incoming == frame(class, id, payload) + rest,
    ensures
        pre.handled(incoming) == 1,
        pre.polled(incoming) == pre.store(decode(class, id, payload)).with_buffered(rest),
{
    let s = frame(class, id, payload) + rest;
    lemma_scan_frame(class, id, payload, rest);
    assert(s.skip(payload.len() as int + 8) == rest);
}

/// A UBX-NAV-PVT record that reaches the driver in a frame with the right
/// checksum is in its slot afterwards, bit for bit.
pub proof fn lemma_nav_pvt_received(
    pre: DriverView,
    incoming: Seq<u8>,
    m: NavPosVelTimeM8,
    rest: Seq<u8>,
)
    requires
        pre.buffered + incoming == frame(0x01, 0x07, nav_pvt_encode(m)) + rest,
    ensures
        pre.handled(incoming) == 1,
        pre.polled(incoming) == (DriverView { last_nav_pvt: Some(m), buffered: rest, ..pre }),
{
    lemma_nav_pvt_round_trip(m);
    lemma_poll_frame(pre, incoming, 0x01, 0x07, nav_pvt_encode(m), rest);
}

/// A UBX-NAV-DOP record that reaches the driver in a frame with the right
/// checksum is in its slot afterwards, bit for bit.
pub proof fn lemma_nav_dop_received(
    pre: DriverView,
    incoming: Seq<u8>,
    m: NavDopM8,
    rest: Seq<u8>,
)
    requires
        pre.buffered + incoming == frame(0x01, 0x04, nav_dop_encode(m)) + rest,
    ensures
        pre.handled(incoming) == 1,
        pre.polled(incoming) == (DriverView { last_nav_dop: Some(m), buffered: rest, ..pre }),
{
    lemma_nav_dop_round_trip(m);
    lemma_poll_frame(pre, incoming, 0x01, 0x04, nav_dop_encode(m), rest);
}

/// A UBX-MON-HW record that reaches the driver in a frame with the right
/// checksum is in its slot afterwards, bit for bit.
pub proof fn lemma_mon_hw_received(
    pre: DriverView,
    incoming: Seq<u8>,
    m: MonHardwareM8,
    rest: Seq<u8>,
)
    requires
        pre.buffered + incoming == frame(0x0A, 0x09, mon_hw_encode(m)) + rest,
    ensures
        pre.handled(incoming) == 1,
        pre.polled(incoming) == (DriverView { last_mon_hw: Some(m), buffered: rest, ..pre }),
{
    lemma_mon_hw_round_trip(m);
    lemma_poll_frame(pre, incoming, 0x0A, 0x09, mon_hw_encode(m), rest);
}

/// A frame of a known kind that reaches the driver with one payload byte
/// changed is handled, and leaves every slot as it was.
pub proof fn lemma_corrupt_frame_dropped(
    pre: DriverView,
    incoming: Seq<u8>,
    class: u8,
    id: u8,
    payload: Seq<u8>,
    rest: Seq<u8>,
    i: int,
    b: u8,
)
    requires
        is_known(class, id),
        fits(class, id, payload),
        0 <= i < payload.len(),
        b != payload[i],
        pre.buffered + incoming == frame(class, id, payload).update(6 + i, b) + rest,
    ensures
        pre.handled(incoming) == 1,
        pre.polled(incoming) == pre.with_buffered(rest),
{
    let s = frame(class, id, payload).update(6 + i, b) + rest;
    lemma_scan_corrupt_frame(class, id, payload, rest, i, b);
    assert(s.skip(payload.len() as int + 8) == rest);
}

/// A frame as it arrives: class, id and payload, and the two bytes that
/// close it, which may or may not be its checksum.
pub struct SentFrame {
    /// The message class.
    pub class: u8,
    /// The message id.
    pub id: u8,
    /// The payload.
    pub payload: Seq<u8>,
    /// The two closing bytes.
    pub ck: (u8, u8),
}

impl SentFrame {
    /// The frame that carries `payload` with its own checksum.
    pub open spec fn intact(class: u8, id: u8, payload: Seq<u8>) -> SentFrame {
        SentFrame { class, id, payload, ck: checksum(covered(class, id, payload)) }
    }

    /// That frame as it arrives where payload byte `i` was changed to `b` on
    /// the way.
    pub open spec fn damaged(class: u8, id: u8, payload: Seq<u8>, i: int, b: u8) -> SentFrame {
        SentFrame {
            class,
            id,
            payload: payload.update(i, b),
            ck: checksum(covered(class, id, payload)),
        }
    }

    /// Whether the scanner reads the frame as one: the payload fits the
    /// length field, and has the length of its kind where the kind is known.
    pub open spec fn valid(self) -> bool {
        fits(self.class, self.id, self.payload)
    }

    /// The bytes that arrive.
    pub open spec fn bytes(self) -> Seq<u8> {
        frame_with(self.class, self.id, self.payload, self.ck)
    }

    /// The message that the driver keeps of the frame, if any: that of a
    /// frame of a known kind whose closing bytes are its checksum.
    pub open spec fn message(self) -> Option<UbxMessage> {
        if checksum(covered(self.class, self.id, self.payload)) == self.ck {
            decode(self.class, self.id, self.payload)
        } else {
            None
        }
    }
}

/// A frame that arrives with one payload byte changed is a frame that
/// yields no message.
pub proof fn lemma_damaged_is_dropped(class: u8, id: u8, payload: Seq<u8>, i: int, b: u8)
    requires
        fits(class, id, payload),
        0 <= i < payload.len(),
        b != payload[i],
    ensures
        SentFrame::damaged(class, id, payload, i, b).valid(),
        SentFrame::damaged(class, id, payload, i, b).bytes() == frame(class, id, payload).update(
            6 + i,
            b,
        ),
        SentFrame::damaged(class, id, payload, i, b).message() is None,
{
    lemma_damaged_frame(class, id, payload, i, b);
}

/// The bytes of frames that arrive back to back.
pub open spec fn stream(frames: Seq<SentFrame>) -> Seq<u8>
    decreases frames.len(),
{
    if frames.len() == 0 {
        Seq::empty()
    } else {
        frames[0].bytes() + stream(frames.skip(1))
    }
}

/// `count` fills in a row that bring nothing.
pub open spec fn quiet(count: nat) -> Seq<Seq<u8>> {
    Seq::new(count, |i: int| Seq::<u8>::empty())
}

/// Whether the fills of a run of calls brought `first` to the first call and
/// nothing to any call after it.
pub open spec fn quiet_after(first: Seq<u8>, run: Seq<Seq<u8>>) -> bool {
    &&& run.len() > 0
    &&& run[0] == first
    &&& forall|i: int| 1 <= i < run.len() ==> (#[trigger] run[i]).len() == 0
}

impl DriverView {
    /// The driver once the messages of `frames` went into their slots, one
    /// after the other.
    pub open spec fn stored_all(self, frames: Seq<SentFrame>) -> DriverView
        decreases frames.len(),
    {
        if frames.len() == 0 {
            self
        } else {
            self.store(frames[0].message()).stored_all(frames.skip(1))
        }
    }
}

/// A call whose fill leaves a frame at the front of the buffer handles it,
/// keeps its message if it has one, and leaves what follows buffered.
pub proof fn lemma_poll_sent(pre: DriverView, incoming: Seq<u8>, sent: SentFrame, rest: Seq<u8>)
    requires
        sent.valid(),
        pre.buffered + incoming == sent.bytes() + rest,
    ensures
        pre.handled(incoming) == 1,
        pre.polled(incoming) == pre.store(sent.message()).with_buffered(rest),
{
    let s = sent.bytes() + rest;
    lemma_scan_frame_with(sent.class, sent.id, sent.payload, sent.ck, rest);
    assert(s.skip(sent.payload.len() as int + 8) == rest);
}

/// Whether an interface is fault free does not change over a run of calls.
pub proof fn lemma_drained_keeps_fault_free(pre: DriverView, chunks: Seq<Seq<u8>>)
    ensures
        pre.drained(chunks).fault_free == pre.fault_free,
    decreases chunks.len(),
{
    if chunks.len() > 0 {
        lemma_drained_keeps_fault_free(pre, chunks.drop_last());
    }
}

/// A run of calls is its first call and the run of the others.
proof fn lemma_drained_from_front(pre: DriverView, first: Seq<u8>, others: Seq<Seq<u8>>)
    ensures
        pre.drained(seq![first] + others) == pre.polled(first).drained(others),
        pre.all_handled(seq![first] + others) == (pre.handled(first) == 1 && pre.polled(
            first,
        ).all_handled(others)),
    decreases others.len(),
{
    let chunks = seq![first] + others;
    if others.len() == 0 {
        assert(pre.all_handled(chunks.drop_last()));
    } else {
        assert(chunks.drop_last() == seq![first] + others.drop_last());
        lemma_drained_from_front(pre, first, others.drop_last());
    }
}

/// Where every call of a run handled a frame, so did every call of each
/// shorter run that it begins with.
proof fn lemma_all_handled_before(pre: DriverView, chunks: Seq<Seq<u8>>, j: int)
    requires
        pre.all_handled(chunks),
        0 <= j < chunks.len(),
    ensures
        pre.all_handled(chunks.take(j)),
        pre.drained(chunks.take(j)).handled(chunks[j]) == 1,
    decreases chunks.len(),
{
    if j == chunks.len() - 1 {
        assert(chunks.take(j) == chunks.drop_last());
    } else {
        assert(chunks.drop_last().take(j) == chunks.take(j));
        lemma_all_handled_before(pre, chunks.drop_last(), j);
    }
}

/// What is buffered has no part in what the slots come to hold.
proof fn lemma_stored_all_with_buffered(pre: DriverView, frames: Seq<SentFrame>, b: Seq<u8>)
    ensures
        pre.with_buffered(b).stored_all(frames) == pre.stored_all(frames).with_buffered(b),
    decreases frames.len(),
{
    if frames.len() > 0 {
        let m = frames[0].message();
        lemma_stored_all_with_buffered(pre.store(m), frames.skip(1), b);
    }
}

/// A driver that has exactly the frames `frames` buffered, and to which
/// nothing more comes, handles one of them with each call: after `j` calls
/// the first `j` messages are in their slots and the other frames are still
/// buffered; the call after that handles the next frame, if there is one,
/// and finds nothing and changes nothing if there is none.
pub proof fn lemma_drain_buffered(pre: DriverView, frames: Seq<SentFrame>, j: nat)
    requires
        forall|i: int| 0 <= i < frames.len() ==> (#[trigger] frames[i]).valid(),
        pre.buffered == stream(frames),
        j <= frames.len(),
    ensures
        ({
            let none = Seq::<u8>::empty();
            let mid = pre.drained(quiet(j));
            &&& pre.all_handled(quiet(j))
            &&& mid == pre.stored_all(frames.take(j as int)).with_buffered(
                stream(frames.skip(j as int)),
            )
            &&& mid.handled(none) == if j < frames.len() {
                1int
            } else {
                0int
            }
            &&& j == frames.len() ==> mid == pre.stored_all(frames).with_buffered(none)
                && mid.polled(none) == mid
        }),
    decreases j,
{
    let none = Seq::<u8>::empty();
    if j == 0 {
        assert(quiet(0) == Seq::<Seq<u8>>::empty());
        assert(frames.take(0) == Seq::<SentFrame>::empty());
        assert(frames.skip(0) == frames);
        assert(pre.with_buffered(pre.buffered) == pre);
        assert(pre.buffered + none == pre.buffered);
        if frames.len() > 0 {
            lemma_poll_sent(pre, none, frames[0], stream(frames.skip(1)));
        } else {
            assert(none.skip(0) == none);
        }
    } else {
        let others = frames.skip(1);
        let rest = stream(others);
        let before = (j - 1) as nat;
        assert(quiet(j) == seq![none] + quiet(before));
        assert(pre.buffered + none == frames[0].bytes() + rest);
        lemma_poll_sent(pre, none, frames[0], rest);
        lemma_drained_from_front(pre, none, quiet(before));
        let next = pre.store(frames[0].message()).with_buffered(rest);
        assert forall|i: int| 0 <= i < others.len() implies (#[trigger] others[i]).valid() by {
            assert(others[i] == frames[i + 1]);
        }
        lemma_drain_buffered(next, others, before);
        lemma_stored_all_with_buffered(
            pre.store(frames[0].message()),
            others.take(before as int),
            rest,
        );
        lemma_stored_all_with_buffered(pre.store(frames[0].message()), others, rest);
        assert(frames.take(j as int)[0] == frames[0]);
        assert(frames.take(j as int).skip(1) == others.take(before as int));
        assert(others.skip(before as int) == frames.skip(j as int));
    }
}

/// What a call makes of a fill that brings bytes is what it makes of those
/// bytes being buffered already and the fill bringing nothing.
proof fn lemma_first_fill(pre: DriverView, first: Seq<u8>, others: Seq<Seq<u8>>)
    ensures
        pre.handled(first) == pre.filled(first).handled(Seq::empty()),
        pre.polled(first) == pre.filled(first).polled(Seq::empty()),
        pre.drained(seq![first] + others) == pre.filled(first).drained(
            seq![Seq::<u8>::empty()] + others,
        ),
        pre.all_handled(seq![first] + others) == pre.filled(first).all_handled(
            seq![Seq::<u8>::empty()] + others,
        ),
{
    let none = Seq::<u8>::empty();
    let full = pre.filled(first);
    assert(full.buffered + none == pre.buffered + first);
    assert(full.filled(none) == full);
    lemma_drained_from_front(pre, first, others);
    lemma_drained_from_front(full, none, others);
}

/// Draining handles every frame that arrives: where one fill brings frames
/// back to back behind nothing, and no fill after it brings anything, a
/// drain makes as many calls that handle a frame as there are frames, and
/// then one that finds nothing. The slots then hold the last message of
/// each kind that came in a frame with the right checksum, a slot of which
/// none came holds what it held, and nothing is left buffered.
pub proof fn lemma_drain_stream(pre: DriverView, incoming: Seq<u8>, frames: Seq<SentFrame>)
    requires
        frames.len() > 0,
        forall|i: int| 0 <= i < frames.len() ==> (#[trigger] frames[i]).valid(),
        pre.buffered + incoming == stream(frames),
    ensures
        ({
            let chunks = seq![incoming] + quiet((frames.len() - 1) as nat);
            let after = pre.stored_all(frames).with_buffered(Seq::empty());
            &&& chunks.len() == frames.len()
            &&& pre.all_handled(chunks)
            &&& pre.drained(chunks) == after
            &&& after.handled(Seq::empty()) == 0
            &&& after.polled(Seq::empty()) == after
        }),
{
    let none = Seq::<u8>::empty();
    let others = quiet((frames.len() - 1) as nat);
    lemma_first_fill(pre, incoming, others);
    assert(seq![none] + others == quiet(frames.len()));
    lemma_drain_buffered(pre.filled(incoming), frames, frames.len());
    lemma_stored_all_with_buffered(pre, frames, pre.buffered + incoming);
}

/// The count and the state that a drain ends with are settled by what came
/// in. Where the first fill of a drain leaves the frames `frames` buffered
/// back to back, and no fill after it brings anything, then however many
/// calls the drain made, a count that it returns is the number of frames,
/// and it leaves the driver with their messages stored and nothing
/// buffered. On a fault-free interface it does return a count.
pub proof fn lemma_drain_stream_counts<E>(
    pre: DriverView,
    first: Seq<u8>,
    frames: Seq<SentFrame>,
    chunks: Seq<Seq<u8>>,
    last: Seq<u8>,
    post: DriverView,
    r: Result<usize, E>,
)
    requires
        frames.len() < usize::MAX,
        forall|i: int| 0 <= i < frames.len() ==> (#[trigger] frames[i]).valid(),
        pre.buffered + first == stream(frames),
        quiet_after(first, chunks.push(last)),
        drain_ends(pre, chunks, last, post, r),
    ensures
        pre.fault_free ==> r is Ok,
        r matches Ok(count) ==> count == frames.len() && post == pre.stored_all(
            frames,
        ).with_buffered(Seq::empty()),
{
    let none = Seq::<u8>::empty();
    let run = chunks.push(last);
    let full = pre.filled(first);
    let k = frames.len();
    let m = chunks.len();
    lemma_drained_keeps_fault_free(pre, chunks);
    lemma_stored_all_with_buffered(pre, frames, pre.buffered + first);
    if m == 0 {
        assert(last == run[0]);
        lemma_first_fill(pre, first, Seq::<Seq<u8>>::empty());
        lemma_drain_buffered(full, frames, 0);
        assert(quiet(0) == Seq::<Seq<u8>>::empty());
    } else {
        let others = quiet((m - 1) as nat);
        assert(chunks[0] == run[0]);
        assert forall|i: int| 1 <= i < m implies chunks[i] == none by {
            assert(chunks[i] == run[i]);
            assert(run[i].len() == 0);
            assert(chunks[i] =~= none);
        }
        assert(chunks == seq![first] + others);
        assert(seq![none] + others == quiet(m));
        lemma_first_fill(pre, first, others);
        assert(last == run[m as int]);
        assert(last =~= none);
        if m > k {
            lemma_all_handled_before(full, quiet(m), k as int);
            assert(quiet(m).take(k as int) == quiet(k));
            lemma_drain_buffered(full, frames, k);
        } else {
            lemma_drain_buffered(full, frames, m);
        }
    }
}

/// A message that went into a slot is handed out by the next take of that
/// slot, and by no take after it until another message comes.
pub proof fn lemma_taken_once(pre: DriverView, message: UbxMessage)
    ensures
        ({
            let held = pre.store(Some(message));
            match message {
                UbxMessage::NavPvt(m) => {
                    &&& held.take_nav_pvt().0 == Some(m)
                    &&& held.take_nav_pvt().1.take_nav_pvt().0 is None
                },
                UbxMessage::NavDop(m) => {
                    &&& held.take_nav_dop().0 == Some(m)
                    &&& held.take_nav_dop().1.take_nav_dop().0 is None
                },
                UbxMessage::MonHw(m) => {
                    &&& held.take_mon_hw().0 == Some(m)
                    &&& held.take_mon_hw().1.take_mon_hw().0 is None
                },
            }
        }),
{
}

/// A slot holds the last message of its kind: a message that was not taken
/// is lost to the next one.
pub proof fn lemma_last_message_wins(pre: DriverView, earlier: UbxMessage, later: UbxMessage)
    requires
        (earlier is NavPvt && later is NavPvt) || (earlier is NavDop && later is NavDop) || (
        earlier is MonHw && later is MonHw),
    ensures
        pre.store(Some(earlier)).store(Some(later)) == pre.store(Some(later)),
{
}

} // verus!
