use vstd::prelude::*;

use std::collections::HashMap;
use std::collections::VecDeque;

use futures::channel::mpsc::{Receiver, Sender};

use crate::window_manager::{WindowError, WindowEvent};
use crate::window_map::WindowMap;

verus! {

broadcast use vstd::std_specs::hash::group_hash_axioms;

/// The sending half of a bounded `futures` channel, carried as an opaque value.
#[verifier::external_type_specification]
#[verifier::external_body]
#[verifier::reject_recursive_types(T)]
pub struct ExSender<T>(Sender<T>);

/// The receiving half of a bounded `futures` channel, carried as an opaque value.
#[verifier::external_type_specification]
#[verifier::external_body]
#[verifier::reject_recursive_types(T)]
pub struct ExReceiver<T>(Receiver<T>);

/// What became of one attempt to hand an event to a watcher.
#[derive(Debug, PartialEq, Eq, Structural)]
pub enum SendOutcome {
    /// The event was queued.
    Sent,
    /// The watcher's queue is full; the event was dropped.
    Full,
    /// The watcher has gone away.
    Disconnected,
}

/// The sending end of a window's event channel, as the registry keeps it:
/// the `futures` sender, the channel it belongs to, the events offered to it
/// so far and what became of each offer.
pub struct Watcher {
    sender: Sender<WindowEvent>,
    chan: Ghost<int>,
    offered: Ghost<Seq<WindowEvent>>,
    results: Ghost<Seq<SendOutcome>>,
}

/// The receiving end of a window's event channel: the `futures` receiver,
/// the channel it belongs to, and the free slots the channel was made with.
pub struct EventStream {
    receiver: Receiver<WindowEvent>,
    chan: Ghost<int>,
    buffer: Ghost<nat>,
}

impl Watcher {
    /// The channel this end belongs to.
    pub closed spec fn chan_id(&self) -> int {
        self.chan@
    }

    /// The events handed to `try_send` on this end, oldest first.
    pub closed spec fn offered_events(&self) -> Seq<WindowEvent> {
        self.offered@
    }

    /// What became of each offer, in the same order.
    pub closed spec fn send_results(&self) -> Seq<SendOutcome> {
        self.results@
    }
}

impl EventStream {
    /// The channel this end belongs to.
    pub closed spec fn chan_id(&self) -> int {
        self.chan@
    }

    /// The free slots the channel was made with.
    pub closed spec fn buffer_slots(&self) -> nat {
        self.buffer@
    }

    /// The `futures` receiver that yields the window's events.
    pub fn into_receiver(self) -> Receiver<WindowEvent> {
        self.receiver
    }
}

/// Creates a bounded channel with `futures::channel::mpsc::channel(buffer)`
/// and returns its two ends. Claims that both ends belong to the same
/// channel, that the channel was made with `buffer` free slots and that no
/// event was offered to it yet. The channel is named by a ghost number that
/// exists only in the proofs; it ties the two ends of one call together. `futures::channel::mpsc::channel` asserts
/// that the buffer is below its maximum, a quarter of the address space,
/// and that is what `requires` keeps.
#[verifier::external_body]
fn bounded_channel(buffer: usize) -> (ends: (Watcher, EventStream))
    requires
        buffer < usize::MAX / 4,
    ensures
        ends.0.chan_id() == ends.1.chan_id(),
        ends.0.offered_events() == Seq::<WindowEvent>::empty(),
        ends.0.send_results() == Seq::<SendOutcome>::empty(),
        ends.1.buffer_slots() == buffer as nat,
{
    let (sender, receiver) = futures::channel::mpsc::channel(buffer);
    (
        Watcher { sender, chan: Ghost(0int), offered: Ghost(Seq::empty()), results: Ghost(Seq::empty()) },
        EventStream { receiver, chan: Ghost(0int), buffer: Ghost(buffer as nat) },
    )
}

/// Offers one event to the channel with `Sender::try_send` of `futures`,
/// without waiting. Claims that this event is handed to the sender of this
/// end (recorded as offered, with the outcome that is returned) and that the
/// end stays on its channel. Nothing is claimed of which outcome comes back:
/// it depends on the state of the channel (full or closed) at the moment of
/// the call.
#[verifier::external_body]
fn try_send_event(watcher: &mut Watcher, event: WindowEvent) -> (outcome: SendOutcome)
    ensures
        final(watcher).chan_id() == old(watcher).chan_id(),
        final(watcher).offered_events() == old(watcher).offered_events().push(event),
        final(watcher).send_results() == old(watcher).send_results().push(outcome),
{
    match watcher.sender.try_send(event) {
        Ok(()) => SendOutcome::Sent,
        Err(e) => if e.is_disconnected() { SendOutcome::Disconnected } else { SendOutcome::Full },
    }
}

/// The log, kept only in proofs, of the readings of the wall clock made for
/// a surface, oldest first.
pub struct WallClock {
    readings: Ghost<Seq<(int, int)>>,
}

impl WallClock {
    /// The readings made so far, as (seconds, nanoseconds), oldest first.
    pub closed spec fn readings(&self) -> Seq<(int, int)> {
        self.readings@
    }
}

/// Reads the wall clock with `time::get_time` (time 0.1) and returns the
/// seconds and nanoseconds of the reading. Claims that the nanosecond part
/// lies in `0..1_000_000_000`, which `Timespec::new` asserts, and records the
/// reading that is returned in the clock's log; nothing is claimed of the
/// seconds, which depend on the time of the call.
#[verifier::external_body]
fn current_time(clock: &mut WallClock) -> (t: (i64, i32))
    ensures
        0 <= t.1 < 1_000_000_000,
        final(clock).readings() == old(clock).readings().push((t.0 as int, t.1 as int)),
{
    let now = time::get_time();
    (now.sec, now.nsec)
}

/// The per-surface data of the compositor: the surface id given to the
/// surface of a toplevel, the frame callbacks that wait for the next frame,
/// oldest first, and the clock readings made to finish its frames.
pub struct SurfaceData<C> {
    pub id: u64,
    pub callback_queue: VecDeque<C>,
    /// The readings of the wall clock made to finish its frames.
    pub clock: WallClock,
}

impl<C> Default for SurfaceData<C> {
    fn default() -> (data: Self)
        ensures
            data.id == 0,
            data.callback_queue@ == Seq::<C>::empty(),
            data.clock_readings() == Seq::<(int, int)>::empty(),
    {
        SurfaceData { id: 0, callback_queue: VecDeque::new(), clock: WallClock { readings: Ghost(Seq::empty()) } }
    }
}

impl<C> SurfaceData<C> {
    /// The clock readings made to finish frames of this surface, oldest first.
    pub closed spec fn clock_readings(&self) -> Seq<(int, int)> {
        self.clock.readings()
    }

    /// Queues a frame callback that the client asked for.
    pub fn queue_frame_callback(&mut self, callback: C)
        ensures
            final(self).id == old(self).id,
            final(self).clock_readings() == old(self).clock_readings(),
            final(self).callback_queue@ == old(self).callback_queue@.push(callback),
    {
        self.callback_queue.push_back(callback);
    }

    /// Takes the oldest waiting frame callback.
    pub fn take_frame_callback(&mut self) -> (callback: Option<C>)
        ensures
            final(self).id == old(self).id,
            final(self).clock_readings() == old(self).clock_readings(),
            old(self).callback_queue@.len() == 0 ==> callback is None && final(self).callback_queue@ == old(self).callback_queue@,
            old(self).callback_queue@.len() > 0 ==> {
                &&& callback == Some(old(self).callback_queue@[0])
                &&& final(self).callback_queue@ == old(self).callback_queue@.drop_first()
            },
    {
        self.callback_queue.pop_front()
    }
}

/// The time stamp, in milliseconds and cut to 32 bits, that a frame callback
/// carries when the window manager finishes a frame: the whole seconds times
/// 1000 plus the whole milliseconds of the nanosecond part.
pub open spec fn frame_time_spec(sec: int, nsec: int) -> int {
    (sec * 1000 + nsec / 1_000_000) % 0x1_0000_0000
}

/// `sec * 1000` plus the milliseconds of `nsec` is a 64-bit signed number.
pub open spec fn frame_time_in_range(sec: int, nsec: int) -> bool {
    &&& i64::MIN <= sec * 1000
    &&& sec * 1000 + nsec / 1_000_000 <= i64::MAX
}

/// Computes the time stamp of a finished frame from a clock reading.
pub fn frame_time_millis(sec: i64, nsec: i32) -> (millis: u32)
    requires
        0 <= nsec < 1_000_000_000,
        frame_time_in_range(sec as int, nsec as int),
    ensures
        millis == frame_time_spec(sec as int, nsec as int),
{
    let mills: i64 = sec * 1000 + (nsec / 1_000_000) as i64;
    let mut r: i64 = mills % 0x1_0000_0000;
    if r < 0 {
        r = r + 0x1_0000_0000;
    }
    r as u32
}

/// What finishing a frame gives for a clock reading of `sec` seconds and
/// `nsec` nanoseconds: `NoCallback` where no callback waits, else
/// `ClockOutOfRange` where the reading has no millisecond form, else the
/// oldest callback with the reading's time stamp.
pub open spec fn next_frame_result<C>(queue: Seq<C>, window_id: u64, sec: int, nsec: int) -> Result<(C, u32), WindowError> {
    if queue.len() == 0 {
        Err(WindowError::NoCallback(window_id))
    } else if !frame_time_in_range(sec, nsec) {
        Err(WindowError::ClockOutOfRange)
    } else {
        Ok((queue[0], frame_time_spec(sec, nsec) as u32))
    }
}

/// The callback queue after finishing a frame: the oldest callback leaves
/// it only where the frame was finished.
pub open spec fn next_frame_queue<C>(queue: Seq<C>, result: Result<(C, u32), WindowError>) -> Seq<C> {
    match result {
        Ok(_) => queue.drop_first(),
        Err(_) => queue,
    }
}

/// The results of finishing frames of one surface again and again, one per
/// clock reading, starting from the callback queue `queue`.
pub open spec fn frame_results<C>(queue: Seq<C>, window_id: u64, readings: Seq<(int, int)>) -> Seq<Result<(C, u32), WindowError>>
    decreases readings.len(),
{
    if readings.len() == 0 {
        Seq::empty()
    } else {
        let r = next_frame_result(queue, window_id, readings[0].0, readings[0].1);
        seq![r] + frame_results(next_frame_queue(queue, r), window_id, readings.drop_first())
    }
}

/// Frame callbacks are finished first in, first out, each exactly once:
/// over successive finishes at clock readings in range, the i-th finish
/// completes the i-th queued callback, stamped with its reading, and once
/// the queue is used up every further finish fails with `NoCallback`.
pub proof fn lemma_frames_first_in_first_out<C>(queue: Seq<C>, window_id: u64, readings: Seq<(int, int)>)
    requires
        forall|k: int| 0 <= k < readings.len() ==> #[trigger] frame_time_in_range(readings[k].0, readings[k].1),
    ensures
        frame_results(queue, window_id, readings).len() == readings.len(),
        forall|i: int| 0 <= i < readings.len() ==> #[trigger] frame_results(queue, window_id, readings)[i] == (if i < queue.len() {
            Ok::<(C, u32), WindowError>((queue[i], frame_time_spec(readings[i].0, readings[i].1) as u32))
        } else {
            Err::<(C, u32), WindowError>(WindowError::NoCallback(window_id))
        }),
    decreases readings.len(),
{
    if readings.len() > 0 {
        let r = next_frame_result(queue, window_id, readings[0].0, readings[0].1);
        let rest_q = next_frame_queue(queue, r);
        let rest_r = readings.drop_first();
        assert(frame_time_in_range(readings[0].0, readings[0].1));
        assert forall|k: int| 0 <= k < rest_r.len() implies #[trigger] frame_time_in_range(rest_r[k].0, rest_r[k].1) by {
            assert(rest_r[k] == readings[k + 1]);
            assert(frame_time_in_range(readings[k + 1].0, readings[k + 1].1));
        }
        lemma_frames_first_in_first_out(rest_q, window_id, rest_r);
        let res = frame_results(queue, window_id, readings);
        assert forall|i: int| 0 <= i < readings.len() implies #[trigger] res[i] == (if i < queue.len() {
            Ok::<(C, u32), WindowError>((queue[i], frame_time_spec(readings[i].0, readings[i].1) as u32))
        } else {
            Err::<(C, u32), WindowError>(WindowError::NoCallback(window_id))
        }) by {
            if i > 0 {
                assert(res[i] == frame_results(rest_q, window_id, rest_r)[i - 1]);
                assert(rest_r[i - 1] == readings[i]);
                if queue.len() > 0 {
                    assert(rest_q == queue.drop_first());
                    if i < queue.len() {
                        assert(rest_q[i - 1] == queue[i]);
                    }
                } else {
                    assert(rest_q == queue);
                }
            }
        }
    }
}

/// Finishes a frame of a window's surface at a given clock reading: takes
/// its oldest frame callback and stamps it with the reading in milliseconds.
pub fn next_frame_at<C>(data: &mut SurfaceData<C>, window_id: u64, sec: i64, nsec: i32) -> (result: Result<(C, u32), WindowError>)
    requires
        0 <= nsec < 1_000_000_000,
    ensures
        final(data).id == old(data).id,
        final(data).clock_readings() == old(data).clock_readings(),
        result == next_frame_result(old(data).callback_queue@, window_id, sec as int, nsec as int),
        final(data).callback_queue@ == next_frame_queue(old(data).callback_queue@, result),
{
    if data.callback_queue.len() == 0 {
        return Err(WindowError::NoCallback(window_id));
    }
    let scaled: i128 = (sec as i128) * 1000;
    if scaled < i64::MIN as i128 || scaled + (nsec / 1_000_000) as i128 > i64::MAX as i128 {
        return Err(WindowError::ClockOutOfRange);
    }
    match data.take_frame_callback() {
        Some(callback) => Ok((callback, frame_time_millis(sec, nsec))),
        None => Err(WindowError::NoCallback(window_id)),
    }
}

/// The stamp of a finished frame is the clock reading in milliseconds: for a
/// reading whose millisecond count fits in 64 bits, finishing a frame with a
/// waiting callback completes the oldest one with a 32-bit stamp that equals
/// `sec * 1000 + nsec / 1_000_000` up to whole multiples of 2^32 (and is that
/// count itself where the count is below 2^32).
pub proof fn lemma_frame_stamp_is_clock_millis<C>(queue: Seq<C>, window_id: u64, sec: int, nsec: int)
    requires
        queue.len() > 0,
        frame_time_in_range(sec, nsec),
    ensures
        next_frame_result(queue, window_id, sec, nsec) matches Ok((c, stamp)) && {
            &&& c == queue[0]
            &&& (stamp - (sec * 1000 + nsec / 1_000_000)) % 0x1_0000_0000 == 0
            &&& (0 <= sec * 1000 + nsec / 1_000_000 < 0x1_0000_0000 ==> stamp == sec * 1000 + nsec / 1_000_000)
        },
{
    let m = sec * 1000 + nsec / 1_000_000;
    assert(0 <= m % 0x1_0000_0000 < 0x1_0000_0000);
    assert((m % 0x1_0000_0000 - m) % 0x1_0000_0000 == 0) by (nonlinear_arith);
}

/// Stamps follow the clock: the stamps of two finished frames differ by the
/// milliseconds that passed between their clock readings, up to whole
/// multiples of 2^32; one second later the stamp is 1000 further on.
pub proof fn lemma_frame_stamps_follow_clock(sec1: int, nsec1: int, sec2: int, nsec2: int)
    requires
        frame_time_in_range(sec1, nsec1),
        frame_time_in_range(sec2, nsec2),
    ensures
        (frame_time_spec(sec2, nsec2) - frame_time_spec(sec1, nsec1)
            - ((sec2 * 1000 + nsec2 / 1_000_000) - (sec1 * 1000 + nsec1 / 1_000_000))) % 0x1_0000_0000 == 0,
        sec2 == sec1 + 1 && nsec2 == nsec1 ==> frame_time_spec(sec2, nsec2) == (frame_time_spec(sec1, nsec1) + 1000) % 0x1_0000_0000,
{
    let a = sec1 * 1000 + nsec1 / 1_000_000;
    let b = sec2 * 1000 + nsec2 / 1_000_000;
    assert((b % 0x1_0000_0000 - a % 0x1_0000_0000 - (b - a)) % 0x1_0000_0000 == 0) by (nonlinear_arith);
    if sec2 == sec1 + 1 && nsec2 == nsec1 {
        assert(b == a + 1000);
        assert((a + 1000) % 0x1_0000_0000 == (a % 0x1_0000_0000 + 1000) % 0x1_0000_0000) by (nonlinear_arith);
    }
}

/// Finishes a frame of a window's surface now: reads the wall clock once
/// (the reading is the last of the surface's clock readings afterwards) and
/// does what `next_frame_at` does at that very reading.
pub fn next_frame<C>(data: &mut SurfaceData<C>, window_id: u64) -> (result: Result<(C, u32), WindowError>)
    ensures
        final(data).id == old(data).id,
        final(data).clock_readings().len() == old(data).clock_readings().len() + 1,
        final(data).clock_readings().drop_last() == old(data).clock_readings(),
        ({
            let reading = final(data).clock_readings().last();
            &&& 0 <= reading.1 < 1_000_000_000
            &&& result == next_frame_result(old(data).callback_queue@, window_id, reading.0, reading.1)
        }),
        exists|sec: i64, nsec: i32| {
            &&& 0 <= nsec < 1_000_000_000
            &&& result == next_frame_result(old(data).callback_queue@, window_id, sec as int, nsec as int)
        },
        final(data).callback_queue@ == next_frame_queue(old(data).callback_queue@, result),
{
    let (sec, nsec) = current_time(&mut data.clock);
    let result = next_frame_at(data, window_id, sec, nsec);
    assert(data.clock_readings().drop_last() =~= old(data).clock_readings());
    result
}

/// The watchers of windows: for each surface id, the sending end of the
/// channel on which its events go out.
pub struct SenderRegistry {
    senders: HashMap<u64, Watcher>,
    last_attempt: Ghost<Option<(u64, Watcher)>>,
}

/// Whether a watcher stays registered after an attempt to send it an event:
/// only one that has gone away is dropped.
pub open spec fn keeps_watcher(outcome: SendOutcome) -> bool {
    outcome != SendOutcome::Disconnected
}

/// Decides whether a watcher stays registered after a send attempt.
pub fn keep_after_send(outcome: &SendOutcome) -> (keep: bool)
    ensures
        keep == keeps_watcher(*outcome),
{
    match outcome {
        SendOutcome::Disconnected => false,
        _ => true,
    }
}

/// What a commit of `surface_id` leaves: watchers of other surfaces as they
/// were; with no watcher of the surface, `None` and nothing changed; else
/// `Commit` was offered to the surface's watcher on its channel, with the
/// returned outcome (the watcher as it came out of the attempt is the last
/// attempt), and the watcher stays exactly where the outcome keeps it.
pub open spec fn commit_post(before: SenderRegistry, after: SenderRegistry, surface_id: u64, outcome: Option<SendOutcome>) -> bool {
    &&& forall|k: u64| k != surface_id ==> (#[trigger] after@.contains_key(k) <==> before@.contains_key(k))
    &&& forall|k: u64| k != surface_id && before@.contains_key(k) ==> #[trigger] after@[k] == before@[k]
    &&& match outcome {
        None => {
            &&& !before@.contains_key(surface_id)
            &&& after@ == before@
            &&& after.last_attempt() == before.last_attempt()
        },
        Some(o) => {
            &&& before@.contains_key(surface_id)
            &&& after.last_attempt() matches Some((k, w)) && {
                &&& k == surface_id
                &&& w.chan_id() == before@[surface_id].chan_id()
                &&& w.offered_events() == before@[surface_id].offered_events().push(WindowEvent::Commit)
                &&& w.send_results() == before@[surface_id].send_results().push(o)
                &&& (after@.contains_key(surface_id) <==> keeps_watcher(o))
                &&& keeps_watcher(o) ==> after@[surface_id] == w
            }
        },
    }
}

/// What opening a stream of `surface_id` leaves: a fresh watcher of the
/// surface on the channel of `stream`, made with 10 free slots and offered
/// nothing yet, in place of any earlier one; the watchers of other surfaces
/// as they were.
pub open spec fn open_stream_post(before: Map<u64, Watcher>, after: Map<u64, Watcher>, surface_id: u64, stream: EventStream) -> bool {
    &&& after.dom() == before.dom().insert(surface_id)
    &&& forall|k: u64| k != surface_id && before.contains_key(k) ==> #[trigger] after[k] == before[k]
    &&& after[surface_id].chan_id() == stream.chan_id()
    &&& after[surface_id].offered_events() == Seq::<WindowEvent>::empty()
    &&& after[surface_id].send_results() == Seq::<SendOutcome>::empty()
    &&& stream.buffer_slots() == 10
}

impl SenderRegistry {
    /// The surface ids that have a watcher, and their watchers.
    pub closed spec fn view(&self) -> Map<u64, Watcher> {
        self.senders@
    }

    /// The surface id and the watcher, as it came out, of the last attempt
    /// to offer an event; `None` before the first.
    pub closed spec fn last_attempt(&self) -> Option<(u64, Watcher)> {
        self.last_attempt@
    }

    /// A registry with no watchers.
    pub fn new() -> (registry: Self)
        ensures
            registry@ == Map::<u64, Watcher>::empty(),
            registry.last_attempt() is None,
    {
        SenderRegistry { senders: HashMap::new(), last_attempt: Ghost(None) }
    }

    /// Opens a stream of the events of the surface with this id: a new
    /// channel of 10 free slots whose sending end replaces any earlier
    /// watcher of the surface, and whose receiving end is returned.
    pub fn open_stream(&mut self, surface_id: u64) -> (stream: EventStream)
        ensures
            open_stream_post(old(self)@, final(self)@, surface_id, stream),
            final(self).last_attempt() == old(self).last_attempt(),
    {
        let (watcher, stream) = bounded_channel(10);
        self.senders.insert(surface_id, watcher);
        stream
    }

    /// Offers `Commit` to the watcher of the surface with this id. A watcher
    /// that has gone away is dropped; the others stay. `None` where the
    /// surface has no watcher.
    pub fn commit(&mut self, surface_id: u64) -> (outcome: Option<SendOutcome>)
        ensures
            commit_post(*old(self), *final(self), surface_id, outcome),
    {
        match self.senders.remove(&surface_id) {
            None => {
                assert(self@ =~= old(self)@);
                None
            },
            Some(mut watcher) => {
                let ghost before = old(self)@[surface_id];
                assert(watcher == before);
                let ghost rest = self.senders@;
                let outcome = try_send_event(&mut watcher, WindowEvent::Commit);
                self.last_attempt = Ghost(Some((surface_id, watcher)));
                if keep_after_send(&outcome) {
                    self.senders.insert(surface_id, watcher);
                    assert(self@[surface_id] == watcher);
                } else {
                    assert(self@ == rest);
                }
                Some(outcome)
            },
        }
    }
}

/// Opens the event stream of the window with this id: the surface id of its
/// surface (read by `surface_id_of` from the toplevel) gets a new watcher.
/// `None`, with the watchers as they were, where there is no such window or
/// it has no surface.
pub fn open_window_stream<T, F: Fn(&T) -> Option<u64>>(
    windows: &WindowMap<T>,
    registry: &mut SenderRegistry,
    window_id: u64,
    surface_id_of: F,
) -> (stream: Option<EventStream>)
    requires
        forall|t: &T| #[trigger] surface_id_of.requires((t,)),
    ensures
        match windows.spec_get(window_id) {
            None => stream is None && final(registry)@ == old(registry)@,
            Some(t) => exists|found: Option<u64>| {
                &&& surface_id_of.ensures((&t,), found)
                &&& match found {
                    None => stream is None && final(registry)@ == old(registry)@,
                    Some(surface_id) => {
                        &&& stream matches Some(s) && open_stream_post(old(registry)@, final(registry)@, surface_id, s)
                        &&& final(registry).last_attempt() == old(registry).last_attempt()
                    },
                }
            },
        },
{
    match windows.get_surface(window_id, surface_id_of) {
        Some(surface_id) => Some(registry.open_stream(surface_id)),
        None => None,
    }
}

/// A stream opened for a surface gets that surface's commits: the first
/// commit after the opening finds the watcher and offers `Commit`, and
/// nothing before it, on the very channel whose receiving end the stream
/// holds, with the outcome that the commit reports; where the stream has gone
/// away the watcher is dropped, else it stays on that channel.
pub proof fn lemma_stream_gets_commit(
    before: SenderRegistry,
    opened: SenderRegistry,
    committed: SenderRegistry,
    surface_id: u64,
    stream: EventStream,
    outcome: Option<SendOutcome>,
)
    requires
        open_stream_post(before@, opened@, surface_id, stream),
        commit_post(opened, committed, surface_id, outcome),
    ensures
        outcome matches Some(o) && committed.last_attempt() matches Some((k, w)) && {
            &&& k == surface_id
            &&& w.chan_id() == stream.chan_id()
            &&& w.offered_events() == seq![WindowEvent::Commit]
            &&& w.send_results() == seq![o]
            &&& o == SendOutcome::Disconnected ==> !committed@.contains_key(surface_id)
            &&& o != SendOutcome::Disconnected ==> committed@.contains_key(surface_id) && committed@[surface_id] == w
        },
{
    assert(opened@.dom().contains(surface_id));
    assert(Seq::<WindowEvent>::empty().push(WindowEvent::Commit) =~= seq![WindowEvent::Commit]);
    if let Some(o) = outcome {
        assert(Seq::<SendOutcome>::empty().push(o) =~= seq![o]);
    }
}

} // verus!
