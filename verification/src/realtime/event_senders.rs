//! What is sent to the realtime synthesizer.
//!
//! A sender decides which events reach the synthesizer, and in what form. The decisions are made
//! here; what is decided is handed to the caller, who sends it. Times are in nanoseconds on the
//! caller's clock.

use std::collections::VecDeque;
use vstd::prelude::*;
use crate::channel::event::{
    ChannelAudioEvent, ChannelConfigEvent, ChannelEvent, ControlEvent, SynthEvent,
};
use crate::range::ByteRange;
use crate::realtime::config::RealtimeRenderMode;
use crate::scalar;
use crate::scalar::Scalar;
use crate::tally;

verus! {

/// The length of a window in milliseconds.
pub const NPS_WINDOW_MILLISECONDS: u64 = 20;

/// The number of windows in a second.
pub const WINDOWS_PER_SECOND: u64 = 50;

/// The number of nanoseconds in a millisecond.
pub const MILLISECOND: u64 = 1_000_000;

/// The most notes that a tracker can hold.
pub const MOST_NOTES: u64 = 90_000_000_000_000_000;

/// The notes of one window of time.
#[derive(Copy, Clone, Debug, PartialEq, Eq, Structural)]
pub struct NpsWindow {
    pub time: u64,
    pub notes: u64,
}

/// The notes of some windows together.
pub open spec fn notes_of(windows: Seq<NpsWindow>) -> int
    decreases windows.len(),
{
    if windows.len() == 0 {
        0
    } else {
        windows[0].notes + notes_of(windows.drop_first())
    }
}

/// Whether a window is a second old.
pub open spec fn is_old(window: NpsWindow, now: u64) -> bool {
    now >= window.time + 1000 * MILLISECOND
}

/// The windows from the first one on that is not a second old.
pub open spec fn recent(windows: Seq<NpsWindow>, now: u64) -> Seq<NpsWindow>
    decreases windows.len(),
{
    if windows.len() > 0 && is_old(windows[0], now) {
        recent(windows.drop_first(), now)
    } else {
        windows
    }
}

/// A struct for tracking the estimated NPS, as fast as possible with the focus on speed
/// rather than precision. Used for NPS limiting on extremely spammy midis.
pub struct RoughNpsTracker {
    windows: VecDeque<NpsWindow>,
    total_window_sum: u64,
    current_window_sum: u64,
    last_window_time: u64,
}

/// What a tracker has counted: the past windows, the notes of the present one, and when that began.
pub ghost struct NpsCount {
    pub windows: Seq<NpsWindow>,
    pub current: u64,
    pub since: u64,
}

impl NpsCount {
    /// All notes that are counted.
    pub open spec fn total(self) -> int {
        notes_of(self.windows) + self.current
    }

    /// The same, with the present window closed where it is over at `now`.
    pub open spec fn rolled(self, now: u64) -> NpsCount {
        if now >= self.since + NPS_WINDOW_MILLISECONDS * MILLISECOND {
            NpsCount {
                windows: self.windows.push(NpsWindow { time: self.since, notes: self.current }),
                current: 0,
                since: now,
            }
        } else {
            self
        }
    }

    /// The same, without the windows that are a second old when the present one began.
    pub open spec fn trimmed(self) -> NpsCount {
        NpsCount { windows: recent(self.windows, self.since), ..self }
    }

    /// The notes per second: those of the present window scaled up to a second and by a third more,
    /// or all that are counted, whichever is more.
    pub open spec fn nps(self) -> int {
        let short = self.current * WINDOWS_PER_SECOND * 4 / 3;
        if short >= self.total() {
            short
        } else {
            self.total()
        }
    }
}

impl RoughNpsTracker {
    /// What has been counted.
    pub closed spec fn counted(&self) -> NpsCount {
        NpsCount {
            windows: self.windows@,
            current: self.current_window_sum,
            since: self.last_window_time,
        }
    }

    /// The total is the sum of the windows and of the present one.
    pub closed spec fn wf(&self) -> bool {
        &&& self.total_window_sum == self.counted().total()
        &&& self.total_window_sum <= MOST_NOTES
    }

    /// A tracker that has counted nothing.
    pub fn new(now: u64) -> (tracker: RoughNpsTracker)
        ensures
            tracker.wf(),
            tracker.counted() == (NpsCount { windows: Seq::empty(), current: 0, since: now }),
    {
        RoughNpsTracker {
            windows: VecDeque::new(),
            total_window_sum: 0,
            current_window_sum: 0,
            last_window_time: now,
        }
    }

    /// The estimated notes per second.
    pub fn calculate_nps(&mut self, now: u64) -> (nps: u64)
        requires
            old(self).wf(),
        ensures
            final(self).wf(),
            final(self).counted() == old(self).counted().rolled(now).trimmed(),
            nps == final(self).counted().nps(),
    {
        self.check_time(now);
        let ghost goal = recent(self.windows@, self.last_window_time);
        loop
            invariant
                self.wf(),
                recent(self.windows@, self.last_window_time) == goal,
                self.counted().since == old(self).counted().rolled(now).since,
                self.counted().current == old(self).counted().rolled(now).current,
                goal == recent(
                    old(self).counted().rolled(now).windows,
                    old(self).counted().rolled(now).since,
                ),
            ensures
                self.windows@ == goal,
            decreases self.windows@.len(),
        {
            if self.windows.len() == 0 {
                break;
            }
            let window: NpsWindow = self.windows[0];
            if (self.last_window_time as u128) < window.time as u128 + 1_000_000_000 {
                break;
            }
            let ghost before = self.windows@;
            proof {
                lemma_notes_nonnegative(before.drop_first());
            }
            self.total_window_sum = self.total_window_sum - window.notes;
            self.windows.pop_front();
            assert(self.windows@ =~= before.drop_first());
        }
        proof {
            lemma_notes_nonnegative(self.windows@);
        }
        let short_nps: u64 = self.current_window_sum * WINDOWS_PER_SECOND * 4 / 3;
        let long_nps: u64 = self.total_window_sum;
        if short_nps >= long_nps {
            short_nps
        } else {
            long_nps
        }
    }

    /// Closes the present window where it is over.
    pub fn check_time(&mut self, now: u64)
        requires
            old(self).wf(),
        ensures
            final(self).wf(),
            final(self).counted() == old(self).counted().rolled(now),
    {
        if now as u128 >= self.last_window_time as u128 + 20_000_000 {
            let ghost before = self.windows@;
            let window = NpsWindow { time: self.last_window_time, notes: self.current_window_sum };
            self.windows.push_back(window);
            self.current_window_sum = 0;
            self.last_window_time = now;
            proof {
                assert(self.windows@ =~= before.push(window));
                lemma_notes_push(before, window);
            }
        }
    }

    /// Counts a note.
    pub fn add_note(&mut self)
        requires
            old(self).wf(),
            old(self).counted().total() < MOST_NOTES,
        ensures
            final(self).wf(),
            final(self).counted() == (NpsCount {
                current: (old(self).counted().current + 1) as u64,
                ..old(self).counted()
            }),
    {
        proof {
            lemma_notes_nonnegative(self.windows@);
        }
        self.current_window_sum += 1;
        self.total_window_sum += 1;
    }
}

/// Windows do not hold fewer than no notes.
proof fn lemma_notes_nonnegative(windows: Seq<NpsWindow>)
    ensures
        notes_of(windows) >= 0,
    decreases windows.len(),
{
    if windows.len() > 0 {
        lemma_notes_nonnegative(windows.drop_first());
    }
}

/// One more window adds its notes.
proof fn lemma_notes_push(windows: Seq<NpsWindow>, window: NpsWindow)
    ensures
        notes_of(windows.push(window)) == notes_of(windows) + window.notes,
    decreases windows.len(),
{
    let more = windows.push(window);
    if windows.len() == 0 {
        assert(more.drop_first() =~= Seq::<NpsWindow>::empty());
        assert(notes_of(more.drop_first()) == 0);
    } else {
        assert(more[0] == windows[0]);
        assert(more.drop_first() =~= windows.drop_first().push(window));
        lemma_notes_push(windows.drop_first(), window);
    }
}

/// Whether a note of a velocity is played at a number of notes per second: always without a limit,
/// and otherwise where its velocity is above the share of the limit, on the scale of velocities.
pub open spec fn is_loud_enough(vel: u8, nps: u64, max: u64) -> bool {
    let scaled = if nps * 127 > u64::MAX {
        u64::MAX as int
    } else {
        nps * 127
    };
    max == 0 || max == u64::MAX || vel > scaled / (max as int)
}

/// Whether a note of a velocity is played at a number of notes per second. A limit of 0 or
/// `u64::MAX` is none.
pub fn should_send_for_vel_and_nps(vel: u8, nps: u64, max: u64) -> (send: bool)
    ensures
        send == is_loud_enough(vel, nps, max),
{
    if max == 0 || max == u64::MAX {
        return true;
    }
    let scaled: u64 = match nps.checked_mul(127) {
        Some(scaled) => scaled,
        None => u64::MAX,
    };
    let threshold: u64 = scaled / max;
    vel as u64 > threshold
}

/// What a sender hands to the channel that it writes to.
#[derive(Clone)]
pub enum Outgoing<V, F> {
    /// An event for the thread of one channel.
    ToChannel(ChannelEvent<V, F>),
    /// An event for the renderer of all channels.
    ToSynth(SynthEvent<V, F>),
}

/// Decides which events for one channel reach the synthesizer.
pub struct EventSender {
    mode: RealtimeRenderMode,
    nps: RoughNpsTracker,
    max_nps: u64,
    skipped_notes: [u64; 128],
    ignore_range: ByteRange,
}

/// A sender, without its tracker of time.
pub ghost struct SenderState {
    pub mode: RealtimeRenderMode,
    pub count: NpsCount,
    pub max_nps: u64,
    /// How many notes of each key were held back, and not yet let go.
    pub skipped: Seq<u64>,
    pub ignored: ByteRange,
}

/// An event in the form that a sender hands it on.
pub open spec fn addressed<V, F>(
    mode: RealtimeRenderMode,
    channel: u32,
    event: ChannelEvent<V, F>,
) -> Outgoing<V, F> {
    match mode {
        RealtimeRenderMode::Threaded => Outgoing::ToChannel(event),
        RealtimeRenderMode::ChannelGroup => Outgoing::ToSynth(SynthEvent::Channel(channel, event)),
    }
}

impl SenderState {
    /// Whether a note is played at `now`.
    pub open spec fn plays(self, vel: u8, now: u64) -> bool {
        let count = self.count.rolled(now).trimmed();
        is_loud_enough(vel, count.nps() as u64, self.max_nps) && !self.ignored.has(vel)
    }

    /// What an event to play leads to, and what is sent. Keys above 127 do not exist. A note that is
    /// held back is remembered, and the event that ends it is held back too.
    pub open spec fn sends<V, F>(
        self,
        channel: u32,
        event: ChannelAudioEvent<V>,
        now: u64,
    ) -> (SenderState, Option<Outgoing<V, F>>) {
        let message = Some(addressed(self.mode, channel, ChannelEvent::Audio(event)));
        match event {
            ChannelAudioEvent::NoteOn { key, vel } => if key > 127 {
                (self, None)
            } else {
                let count = self.count.rolled(now).trimmed();
                if self.plays(vel, now) {
                    (
                        SenderState {
                            count: NpsCount { current: (count.current + 1) as u64, ..count },
                            ..self
                        },
                        message,
                    )
                } else {
                    (
                        SenderState {
                            count,
                            skipped: self.skipped.update(
                                key as int,
                                (self.skipped[key as int] + 1) as u64,
                            ),
                            ..self
                        },
                        None,
                    )
                }
            },
            ChannelAudioEvent::NoteOff { key } => if key > 127 {
                (self, None)
            } else if self.skipped[key as int] > 0 {
                (
                    SenderState {
                        skipped: self.skipped.update(
                            key as int,
                            (self.skipped[key as int] - 1) as u64,
                        ),
                        ..self
                    },
                    None,
                )
            } else {
                (self, message)
            },
            _ => (self, message),
        }
    }

    /// Whether there is room to count the note that an event starts, played or held back. Other
    /// events need none, nor does a key that does not exist.
    pub open spec fn has_room_for<V>(self, event: ChannelAudioEvent<V>) -> bool {
        match event {
            ChannelAudioEvent::NoteOn { key, .. } => key <= 127 ==> {
                &&& self.count.total() < MOST_NOTES
                &&& self.skipped[key as int] < u64::MAX
            },
            _ => true,
        }
    }
}

/// No note is held back.
pub open spec fn none_skipped() -> Seq<u64> {
    Seq::new(128, |key: int| 0u64)
}

impl EventSender {
    /// The sender, without its tracker of time.
    pub closed spec fn now(&self) -> SenderState {
        SenderState {
            mode: self.mode,
            count: self.nps.counted(),
            max_nps: self.max_nps,
            skipped: self.skipped_notes@,
            ignored: self.ignore_range,
        }
    }

    /// The tracker is consistent.
    pub closed spec fn wf(&self) -> bool {
        self.nps.wf()
    }

    /// A sender that has sent nothing.
    pub fn new(max_nps: u64, mode: RealtimeRenderMode, ignore_range: ByteRange, now: u64) -> (sender:
        Self)
        ensures
            sender.wf(),
            sender.now() == (SenderState {
                mode,
                count: NpsCount { windows: Seq::empty(), current: 0, since: now },
                max_nps,
                skipped: none_skipped(),
                ignored: ignore_range,
            }),
    {
        let skipped_notes: [u64; 128] = [0;128];
        assert(skipped_notes@ =~= none_skipped());
        EventSender {
            mode,
            nps: RoughNpsTracker::new(now),
            max_nps,
            skipped_notes,
            ignore_range,
        }
    }

    /// A sender with the same settings that has sent nothing.
    pub fn duplicate(&self, now: u64) -> (sender: Self)
        ensures
            sender.wf(),
            sender.now() == (SenderState {
                count: NpsCount { windows: Seq::empty(), current: 0, since: now },
                skipped: none_skipped(),
                ..self.now()
            }),
    {
        Self::new(self.max_nps, self.mode, self.ignore_range, now)
    }

    /// An event in the form in which it is handed on.
    fn address<V, F>(&self, channel: u32, event: ChannelEvent<V, F>) -> (message: Outgoing<V, F>)
        ensures
            message == addressed(self.now().mode, channel, event),
    {
        match self.mode {
            RealtimeRenderMode::Threaded => Outgoing::ToChannel(event),
            RealtimeRenderMode::ChannelGroup => Outgoing::ToSynth(
                SynthEvent::Channel(channel, event),
            ),
        }
    }

    /// Handles the start of a note, and tells what is to be sent.
    pub fn send_note_on<V, F>(&mut self, channel: u32, key: u8, vel: u8, now: u64) -> (message: Option<
        Outgoing<V, F>,
    >)
        requires
            old(self).wf(),
            old(self).now().has_room_for(ChannelAudioEvent::<V>::NoteOn { key, vel }),
            key <= 127,
        ensures
            final(self).wf(),
            (final(self).now(), message) == old(self).now().sends::<V, F>(
                channel,
                ChannelAudioEvent::NoteOn { key, vel },
                now,
            ),
    {
        proof {
            lemma_rolled_total(self.nps.counted(), now);
        }
        let nps: u64 = self.nps.calculate_nps(now);
        if should_send_for_vel_and_nps(vel, nps, self.max_nps) && !self.ignore_range.contains(vel) {
            self.nps.add_note();
            Some(self.address(channel, ChannelEvent::Audio(ChannelAudioEvent::NoteOn { key, vel })))
        } else {
            self.skipped_notes[key as usize] = self.skipped_notes[key as usize] + 1;
            assert(self.now().skipped =~= old(self).now().sends::<V, F>(
                channel,
                ChannelAudioEvent::NoteOn { key, vel },
                now,
            ).0.skipped);
            None
        }
    }

    /// Handles the end of a note, and tells what is to be sent. Where notes of the key were held back
    /// and not yet let go, it is held back too and makes up for one of them; else it is sent. The
    /// counts of other keys stay as they are.
    pub fn send_note_off<V, F>(&mut self, channel: u32, key: u8) -> (message: Option<Outgoing<V, F>>)
        requires
            old(self).wf(),
            key <= 127,
        ensures
            final(self).wf(),
            if old(self).now().skipped[key as int] > 0 {
                &&& message is None
                &&& final(self).now().skipped == old(self).now().skipped.update(
                    key as int,
                    (old(self).now().skipped[key as int] - 1) as u64,
                )
            } else {
                &&& message == Some(
                    addressed(
                        old(self).now().mode,
                        channel,
                        ChannelEvent::<V, F>::Audio(ChannelAudioEvent::NoteOff { key }),
                    ),
                )
                &&& final(self).now().skipped == old(self).now().skipped
            },
            (final(self).now(), message) == old(self).now().sends::<V, F>(
                channel,
                ChannelAudioEvent::NoteOff { key },
                0,
            ),
    {
        if self.skipped_notes[key as usize] > 0 {
            self.skipped_notes[key as usize] = self.skipped_notes[key as usize] - 1;
            assert(self.now().skipped =~= old(self).now().sends::<V, F>(
                channel,
                ChannelAudioEvent::NoteOff { key },
                0,
            ).0.skipped);
            None
        } else {
            Some(self.address(channel, ChannelEvent::Audio(ChannelAudioEvent::NoteOff { key })))
        }
    }

    /// Handles an event to play, and tells what is to be sent.
    pub fn send_audio<V: Copy, F>(
        &mut self,
        channel: u32,
        event: ChannelAudioEvent<V>,
        now: u64,
    ) -> (message: Option<Outgoing<V, F>>)
        requires
            old(self).wf(),
            old(self).now().has_room_for(event),
        ensures
            final(self).wf(),
            (final(self).now(), message) == old(self).now().sends::<V, F>(channel, event, now),
    {
        match event {
            ChannelAudioEvent::NoteOn { key, vel } => {
                if key > 127 {
                    return None;
                }
                self.send_note_on(channel, key, vel, now)
            },
            ChannelAudioEvent::NoteOff { key } => {
                if key > 127 {
                    return None;
                }
                self.send_note_off(channel, key)
            },
            _ => Some(self.address(channel, ChannelEvent::Audio(event))),
        }
    }

    /// Handles an event for all channels. The renderer of all channels gets it once, unchecked; the
    /// thread of one channel gets it as any other.
    pub fn send_audio_all_channels<V: Copy, F>(&mut self, event: ChannelAudioEvent<V>, now: u64) -> (
    message: Option<Outgoing<V, F>>)
        requires
            old(self).wf(),
            old(self).now().mode is Threaded ==> old(self).now().has_room_for(event),
        ensures
            final(self).wf(),
            match old(self).now().mode {
                RealtimeRenderMode::Threaded => (final(self).now(), message) == old(self).now().sends::<V, F>(0, event, now),
                RealtimeRenderMode::ChannelGroup => {
                    &&& *final(self) == *old(self)
                    &&& message == Some(
                        Outgoing::<V, F>::ToSynth(
                            SynthEvent::AllChannels(ChannelEvent::Audio(event)),
                        ),
                    )
                },
            },
    {
        match self.mode {
            RealtimeRenderMode::Threaded => self.send_audio(0, event, now),
            RealtimeRenderMode::ChannelGroup => Some(
                Outgoing::ToSynth(SynthEvent::AllChannels(ChannelEvent::Audio(event))),
            ),
        }
    }

    /// Hands on a change of setup.
    pub fn send_config<V, F>(&self, channel: u32, event: ChannelConfigEvent<F>) -> (message:
        Outgoing<V, F>)
        ensures
            message == addressed(
                self.now().mode,
                channel,
                ChannelEvent::<V, F>::Config(event),
            ),
    {
        self.address(channel, ChannelEvent::Config(event))
    }

    /// Hands on a change of setup for all channels.
    pub fn send_config_all_channels<V, F>(&self, event: ChannelConfigEvent<F>) -> (message:
        Outgoing<V, F>)
        ensures
            message == match self.now().mode {
                RealtimeRenderMode::Threaded => Outgoing::<V, F>::ToChannel(
                    ChannelEvent::Config(event),
                ),
                RealtimeRenderMode::ChannelGroup => Outgoing::ToSynth(
                    SynthEvent::AllChannels(ChannelEvent::Config(event)),
                ),
            },
    {
        match self.mode {
            RealtimeRenderMode::Threaded => Outgoing::ToChannel(ChannelEvent::Config(event)),
            RealtimeRenderMode::ChannelGroup => Outgoing::ToSynth(
                SynthEvent::AllChannels(ChannelEvent::Config(event)),
            ),
        }
    }

    /// Changes the range of velocities that are held back.
    pub fn set_ignore_range(&mut self, ignore_range: ByteRange)
        requires
            old(self).wf(),
        ensures
            final(self).wf(),
            final(self).now() == (SenderState { ignored: ignore_range, ..old(self).now() }),
    {
        self.ignore_range = ignore_range;
    }

    /// Forgets the notes that were held back.
    pub fn forget_skipped(&mut self)
        requires
            old(self).wf(),
        ensures
            final(self).wf(),
            final(self).now() == (SenderState { skipped: none_skipped(), ..old(self).now() }),
    {
        self.skipped_notes = [0;128];
        assert(self.skipped_notes@ =~= none_skipped());
    }
}

/// Closing windows and dropping old ones counts no more notes than before.
proof fn lemma_rolled_total(count: NpsCount, now: u64)
    ensures
        count.rolled(now).trimmed().total() <= count.total(),
        count.rolled(now).trimmed().total() >= 0,
{
    let rolled = count.rolled(now);
    lemma_notes_push(count.windows, NpsWindow { time: count.since, notes: count.current });
    lemma_recent_fewer(rolled.windows, rolled.since);
    lemma_notes_nonnegative(recent(rolled.windows, rolled.since));
}

/// Dropping old windows drops their notes.
proof fn lemma_recent_fewer(windows: Seq<NpsWindow>, now: u64)
    ensures
        notes_of(recent(windows, now)) <= notes_of(windows),
    decreases windows.len(),
{
    if windows.len() > 0 && is_old(windows[0], now) {
        lemma_recent_fewer(windows.drop_first(), now);
    }
}

/// A note that is held back leaves nothing behind: neither its start nor its end is sent, and its
/// end makes up for it in the count of notes held back.
pub proof fn lemma_held_back_note_leaves_nothing<V, F>(
    sender: SenderState,
    channel: u32,
    key: u8,
    vel: u8,
    now: u64,
    later: u64,
)
    requires
        key <= 127,
        sender.skipped.len() == 128,
        sender.skipped[key as int] < u64::MAX,
        !sender.plays(vel, now),
    ensures
        ({
            let on = sender.sends::<V, F>(channel, ChannelAudioEvent::NoteOn { key, vel }, now);
            let off = on.0.sends::<V, F>(channel, ChannelAudioEvent::NoteOff { key }, later);
            &&& on.1 is None
            &&& off.1 is None
            &&& off.0.skipped == sender.skipped
        }),
{
    let on = sender.sends::<V, F>(channel, ChannelAudioEvent::NoteOn { key, vel }, now);
    let off = on.0.sends::<V, F>(channel, ChannelAudioEvent::NoteOff { key }, later);
    assert(off.0.skipped =~= sender.skipped);
}

/// Without a limit, every note outside of the range of velocities that are held back is sent.
pub proof fn lemma_no_limit_sends_all<V, F>(
    sender: SenderState,
    channel: u32,
    key: u8,
    vel: u8,
    now: u64,
)
    requires
        key <= 127,
        sender.max_nps == u64::MAX || sender.max_nps == 0,
        !sender.ignored.has(vel),
    ensures
        sender.sends::<V, F>(channel, ChannelAudioEvent::NoteOn { key, vel }, now).1 is Some,
{
}

/// What happens to a sender: it is handed an event at some time, or told what to ignore.
pub ghost enum SenderStep<V> {
    Event { channel: u32, event: ChannelAudioEvent<V>, now: u64 },
    Ignore { range: ByteRange },
}

/// Whether a sender goes through `states` by `steps`.
pub open spec fn is_history<V, F>(states: Seq<SenderState>, steps: Seq<SenderStep<V>>) -> bool {
    &&& states.len() == steps.len() + 1
    &&& forall|i: int| 0 <= i < steps.len() ==> #[trigger] happens::<V, F>(states, steps, i)
}

/// Whether step `i` leads from one state to the next.
pub open spec fn happens<V, F>(
    states: Seq<SenderState>,
    steps: Seq<SenderStep<V>>,
    i: int,
) -> bool {
    states[i + 1] == match steps[i] {
        SenderStep::Event { channel, event, now } => states[i].sends::<V, F>(
            channel,
            event,
            now,
        ).0,
        SenderStep::Ignore { range } => SenderState { ignored: range, ..states[i] },
    }
}

/// The message of step `i`, if there is one.
pub open spec fn message_of<V, F>(
    states: Seq<SenderState>,
    steps: Seq<SenderStep<V>>,
    i: int,
) -> Option<Outgoing<V, F>> {
    match steps[i] {
        SenderStep::Event { channel, event, now } => states[i].sends::<V, F>(
            channel,
            event,
            now,
        ).1,
        SenderStep::Ignore { .. } => None,
    }
}

/// Whether the step starts a note of the key.
pub open spec fn starts_note<V>(step: SenderStep<V>, key: u8) -> bool {
    step matches SenderStep::Event { event: ChannelAudioEvent::NoteOn { key: k, .. }, .. } && k
        == key
}

/// Whether the step ends a note of the key.
pub open spec fn ends_note<V>(step: SenderStep<V>, key: u8) -> bool {
    step matches SenderStep::Event { event: ChannelAudioEvent::NoteOff { key: k }, .. } && k == key
}

/// The steps that start a note of the key and send nothing.
pub open spec fn starts_withheld<V, F>(
    states: Seq<SenderState>,
    steps: Seq<SenderStep<V>>,
    key: u8,
) -> spec_fn(int) -> bool {
    |i: int| starts_note(steps[i], key) && message_of::<V, F>(states, steps, i) is None
}

/// The steps that end a note of the key and send nothing.
pub open spec fn ends_withheld<V, F>(
    states: Seq<SenderState>,
    steps: Seq<SenderStep<V>>,
    key: u8,
) -> spec_fn(int) -> bool {
    |i: int| ends_note(steps[i], key) && message_of::<V, F>(states, steps, i) is None
}

/// What step `i`, which ends a note of the key, does. Where more notes than ends of the key were held
/// back before it, nothing is sent and the count drops by one. Else the end is sent, addressed to its
/// channel, and the count stays at none. The counts of other keys stay as they are.
pub open spec fn answers_end<V, F>(
    states: Seq<SenderState>,
    steps: Seq<SenderStep<V>>,
    key: u8,
    i: int,
) -> bool {
    let withheld = tally::count(i as nat, starts_withheld::<V, F>(states, steps, key))
        - tally::count(i as nat, ends_withheld::<V, F>(states, steps, key));
    &&& withheld == states[i].skipped[key as int]
    &&& if withheld > 0 {
        &&& message_of::<V, F>(states, steps, i) is None
        &&& states[i + 1].skipped == states[i].skipped.update(key as int, (withheld - 1) as u64)
    } else {
        &&& message_of::<V, F>(states, steps, i) == Some(
            addressed(
                states[i].mode,
                steps[i]->channel,
                ChannelEvent::<V, F>::Audio(ChannelAudioEvent::NoteOff { key }),
            ),
        )
        &&& states[i + 1].skipped == states[i].skipped
    }
}

/// Over any history of a sender that starts with no note held back, the count of a key is the number
/// of its notes that were held back less the number of its ends that were. Each note that is held back
/// swallows exactly one end, and every other end is sent. A history starts where the sender is made,
/// duplicated or reset.
pub proof fn lemma_withheld_notes_balance<V, F>(
    states: Seq<SenderState>,
    steps: Seq<SenderStep<V>>,
    key: u8,
)
    requires
        is_history::<V, F>(states, steps),
        states[0].skipped == none_skipped(),
        steps.len() <= u64::MAX,
        key < 128,
    ensures
        states.last().skipped[key as int] == tally::count(
            steps.len(),
            starts_withheld::<V, F>(states, steps, key),
        ) - tally::count(steps.len(), ends_withheld::<V, F>(states, steps, key)),
        forall|i: int|
            0 <= i < steps.len() && ends_note(#[trigger] steps[i], key) ==> answers_end::<V, F>(
                states,
                steps,
                key,
                i,
            ),
{
    lemma_withheld_up_to::<V, F>(states, steps, key, steps.len());
    assert forall|i: int| 0 <= i < steps.len() && ends_note(#[trigger] steps[i], key) implies answers_end::<
        V,
        F,
    >(states, steps, key, i) by {
        assert(happens::<V, F>(states, steps, i));
        lemma_withheld_up_to::<V, F>(states, steps, key, i as nat);
    }
}

/// After `n` steps the count of a key is what was held back of it.
proof fn lemma_withheld_up_to<V, F>(
    states: Seq<SenderState>,
    steps: Seq<SenderStep<V>>,
    key: u8,
    n: nat,
)
    requires
        is_history::<V, F>(states, steps),
        states[0].skipped == none_skipped(),
        n <= steps.len() <= u64::MAX,
        key < 128,
    ensures
        states[n as int].skipped.len() == 128,
        states[n as int].skipped[key as int] <= n,
        states[n as int].skipped[key as int] == tally::count(
            n,
            starts_withheld::<V, F>(states, steps, key),
        ) - tally::count(n, ends_withheld::<V, F>(states, steps, key)),
    decreases n,
{
    if n > 0 {
        lemma_withheld_up_to::<V, F>(states, steps, key, (n - 1) as nat);
        assert(happens::<V, F>(states, steps, n - 1));
    }
}

/// A helper object to send events to the realtime synthesizer: a sender for each channel.
pub struct RealtimeEventSender {
    senders: Vec<EventSender>,
    mode: RealtimeRenderMode,
}

/// Whether one change of setup is a copy of another.
pub open spec fn is_copy_of<F: Clone>(a: ChannelConfigEvent<F>, b: ChannelConfigEvent<F>) -> bool {
    match (a, b) {
        (ChannelConfigEvent::SetSoundfonts(f), ChannelConfigEvent::SetSoundfonts(g)) => cloned(
            f,
            g,
        ),
        _ => a == b,
    }
}

/// Copies a change of setup.
fn copy_config<F: Clone>(event: &ChannelConfigEvent<F>) -> (copy: ChannelConfigEvent<F>)
    ensures
        is_copy_of(*event, copy),
{
    match event {
        ChannelConfigEvent::SetSoundfonts(f) => ChannelConfigEvent::SetSoundfonts(f.clone()),
        ChannelConfigEvent::SetLayerCount(count) => ChannelConfigEvent::SetLayerCount(*count),
        ChannelConfigEvent::SetPercussionMode(on) => ChannelConfigEvent::SetPercussionMode(*on),
    }
}

/// The messages that the first `n` senders send for an event to play, each with its sender.
pub open spec fn messages<V, F>(
    states: Seq<SenderState>,
    event: ChannelAudioEvent<V>,
    now: u64,
    n: int,
) -> Seq<(usize, Outgoing<V, F>)>
    decreases n,
{
    if n <= 0 {
        Seq::empty()
    } else {
        let before = messages(states, event, now, n - 1);
        match states[n - 1].sends::<V, F>((n - 1) as u32, event, now).1 {
            Some(message) => before.push(((n - 1) as usize, message)),
            None => before,
        }
    }
}

/// The senders after an event to play for each.
pub open spec fn after_audio<V, F>(
    states: Seq<SenderState>,
    event: ChannelAudioEvent<V>,
    now: u64,
) -> Seq<SenderState> {
    Seq::new(states.len(), |i: int| states[i].sends::<V, F>(i as u32, event, now).0)
}

/// Whether an event turns the senders `pre` into `post`, and sends `sent`.
pub open spec fn delivers<V, F: Clone>(
    mode: RealtimeRenderMode,
    pre: Seq<SenderState>,
    event: SynthEvent<V, F>,
    now: u64,
    post: Seq<SenderState>,
    sent: Seq<(usize, Outgoing<V, F>)>,
) -> bool {
    match event {
        SynthEvent::Channel(channel, _) => if channel >= pre.len() {
            post == pre && sent.len() == 0
        } else {
            delivers_to_one(pre, event, now, post, sent)
        },
        SynthEvent::AllChannels(event) => if mode == RealtimeRenderMode::ChannelGroup && pre.len()
            > 0 {
            delivers_once(pre, event, now, post, sent)
        } else {
            delivers_to_each(pre, event, now, post, sent)
        },
    }
}

/// An event for one channel goes through the sender of that channel.
pub open spec fn delivers_to_one<V, F: Clone>(
    pre: Seq<SenderState>,
    event: SynthEvent<V, F>,
    now: u64,
    post: Seq<SenderState>,
    sent: Seq<(usize, Outgoing<V, F>)>,
) -> bool {
    match event {
        SynthEvent::Channel(channel, ChannelEvent::Audio(e)) => {
            let result = pre[channel as int].sends::<V, F>(channel, e, now);
            &&& post == pre.update(channel as int, result.0)
            &&& sent == match result.1 {
                Some(message) => seq![(channel as usize, message)],
                None => Seq::empty(),
            }
        },
        SynthEvent::Channel(channel, ChannelEvent::Config(e)) => {
            &&& post == pre
            &&& sent == seq![
                (
                    channel as usize,
                    addressed(
                        pre[channel as int].mode,
                        channel,
                        ChannelEvent::<V, F>::Config(e),
                    ),
                ),
            ]
        },
        SynthEvent::AllChannels(_) => false,
    }
}

/// An event for all channels goes once through the first sender, where one renderer plays them all.
pub open spec fn delivers_once<V, F: Clone>(
    pre: Seq<SenderState>,
    event: ChannelEvent<V, F>,
    now: u64,
    post: Seq<SenderState>,
    sent: Seq<(usize, Outgoing<V, F>)>,
) -> bool {
    match pre[0].mode {
        RealtimeRenderMode::ChannelGroup => {
            &&& post == pre
            &&& sent == seq![(0usize, Outgoing::ToSynth(SynthEvent::AllChannels(event)))]
        },
        RealtimeRenderMode::Threaded => match event {
            ChannelEvent::Audio(e) => {
                let result = pre[0].sends::<V, F>(0, e, now);
                &&& post == pre.update(0, result.0)
                &&& sent == match result.1 {
                    Some(message) => seq![(0usize, message)],
                    None => Seq::empty(),
                }
            },
            ChannelEvent::Config(e) => {
                &&& post == pre
                &&& sent == seq![(0usize, Outgoing::ToChannel(event))]
            },
        },
    }
}

/// An event for all channels goes through each sender, where each channel has its own thread.
pub open spec fn delivers_to_each<V, F: Clone>(
    pre: Seq<SenderState>,
    event: ChannelEvent<V, F>,
    now: u64,
    post: Seq<SenderState>,
    sent: Seq<(usize, Outgoing<V, F>)>,
) -> bool {
    match event {
        ChannelEvent::Audio(e) => {
            &&& post == after_audio::<V, F>(pre, e, now)
            &&& sent == messages::<V, F>(pre, e, now, pre.len() as int)
        },
        ChannelEvent::Config(e) => {
            &&& post == pre
            &&& sent.len() == pre.len()
            &&& forall|i: int|
                0 <= i < pre.len() ==> is_config_for(pre[i].mode, i, e, #[trigger] sent[i])
        },
    }
}

/// Whether a message carries a copy of a change of setup to the channel `i`.
pub open spec fn is_config_for<V, F: Clone>(
    mode: RealtimeRenderMode,
    i: int,
    event: ChannelConfigEvent<F>,
    sent: (usize, Outgoing<V, F>),
) -> bool {
    &&& sent.0 == i
    &&& exists|copy: ChannelConfigEvent<F>| #[trigger]
        is_copy_of(event, copy) && sent.1 == addressed(
            mode,
            i as u32,
            ChannelEvent::<V, F>::Config(copy),
        )
}

impl RealtimeEventSender {
    /// The senders.
    pub closed spec fn states(&self) -> Seq<SenderState> {
        Seq::new(self.senders@.len(), |i: int| self.senders@[i].now())
    }

    /// How channels are rendered.
    pub closed spec fn render_mode(&self) -> RealtimeRenderMode {
        self.mode
    }

    /// Every sender is consistent.
    pub closed spec fn wf(&self) -> bool {
        forall|i: int| 0 <= i < self.senders@.len() ==> (#[trigger] self.senders@[i]).wf()
    }

    /// Whether there is room to count the notes that an event starts, at each sender that counts one.
    pub open spec fn has_room_for<V, F>(&self, event: SynthEvent<V, F>) -> bool {
        match event {
            SynthEvent::Channel(channel, ChannelEvent::Audio(e)) => channel < self.states().len()
                ==> self.states()[channel as int].has_room_for(e),
            SynthEvent::AllChannels(ChannelEvent::Audio(e)) => if self.render_mode()
                == RealtimeRenderMode::ChannelGroup && self.states().len() > 0 {
                self.states()[0].mode is Threaded ==> self.states()[0].has_room_for(e)
            } else {
                forall|i: int|
                    0 <= i < self.states().len() ==> (#[trigger] self.states()[i]).has_room_for(e)
            },
            _ => true,
        }
    }

    /// Whether there is room to count the note that a MIDI message starts.
    pub open spec fn has_room_for_message(&self, message: u32) -> bool {
        let channel = midi_byte(message, 0) % 16;
        midi_byte(message, 0) / 16 == 0x9 && channel < self.states().len()
            ==> self.states()[channel as int].has_room_for(
            ChannelAudioEvent::<()>::NoteOn {
                key: midi_byte(message, 1),
                vel: midi_byte(message, 2),
            },
        )
    }

    /// Senders for the channels of a synthesizer.
    pub fn new(senders: Vec<EventSender>, mode: RealtimeRenderMode) -> (this: Self)
        requires
            forall|i: int| 0 <= i < senders@.len() ==> (#[trigger] senders@[i]).wf(),
        ensures
            this.wf(),
            this.render_mode() == mode,
            this.states().len() == senders@.len(),
            forall|i: int|
                0 <= i < senders@.len() ==> #[trigger] this.states()[i] == senders@[i].now(),
    {
        RealtimeEventSender { senders, mode }
    }

    /// Senders with the same settings that have sent nothing.
    pub fn duplicate(&self, now: u64) -> (copy: Self)
        requires
            self.wf(),
        ensures
            copy.wf(),
            copy.render_mode() == self.render_mode(),
            copy.states() == Seq::new(
                self.states().len(),
                |i: int|
                    SenderState {
                        count: NpsCount { windows: Seq::empty(), current: 0, since: now },
                        skipped: none_skipped(),
                        ..self.states()[i]
                    },
            ),
    {
        let mut senders: Vec<EventSender> = Vec::new();
        let mut i: usize = 0;
        while i < self.senders.len()
            invariant
                i <= self.senders@.len(),
                senders@.len() == i,
                forall|j: int|
                    0 <= j < i ==> {
                        &&& (#[trigger] senders@[j]).wf()
                        &&& senders@[j].now() == (SenderState {
                            count: NpsCount { windows: Seq::empty(), current: 0, since: now },
                            skipped: none_skipped(),
                            ..self.senders@[j].now()
                        })
                    },
            decreases self.senders@.len() - i,
        {
            senders.push(self.senders[i].duplicate(now));
            i += 1;
        }
        RealtimeEventSender { senders, mode: self.mode }
    }

    /// Sends a SynthEvent to the realtime synthesizer: tells which sender hands on what.
    pub fn send_event<V: Copy, F: Clone>(&mut self, event: SynthEvent<V, F>, now: u64) -> (sent: Vec<
        (usize, Outgoing<V, F>),
    >)
        requires
            old(self).wf(),
            old(self).has_room_for(event),
        ensures
            final(self).wf(),
            final(self).render_mode() == old(self).render_mode(),
            delivers(
                old(self).render_mode(),
                old(self).states(),
                event,
                now,
                final(self).states(),
                sent@,
            ),
    {
        match event {
            SynthEvent::Channel(channel, event) => {
                if (channel as usize) < self.senders.len() {
                    self.send_to_one(channel, event, now)
                } else {
                    Vec::new()
                }
            },
            SynthEvent::AllChannels(event) => match self.mode {
                RealtimeRenderMode::ChannelGroup => {
                    if self.senders.len() > 0 {
                        self.send_once(event, now)
                    } else {
                        self.send_to_each(event, now)
                    }
                },
                RealtimeRenderMode::Threaded => self.send_to_each(event, now),
            },
        }
    }

    fn send_to_one<V: Copy, F: Clone>(
        &mut self,
        channel: u32,
        event: ChannelEvent<V, F>,
        now: u64,
    ) -> (sent: Vec<(usize, Outgoing<V, F>)>)
        requires
            old(self).wf(),
            channel < old(self).states().len(),
            event matches ChannelEvent::Audio(e) ==> old(self).states()[channel as int].has_room_for(
                e,
            ),
        ensures
            final(self).wf(),
            final(self).render_mode() == old(self).render_mode(),
            delivers_to_one(
                old(self).states(),
                SynthEvent::Channel(channel, event),
                now,
                final(self).states(),
                sent@,
            ),
    {
        let i: usize = channel as usize;
        let mut sent: Vec<(usize, Outgoing<V, F>)> = Vec::new();
        assert(self.senders@[i as int].wf());
        match event {
            ChannelEvent::Audio(e) => {
                match self.senders[i].send_audio(channel, e, now) {
                    Some(message) => {
                        sent.push((i, message));
                    },
                    None => {},
                }
                let ghost next = old(self).states()[i as int].sends::<V, F>(channel, e, now).0;
                assert(self.states() =~= old(self).states().update(i as int, next));
            },
            ChannelEvent::Config(e) => {
                sent.push((i, self.senders[i].send_config(channel, e)));
            },
        }
        sent
    }

    fn send_once<V: Copy, F: Clone>(&mut self, event: ChannelEvent<V, F>, now: u64) -> (sent: Vec<
        (usize, Outgoing<V, F>),
    >)
        requires
            old(self).wf(),
            old(self).states().len() > 0,
            event matches ChannelEvent::Audio(e) ==> old(self).states()[0].mode is Threaded ==> old(self).states()[0].has_room_for(e),
        ensures
            final(self).wf(),
            final(self).render_mode() == old(self).render_mode(),
            delivers_once(old(self).states(), event, now, final(self).states(), sent@),
    {
        let mut sent: Vec<(usize, Outgoing<V, F>)> = Vec::new();
        assert(self.senders@[0].wf());
        match event {
            ChannelEvent::Audio(e) => {
                match self.senders[0].send_audio_all_channels(e, now) {
                    Some(message) => {
                        sent.push((0, message));
                    },
                    None => {},
                }
                let ghost next = old(self).states()[0].sends::<V, F>(0, e, now).0;
                assert(old(self).states()[0].mode is Threaded ==> self.states() =~= old(self).states().update(0, next));
                assert(old(self).states()[0].mode is ChannelGroup ==> self.states() =~= old(self).states());
            },
            ChannelEvent::Config(e) => {
                sent.push((0, self.senders[0].send_config_all_channels(e)));
            },
        }
        sent
    }

    fn send_to_each<V: Copy, F: Clone>(&mut self, event: ChannelEvent<V, F>, now: u64) -> (sent: Vec<
        (usize, Outgoing<V, F>),
    >)
        requires
            old(self).wf(),
            event matches ChannelEvent::Audio(e) ==> forall|i: int|
                0 <= i < old(self).states().len() ==> (#[trigger] old(self).states()[i]).has_room_for(
                    e,
                ),
        ensures
            final(self).wf(),
            final(self).render_mode() == old(self).render_mode(),
            delivers_to_each(old(self).states(), event, now, final(self).states(), sent@),
    {
        match event {
            ChannelEvent::Audio(e) => self.send_audio_to_each(e, now),
            ChannelEvent::Config(e) => self.send_config_to_each(e),
        }
    }

    fn send_audio_to_each<V: Copy, F: Clone>(&mut self, event: ChannelAudioEvent<V>, now: u64) -> (
    sent: Vec<(usize, Outgoing<V, F>)>)
        requires
            old(self).wf(),
            forall|i: int|
                0 <= i < old(self).states().len() ==> (#[trigger] old(self).states()[i]).has_room_for(
                    event,
                ),
        ensures
            final(self).wf(),
            final(self).render_mode() == old(self).render_mode(),
            final(self).states() == after_audio::<V, F>(old(self).states(), event, now),
            sent@ == messages::<V, F>(
                old(self).states(),
                event,
                now,
                old(self).states().len() as int,
            ),
    {
        let ghost pre = self.states();
        let mut sent: Vec<(usize, Outgoing<V, F>)> = Vec::new();
        let mut i: usize = 0;
        while i < self.senders.len()
            invariant
                i <= self.senders@.len(),
                self.senders@.len() == pre.len(),
                pre == old(self).states(),
                self.mode == old(self).mode,
                self.wf(),
                forall|j: int| 0 <= j < pre.len() ==> (#[trigger] pre[j]).has_room_for(event),
                sent@ == messages::<V, F>(pre, event, now, i as int),
                forall|j: int|
                    0 <= j < i ==> (#[trigger] self.senders@[j]).now() == pre[j].sends::<V, F>(
                        j as u32,
                        event,
                        now,
                    ).0,
                forall|j: int|
                    i <= j < pre.len() ==> (#[trigger] self.senders@[j]).now() == pre[j],
            decreases self.senders@.len() - i,
        {
            assert(self.senders@[i as int].wf());
            assert(pre[i as int].has_room_for(event));
            match self.senders[i].send_audio(i as u32, event, now) {
                Some(message) => {
                    sent.push((i, message));
                },
                None => {},
            }
            i += 1;
        }
        assert(self.states() =~= after_audio::<V, F>(pre, event, now));
        sent
    }

    fn send_config_to_each<V: Copy, F: Clone>(&mut self, event: ChannelConfigEvent<F>) -> (sent: Vec<
        (usize, Outgoing<V, F>),
    >)
        requires
            old(self).wf(),
        ensures
            final(self).wf(),
            final(self).render_mode() == old(self).render_mode(),
            final(self).states() == old(self).states(),
            sent@.len() == old(self).states().len(),
            forall|i: int|
                0 <= i < sent@.len() ==> is_config_for(
                    old(self).states()[i].mode,
                    i,
                    event,
                    #[trigger] sent@[i],
                ),
    {
        let mut sent: Vec<(usize, Outgoing<V, F>)> = Vec::new();
        let mut i: usize = 0;
        while i < self.senders.len()
            invariant
                i <= self.senders@.len(),
                *self == *old(self),
                self.wf(),
                sent@.len() == i,
                forall|j: int|
                    0 <= j < i ==> is_config_for(
                        old(self).states()[j].mode,
                        j,
                        event,
                        #[trigger] sent@[j],
                    ),
            decreases self.senders@.len() - i,
        {
            let copy = copy_config(&event);
            let ghost sent_copy = copy;
            let message = self.senders[i].send_config(i as u32, copy);
            sent.push((i, message));
            proof {
                assert(is_copy_of(event, sent_copy));
                assert(is_config_for(
                    old(self).states()[i as int].mode,
                    i as int,
                    event,
                    sent@[i as int],
                ));
            }
            i += 1;
        }
        sent
    }

    /// Changes the range of velocities that will be ignored for the
    /// specific sender instance.
    pub fn set_ignore_range(&mut self, ignore_range: ByteRange)
        requires
            old(self).wf(),
        ensures
            final(self).wf(),
            final(self).render_mode() == old(self).render_mode(),
            final(self).states() == old(self).states().map_values(
                |state: SenderState| SenderState { ignored: ignore_range, ..state },
            ),
    {
        let ghost pre = self.states();
        let mut i: usize = 0;
        while i < self.senders.len()
            invariant
                i <= self.senders@.len(),
                self.senders@.len() == pre.len(),
                self.mode == old(self).mode,
                self.wf(),
                forall|j: int|
                    0 <= j < i ==> (#[trigger] self.senders@[j]).now() == (SenderState {
                        ignored: ignore_range,
                        ..pre[j]
                    }),
                forall|j: int|
                    i <= j < pre.len() ==> (#[trigger] self.senders@[j]).now() == pre[j],
            decreases self.senders@.len() - i,
        {
            assert(self.senders@[i as int].wf());
            self.senders[i].set_ignore_range(ignore_range);
            i += 1;
        }
        assert(self.states() =~= pre.map_values(
            |state: SenderState| SenderState { ignored: ignore_range, ..state },
        ));
    }

    /// Forgets the notes that every sender held back.
    fn forget_skipped(&mut self)
        requires
            old(self).wf(),
        ensures
            final(self).wf(),
            final(self).render_mode() == old(self).render_mode(),
            final(self).states() == without_skipped(old(self).states()),
    {
        let ghost pre = self.states();
        let mut i: usize = 0;
        while i < self.senders.len()
            invariant
                i <= self.senders@.len(),
                self.senders@.len() == pre.len(),
                self.mode == old(self).mode,
                self.wf(),
                forall|j: int|
                    0 <= j < i ==> (#[trigger] self.senders@[j]).now() == (SenderState {
                        skipped: none_skipped(),
                        ..pre[j]
                    }),
                forall|j: int|
                    i <= j < pre.len() ==> (#[trigger] self.senders@[j]).now() == pre[j],
            decreases self.senders@.len() - i,
        {
            assert(self.senders@[i as int].wf());
            self.senders[i].forget_skipped();
            i += 1;
        }
        assert(self.states() =~= without_skipped(pre));
    }

    /// Resets all note and control change data of the realtime synthesizer.
    pub fn reset_synth<V: Copy, F: Clone>(&mut self, now: u64) -> (sent: Vec<
        (usize, Outgoing<V, F>),
    >)
        requires
            old(self).wf(),
        ensures
            final(self).wf(),
            final(self).render_mode() == old(self).render_mode(),
            resets::<V, F>(
                old(self).render_mode(),
                old(self).states(),
                now,
                final(self).states(),
                sent@,
            ),
    {
        let ghost pre = self.states();
        let mut sent = self.send_event(
            SynthEvent::AllChannels(ChannelEvent::Audio(ChannelAudioEvent::AllNotesKilled)),
            now,
        );
        let ghost killed = sent@;
        proof {
            lemma_plain_event_keeps_states::<V, F>(
                self.render_mode(),
                pre,
                ChannelAudioEvent::AllNotesKilled,
                now,
                self.states(),
                killed,
            );
        }
        self.forget_skipped();
        let ghost mid = self.states();
        let mut more = self.send_event(
            SynthEvent::AllChannels(ChannelEvent::Audio(ChannelAudioEvent::ResetControl)),
            now,
        );
        let ghost reset = more@;
        proof {
            lemma_plain_event_keeps_states::<V, F>(
                self.render_mode(),
                mid,
                ChannelAudioEvent::ResetControl,
                now,
                self.states(),
                reset,
            );
        }
        sent.append(&mut more);
        assert(sent@ =~= killed + reset);
        sent
    }
}

/// The bytes of a MIDI message in a number, the first one least significant.
pub open spec fn midi_byte(event: u32, i: int) -> u8 {
    (if i == 0 {
        event % 0x100
    } else if i == 1 {
        event / 0x100 % 0x100
    } else {
        event / 0x1_0000 % 0x100
    }) as u8
}

/// The position of the pitch wheel that two data bytes stand for, from -8192.
pub open spec fn wheel_position(low: u8, high: u8) -> int {
    (((high as i16) << 7) | low as i16) - 8192
}

/// Whether `event` is the event for one channel that a MIDI message stands for. A message is a
/// status and two data bytes; the status is a code and a channel.
pub open spec fn is_midi_event<V: Scalar, F>(message: u32, event: SynthEvent<V, F>) -> bool {
    let channel = (midi_byte(message, 0) % 16) as u32;
    let code = midi_byte(message, 0) / 16;
    let low = midi_byte(message, 1);
    let high = midi_byte(message, 2);
    &&& event matches SynthEvent::Channel(c, ChannelEvent::Audio(e)) && c == channel && match code {
        0x8 => e == (ChannelAudioEvent::<V>::NoteOff { key: low }),
        0x9 => e == (ChannelAudioEvent::<V>::NoteOn { key: low, vel: high }),
        0xB => e == ChannelAudioEvent::<V>::Control(ControlEvent::Raw(low, high)),
        0xC => e == ChannelAudioEvent::<V>::ProgramChange(low),
        0xE => e matches ChannelAudioEvent::Control(ControlEvent::PitchBendValue(value))
            && scalar::is_ratio(wheel_position(low, high), 8192, value),
        _ => false,
    }
}

/// Whether a MIDI message stands for an event for one channel.
pub open spec fn has_midi_event(message: u32) -> bool {
    let code = midi_byte(message, 0) / 16;
    code == 0x8 || code == 0x9 || code == 0xB || code == 0xC || code == 0xE
}

/// The event that a MIDI message stands for, if any.
pub fn decode_u32<V: Scalar, F>(event: u32) -> (decoded: Option<SynthEvent<V, F>>)
    ensures
        decoded is Some <==> has_midi_event(event),
        decoded matches Some(e) ==> is_midi_event(event, e),
{
    let head: u32 = event & 0xFF;
    let channel: u32 = head & 0xF;
    let code: u32 = head >> 4;
    let low: u8 = (event >> 8) as u8;
    let high: u8 = (event >> 16) as u8;
    assert(head == event % 0x100) by (bit_vector)
        requires
            head == event & 0xFF,
    ;
    assert(channel == head % 16 && code == head / 16) by (bit_vector)
        requires
            channel == head & 0xF,
            code == head >> 4,
    ;
    assert(low == event / 0x100 % 0x100 && high == event / 0x1_0000 % 0x100) by (bit_vector)
        requires
            low == (event >> 8) as u8,
            high == (event >> 16) as u8,
    ;
    let audio = match code {
        0x8 => ChannelAudioEvent::NoteOff { key: low },
        0x9 => ChannelAudioEvent::NoteOn { key: low, vel: high },
        0xB => ChannelAudioEvent::Control(ControlEvent::Raw(low, high)),
        0xC => ChannelAudioEvent::ProgramChange(low),
        0xE => {
            let bits: i16 = ((high as i16) << 7) | low as i16;
            assert(0 <= bits) by (bit_vector)
                requires
                    bits == ((high as i16) << 7) | low as i16,
            ;
            let position: i16 = bits - 8192;
            let value = scalar::ratio(position as i64, 8192);
            ChannelAudioEvent::Control(ControlEvent::PitchBendValue(value))
        },
        _ => {
            return None;
        },
    };
    Some(SynthEvent::Channel(channel, ChannelEvent::Audio(audio)))
}

/// For data bytes as MIDI has them, of seven bits each, the pitch wheel runs from -8192 to 8191, in
/// steps of one.
pub proof fn lemma_wheel_position(low: u8, high: u8)
    requires
        low < 128,
        high < 128,
    ensures
        wheel_position(low, high) == high * 128 + low - 8192,
{
    assert(((high as i16) << 7) | low as i16 == high * 128 + low) by (bit_vector)
        requires
            low < 128u8,
            high < 128u8,
    ;
}

impl RealtimeEventSender {
    /// Sends a MIDI event as raw bytes: tells which sender hands on what.
    pub fn send_event_u32<V: Scalar, F: Clone>(&mut self, event: u32, now: u64) -> (sent: Vec<
        (usize, Outgoing<V, F>),
    >)
        requires
            old(self).wf(),
            old(self).has_room_for_message(event),
        ensures
            final(self).wf(),
            final(self).render_mode() == old(self).render_mode(),
            if has_midi_event(event) {
                exists|decoded: SynthEvent<V, F>| #[trigger]
                    is_midi_event(event, decoded) && delivers(
                        old(self).render_mode(),
                        old(self).states(),
                        decoded,
                        now,
                        final(self).states(),
                        sent@,
                    )
            } else {
                final(self).states() == old(self).states() && sent@.len() == 0
            },
    {
        match decode_u32::<V, F>(event) {
            Some(decoded) => self.send_event(decoded, now),
            None => Vec::new(),
        }
    }
}

/// The senders without the notes that they held back.
pub open spec fn without_skipped(states: Seq<SenderState>) -> Seq<SenderState> {
    states.map_values(|state: SenderState| SenderState { skipped: none_skipped(), ..state })
}

/// Whether a reset turns the senders `pre` into `post`, and sends `sent`: all channels are told to
/// kill their notes and then to reset their controls, and no note counts as held back any more.
pub open spec fn resets<V, F: Clone>(
    mode: RealtimeRenderMode,
    pre: Seq<SenderState>,
    now: u64,
    post: Seq<SenderState>,
    sent: Seq<(usize, Outgoing<V, F>)>,
) -> bool {
    &&& post == without_skipped(pre)
    &&& exists|killed: Seq<(usize, Outgoing<V, F>)>, reset: Seq<(usize, Outgoing<V, F>)>|
        {
            &&& #[trigger] delivers(
                mode,
                pre,
                SynthEvent::AllChannels(ChannelEvent::Audio(ChannelAudioEvent::AllNotesKilled)),
                now,
                pre,
                killed,
            )
            &&& #[trigger] delivers(
                mode,
                post,
                SynthEvent::AllChannels(ChannelEvent::Audio(ChannelAudioEvent::ResetControl)),
                now,
                post,
                reset,
            )
            &&& sent == killed + reset
        }
}

/// An event that is not a note leaves the senders as they are.
proof fn lemma_plain_event_keeps_states<V, F: Clone>(
    mode: RealtimeRenderMode,
    pre: Seq<SenderState>,
    event: ChannelAudioEvent<V>,
    now: u64,
    post: Seq<SenderState>,
    sent: Seq<(usize, Outgoing<V, F>)>,
)
    requires
        delivers::<V, F>(
            mode,
            pre,
            SynthEvent::AllChannels(ChannelEvent::Audio(event)),
            now,
            post,
            sent,
        ),
        !(event is NoteOn) && !(event is NoteOff),
    ensures
        post == pre,
{
    assert(post =~= pre);
}

/// A raw message is decoded as MIDI has it. The status is a code and a channel; the codes 8, 9, 11, 12 and
/// 14 end a note, start a note, change a control, select a program and move the pitch wheel, by the two
/// data bytes that follow. The wheel is where its 14 bits put it: negative below the middle, positive
/// above it, over 8192. Other codes mean nothing.
pub proof fn lemma_decodes_messages<V: Scalar, F>(
    code: u8,
    channel: u8,
    low: u8,
    high: u8,
    rest: u8,
    message: u32,
    decoded: Option<SynthEvent<V, F>>,
)
    requires
        code < 16,
        channel < 16,
        message == code * 0x10 + channel + low * 0x100 + high * 0x1_0000 + rest * 0x100_0000,
        call_ensures(decode_u32::<V, F>, (message,), decoded),
    ensures
        code == 8 ==> decoded == Some(
            audio_for::<V, F>(channel, ChannelAudioEvent::NoteOff { key: low }),
        ),
        code == 9 ==> decoded == Some(
            audio_for::<V, F>(channel, ChannelAudioEvent::NoteOn { key: low, vel: high }),
        ),
        code == 11 ==> decoded == Some(
            audio_for::<V, F>(channel, ChannelAudioEvent::Control(ControlEvent::Raw(low, high))),
        ),
        code == 12 ==> decoded == Some(
            audio_for::<V, F>(channel, ChannelAudioEvent::ProgramChange(low)),
        ),
        code == 14 ==> exists|bend: V| #[trigger]
            call_ensures(V::ratio, (wheel_at(low, high) as i64, 8192i64), bend) && decoded
                == Some(
                audio_for::<V, F>(
                    channel,
                    ChannelAudioEvent::Control(ControlEvent::PitchBendValue(bend)),
                ),
            ),
        code != 8 && code != 9 && code != 11 && code != 12 && code != 14 ==> decoded is None,
{
    lemma_message_bytes(code, channel, low, high, rest, message);
    lemma_wheel_at(low, high);
    if code == 14 {
        let bend = match decoded {
            Some(
                SynthEvent::Channel(
                    _,
                    ChannelEvent::Audio(
                        ChannelAudioEvent::Control(ControlEvent::PitchBendValue(bend)),
                    ),
                ),
            ) => bend,
            _ => arbitrary(),
        };
        assert(call_ensures(V::ratio, (wheel_at(low, high) as i64, 8192i64), bend));
    }
}

/// Where two data bytes put the pitch wheel, from its middle. The high byte counts in steps of 128. The
/// top bit of a low byte, which MIDI leaves clear, is one such step, unless the high byte has it already.
pub open spec fn wheel_at(low: u8, high: u8) -> int {
    high * 128 + low - 8192 - (if low >= 128 && high % 2 == 1 {
        128int
    } else {
        0
    })
}

/// The bits of the pitch wheel.
proof fn lemma_wheel_at(low: u8, high: u8)
    ensures
        wheel_position(low, high) == wheel_at(low, high),
{
    assert(((high as i16) << 7) | low as i16 == high * 128 + low - (if low >= 128u8 && high % 2u8
        == 1u8 {
        128i16
    } else {
        0i16
    })) by (bit_vector);
}

/// The bytes of a message.
proof fn lemma_message_bytes(code: u8, channel: u8, low: u8, high: u8, rest: u8, message: u32)
    requires
        code < 16,
        channel < 16,
        message == code * 0x10 + channel + low * 0x100 + high * 0x1_0000 + rest * 0x100_0000,
    ensures
        midi_byte(message, 0) == code * 0x10 + channel,
        midi_byte(message, 0) / 16 == code,
        midi_byte(message, 0) % 16 == channel,
        midi_byte(message, 1) == low,
        midi_byte(message, 2) == high,
{
    let status = code * 0x10 + channel;
    assert(message % 0x100 == status);
    assert(message / 0x100 % 0x100 == low);
    assert(message / 0x1_0000 % 0x100 == high);
}

/// An event to play, for one channel.
pub open spec fn audio_for<V, F>(channel: u8, event: ChannelAudioEvent<V>) -> SynthEvent<V, F> {
    SynthEvent::Channel(channel as u32, ChannelEvent::Audio(event))
}

/// The higher the pitch wheel of a channel stands, the higher the position that its message decodes to,
/// and it is positive exactly when the wheel stands above its middle.
pub proof fn lemma_wheel_up_bends_up<V: Scalar, F>(
    channel: u8,
    low: u8,
    high: u8,
    message: u32,
    decoded: Option<SynthEvent<V, F>>,
    other_low: u8,
    other_high: u8,
    other_message: u32,
    other_decoded: Option<SynthEvent<V, F>>,
)
    requires
        channel < 16,
        low < 128,
        high < 128,
        other_low < 128,
        other_high < 128,
        message == 0xE0 + channel + low * 0x100 + high * 0x1_0000,
        other_message == 0xE0 + channel + other_low * 0x100 + other_high * 0x1_0000,
        call_ensures(decode_u32::<V, F>, (message,), decoded),
        call_ensures(decode_u32::<V, F>, (other_message,), other_decoded),
    ensures
        exists|num: int, bend: V, other_num: int, other_bend: V|
            {
                &&& #[trigger] bends_to(channel, decoded, num, bend)
                &&& #[trigger] bends_to(channel, other_decoded, other_num, other_bend)
                &&& num > 0 <==> high > 64 || high == 64 && low > 0
                &&& num == 0 <==> high == 64 && low == 0
                &&& num < other_num <==> high < other_high || high == other_high && low < other_low
                &&& -8192 <= num < 8192
            },
{
    lemma_decodes_messages::<V, F>(14, channel, low, high, 0, message, decoded);
    lemma_decodes_messages::<V, F>(
        14,
        channel,
        other_low,
        other_high,
        0,
        other_message,
        other_decoded,
    );
    let num = high * 128 + low - 8192;
    let other_num = other_high * 128 + other_low - 8192;
    let bend = choose|bend: V| #[trigger]
        call_ensures(V::ratio, (num as i64, 8192i64), bend) && decoded == Some(
            audio_for::<V, F>(
                channel,
                ChannelAudioEvent::Control(ControlEvent::PitchBendValue(bend)),
            ),
        );
    let other_bend = choose|bend: V| #[trigger]
        call_ensures(V::ratio, (other_num as i64, 8192i64), bend) && other_decoded == Some(
            audio_for::<V, F>(
                channel,
                ChannelAudioEvent::Control(ControlEvent::PitchBendValue(bend)),
            ),
        );
    assert(bends_to(channel, decoded, num, bend));
    assert(bends_to(channel, other_decoded, other_num, other_bend));
}

/// Whether a message moves the pitch wheel of a channel to `bend`, which is `num / 8192`.
pub open spec fn bends_to<V: Scalar, F>(
    channel: u8,
    decoded: Option<SynthEvent<V, F>>,
    num: int,
    bend: V,
) -> bool {
    &&& call_ensures(V::ratio, (num as i64, 8192i64), bend)
    &&& decoded == Some(
        SynthEvent::<V, F>::Channel(
            channel as u32,
            ChannelEvent::Audio(ChannelAudioEvent::Control(ControlEvent::PitchBendValue(bend))),
        ),
    )
}

/// A note is played when its share of the highest velocity is larger than the share of the limit that
/// the notes of the last second take. So of two notes the louder one is played where the softer one
/// is, fewer notes let no fewer pass, and at the limit none of a MIDI velocity does. A limit of none
/// or of the largest number lets every note pass.
pub proof fn lemma_limit_keeps_loud_notes(vel: u8, nps: u64, max: u64, send: bool)
    requires
        call_ensures(should_send_for_vel_and_nps, (vel, nps, max), send),
    ensures
        max == 0 || max == u64::MAX ==> send,
        max != 0 && max != u64::MAX ==> (send <==> vel * max > held_down(nps * 127)),
{
    lemma_limit_share(vel, nps, max);
}

/// A number, held down to the largest that can be counted.
pub open spec fn held_down(n: int) -> int {
    if n <= 0xffff_ffff_ffff_ffff {
        n
    } else {
        0xffff_ffff_ffff_ffff
    }
}

/// The notes of some windows together, the last one last.
pub open spec fn notes_in(windows: Seq<NpsWindow>) -> int
    decreases windows.len(),
{
    if windows.len() == 0 {
        0
    } else {
        notes_in(windows.drop_last()) + windows.last().notes
    }
}

proof fn lemma_notes_in(windows: Seq<NpsWindow>)
    ensures
        notes_in(windows) == notes_of(windows),
    decreases windows.len(),
{
    if windows.len() > 0 {
        lemma_notes_in(windows.drop_last());
        lemma_notes_push(windows.drop_last(), windows.last());
        assert(windows.drop_last().push(windows.last()) =~= windows);
    }
}

/// Whether the estimate of a count at `now` is `nps`, and leaves `after`. A window of 20 milliseconds is
/// closed when it is over. The windows at the front that began a second before the present one are
/// dropped, up to the first that did not. The estimate is all notes that are left, or two thirds of
/// a hundred times the notes of the present window, whichever is more.
pub open spec fn estimates(before: NpsCount, now: u64, after: NpsCount, nps: int) -> bool {
    let closes = now >= before.since + 20_000_000;
    &&& after.since == if closes {
        now
    } else {
        before.since
    }
    &&& after.current == if closes {
        0
    } else {
        before.current
    }
    &&& if closes {
        is_recent(
            before.windows.push(NpsWindow { time: before.since, notes: before.current }),
            after.since,
            after.windows,
        )
    } else {
        is_recent(before.windows, after.since, after.windows)
    }
    &&& nps >= notes_in(after.windows) + after.current
    &&& 3 * nps > after.current * 200 - 3
    &&& nps == notes_in(after.windows) + after.current || 3 * nps <= after.current * 200
}

/// Whether `left` are the windows without those at the front that began a second before `since`.
pub open spec fn is_recent(windows: Seq<NpsWindow>, since: u64, left: Seq<NpsWindow>) -> bool {
    exists|k: int| #[trigger] drops_old(windows, since, k) && left == windows.skip(k)
}

/// Whether the first `k` windows, and no more in a row, began a second before `since`.
pub open spec fn drops_old(windows: Seq<NpsWindow>, since: u64, k: int) -> bool {
    &&& 0 <= k <= windows.len()
    &&& forall|i: int| 0 <= i < k ==> since >= (#[trigger] windows[i]).time + 1_000_000_000
    &&& k < windows.len() ==> since < windows[k].time + 1_000_000_000
}

/// The estimate of the notes per second goes by the notes of the last second, and every note counts.
pub proof fn lemma_notes_per_second(
    tracker: &mut RoughNpsTracker,
    now: u64,
    nps: u64,
    counting: &mut RoughNpsTracker,
)
    requires
        old(tracker).wf(),
        call_ensures(RoughNpsTracker::calculate_nps, (tracker, now), nps),
        old(counting).wf(),
        old(counting).counted().total() < MOST_NOTES,
        call_ensures(RoughNpsTracker::add_note, (counting,), ()),
    ensures
        estimates(old(tracker).counted(), now, final(tracker).counted(), nps as int),
        final(counting).counted().windows == old(counting).counted().windows,
        final(counting).counted().current == old(counting).counted().current + 1,
        final(counting).counted().since == old(counting).counted().since,
{
    lemma_estimates(old(tracker).counted(), now);
    lemma_notes_nonnegative(old(counting).counted().windows);
}

proof fn lemma_estimates(before: NpsCount, now: u64)
    ensures
        estimates(before, now, before.rolled(now).trimmed(), before.rolled(now).trimmed().nps()),
{
    let rolled = before.rolled(now);
    let after = rolled.trimmed();
    let k = lemma_recent_skips(rolled.windows, rolled.since);
    assert(drops_old(rolled.windows, after.since, k));
    lemma_notes_in(after.windows);
}

proof fn lemma_recent_skips(windows: Seq<NpsWindow>, now: u64) -> (k: int)
    ensures
        drops_old(windows, now, k),
        recent(windows, now) == windows.skip(k),
    decreases windows.len(),
{
    if windows.len() > 0 && is_old(windows[0], now) {
        let rest = windows.drop_first();
        let k = lemma_recent_skips(rest, now);
        assert(rest.skip(k) =~= windows.skip(k + 1));
        assert forall|i: int| 0 <= i < k + 1 implies now >= (#[trigger] windows[i]).time
            + 1_000_000_000 by {
            if i > 0 {
                assert(rest[i - 1] == windows[i]);
            }
        }
        if k + 1 < windows.len() {
            assert(rest[k] == windows[k + 1]);
        }
        k + 1
    } else {
        assert(windows.skip(0) =~= windows);
        0
    }
}

/// A message in the form in which a sender hands it on: alone to the thread of its channel, or with the
/// number of its channel to the renderer of all.
pub open spec fn is_handed_on<V, F>(
    mode: RealtimeRenderMode,
    channel: u32,
    event: ChannelEvent<V, F>,
    message: Outgoing<V, F>,
) -> bool {
    match message {
        Outgoing::ToChannel(e) => mode == RealtimeRenderMode::Threaded && e == event,
        Outgoing::ToSynth(e) => mode == RealtimeRenderMode::ChannelGroup && e
            == SynthEvent::Channel(channel, event),
    }
}

/// Whether a sender answers the start of a note at `nps` notes per second as it should.
pub open spec fn sends_or_holds_back<V, F>(
    pre: SenderState,
    channel: u32,
    key: u8,
    vel: u8,
    counted: NpsCount,
    nps: int,
    post: SenderState,
    message: Option<Outgoing<V, F>>,
) -> bool {
    let ignored = pre.ignored.low <= vel <= pre.ignored.high;
    let passes = pre.max_nps == 0 || pre.max_nps == u64::MAX || vel * pre.max_nps > held_down(
        nps * 127,
    );
    if passes && !ignored {
        &&& message is Some
        &&& is_handed_on(
            pre.mode,
            channel,
            ChannelEvent::Audio(ChannelAudioEvent::NoteOn { key, vel }),
            message->0,
        )
        &&& post.skipped == pre.skipped
        &&& post.count.current == counted.current + 1
        &&& post.count.windows == counted.windows
    } else {
        &&& message is None
        &&& post.skipped[key as int] == pre.skipped[key as int] + 1
        &&& forall|k: int|
            0 <= k < 128 && k != key ==> #[trigger] post.skipped[k] == pre.skipped[k]
        &&& post.count == counted
    }
}

/// Whether a sender answers the start of a note by the notes that it has counted.
pub open spec fn answers_note_on<V, F>(
    pre: SenderState,
    channel: u32,
    key: u8,
    vel: u8,
    now: u64,
    post: SenderState,
    message: Option<Outgoing<V, F>>,
) -> bool {
    exists|counted: NpsCount, nps: int| #[trigger]
        estimates(pre.count, now, counted, nps) && sends_or_holds_back(
            pre,
            channel,
            key,
            vel,
            counted,
            nps,
            post,
            message,
        )
}

/// Whether a sender answers the end of a note: it holds it back where a note of the key that was held
/// back has not ended yet, and hands it on where none has.
pub open spec fn answers_note_off<V, F>(
    pre: SenderState,
    channel: u32,
    key: u8,
    post: SenderState,
    message: Option<Outgoing<V, F>>,
) -> bool {
    &&& post.count == pre.count
    &&& forall|k: int| 0 <= k < 128 && k != key ==> #[trigger] post.skipped[k] == pre.skipped[k]
    &&& pre.skipped[key as int] > 0 ==> message is None && post.skipped[key as int] + 1
        == pre.skipped[key as int]
    &&& pre.skipped[key as int] == 0 ==> post.skipped[key as int] == 0 && message is Some
        && is_handed_on(
        pre.mode,
        channel,
        ChannelEvent::Audio(ChannelAudioEvent::NoteOff { key }),
        message->0,
    )
}

/// Whether a sender answers an event to play: notes by the limit and the velocities to ignore, and
/// everything else by handing it on. A key above 127 does not exist.
pub open spec fn answers_event<V, F>(
    pre: SenderState,
    channel: u32,
    event: ChannelAudioEvent<V>,
    now: u64,
    post: SenderState,
    message: Option<Outgoing<V, F>>,
) -> bool {
    &&& post.mode == pre.mode
    &&& post.max_nps == pre.max_nps
    &&& post.ignored == pre.ignored
    &&& match event {
        ChannelAudioEvent::NoteOn { key, vel } => if key > 127 {
            message is None && post == pre
        } else {
            answers_note_on(pre, channel, key, vel, now, post, message)
        },
        ChannelAudioEvent::NoteOff { key } => if key > 127 {
            message is None && post == pre
        } else {
            answers_note_off(pre, channel, key, post, message)
        },
        _ => {
            &&& post == pre
            &&& message is Some
            &&& is_handed_on(pre.mode, channel, ChannelEvent::Audio(event), message->0)
        },
    }
}

/// When the limit lets a velocity pass.
proof fn lemma_limit_share(vel: u8, nps: u64, max: u64)
    ensures
        is_loud_enough(vel, nps, max) <==> max == 0 || max == u64::MAX || vel * max > held_down(
            nps * 127,
        ),
{
    if max > 0 {
        let (v, m, n) = (vel as int, max as int, held_down(nps * 127));
        vstd::arithmetic::div_mod::lemma_fundamental_div_mod(n, m);
        vstd::arithmetic::div_mod::lemma_mod_bound(n, m);
        let q = n / m;
        assert(v > q ==> v * m > n) by (nonlinear_arith)
            requires
                n == m * q + n % m,
                0 <= n % m < m,
        ;
        assert(v * m > n ==> v > q) by (nonlinear_arith)
            requires
                n == m * q + n % m,
                0 <= n % m < m,
        ;
    }
}

/// What a sender sends answers the event.
proof fn lemma_sends_answers<V, F>(
    state: SenderState,
    channel: u32,
    event: ChannelAudioEvent<V>,
    now: u64,
)
    requires
        state.skipped.len() == 128,
        state.has_room_for(event),
    ensures
        answers_event::<V, F>(
            state,
            channel,
            event,
            now,
            state.sends::<V, F>(channel, event, now).0,
            state.sends::<V, F>(channel, event, now).1,
        ),
{
    if let ChannelAudioEvent::NoteOn { key, vel } = event {
        if key <= 127 {
            let counted = state.count.rolled(now).trimmed();
            lemma_estimates(state.count, now);
            lemma_rolled_total(state.count, now);
            lemma_notes_nonnegative(counted.windows);
            let nps = counted.nps();
            lemma_limit_share(vel, nps as u64, state.max_nps);
            assert(estimates(state.count, now, counted, nps));
        }
    }
}

/// The start of a note is sent, and counted, where the limit lets its velocity pass and that is not one
/// to ignore. Else nothing is sent, and one more note of its key counts as held back. The end of a
/// note is held back for each that was. The counts of other keys stay as they are.
pub proof fn lemma_notes_are_sent_or_held_back<V, F>(
    starting: &mut EventSender,
    ending: &mut EventSender,
    channel: u32,
    key: u8,
    vel: u8,
    now: u64,
    start: Option<Outgoing<V, F>>,
    end: Option<Outgoing<V, F>>,
)
    requires
        key <= 127,
        old(starting).now().has_room_for(ChannelAudioEvent::<V>::NoteOn { key, vel }),
        call_ensures(
            EventSender::send_note_on::<V, F>,
            (starting, channel, key, vel, now),
            start,
        ),
        call_ensures(EventSender::send_note_off::<V, F>, (ending, channel, key), end),
    ensures
        answers_note_on(
            old(starting).now(),
            channel,
            key,
            vel,
            now,
            final(starting).now(),
            start,
        ),
        answers_note_off(old(ending).now(), channel, key, final(ending).now(), end),
        final(starting).now().mode == old(starting).now().mode,
        final(starting).now().max_nps == old(starting).now().max_nps,
        final(starting).now().ignored == old(starting).now().ignored,
{
    assert(old(starting).now().skipped.len() == 128);
    assert(old(ending).now().skipped.len() == 128);
    lemma_sends_answers::<V, F>(
        old(starting).now(),
        channel,
        ChannelAudioEvent::NoteOn { key, vel },
        now,
    );
    lemma_sends_answers::<V, F>(
        old(ending).now(),
        channel,
        ChannelAudioEvent::NoteOff { key },
        0,
    );
}

/// How a note is answered does not depend on the way it comes: as an event to play, or as one for a
/// channel among many.
pub proof fn lemma_events_are_answered<V: Copy, F: Clone>(
    sender: &mut EventSender,
    channel: u32,
    event: ChannelAudioEvent<V>,
    now: u64,
    message: Option<Outgoing<V, F>>,
    senders: &mut RealtimeEventSender,
    sent: Vec<(usize, Outgoing<V, F>)>,
)
    requires
        old(sender).now().has_room_for(event),
        call_ensures(
            EventSender::send_audio::<V, F>,
            (sender, channel, event, now),
            message,
        ),
        channel < old(senders).states().len(),
        old(senders).states()[channel as int].has_room_for(event),
        call_ensures(
            RealtimeEventSender::send_event::<V, F>,
            (senders, SynthEvent::Channel(channel, ChannelEvent::Audio(event)), now),
            sent,
        ),
    ensures
        answers_event(old(sender).now(), channel, event, now, final(sender).now(), message),
        sent@.len() <= 1,
        answers_event(
            old(senders).states()[channel as int],
            channel,
            event,
            now,
            final(senders).states()[channel as int],
            if sent@.len() == 1 {
                Some(sent@[0].1)
            } else {
                None
            },
        ),
{
    assert(old(sender).now().skipped.len() == 128);
    lemma_sends_answers::<V, F>(old(sender).now(), channel, event, now);
    let state = old(senders).states()[channel as int];
    assert(state.skipped.len() == 128);
    lemma_sends_answers::<V, F>(state, channel, event, now);
}

/// The messages that there are, each with its number, in order.
pub open spec fn numbered<V, F>(messages: Seq<Option<Outgoing<V, F>>>) -> Seq<
    (usize, Outgoing<V, F>),
>
    decreases messages.len(),
{
    if messages.len() == 0 {
        Seq::empty()
    } else if messages.last() is Some {
        numbered(messages.drop_last()).push(
            ((messages.len() - 1) as usize, messages.last()->0),
        )
    } else {
        numbered(messages.drop_last())
    }
}

/// Whether each sender answers an event with its message.
pub open spec fn each_answers<V, F>(
    pre: Seq<SenderState>,
    event: ChannelAudioEvent<V>,
    now: u64,
    post: Seq<SenderState>,
    messages: Seq<Option<Outgoing<V, F>>>,
) -> bool {
    &&& post.len() == pre.len()
    &&& messages.len() == pre.len()
    &&& forall|i: int|
        0 <= i < pre.len() ==> answers_event(
            pre[i],
            i as u32,
            event,
            now,
            post[i],
            #[trigger] messages[i],
        )
}

/// Where each channel has a thread of its own, an event to play for all of them is answered by each
/// sender as if it were for its channel alone.
pub proof fn lemma_each_sender_answers<V: Copy, F: Clone>(
    senders: &mut RealtimeEventSender,
    event: ChannelAudioEvent<V>,
    now: u64,
    sent: Vec<(usize, Outgoing<V, F>)>,
)
    requires
        old(senders).render_mode() == RealtimeRenderMode::Threaded,
        forall|i: int|
            0 <= i < old(senders).states().len() ==> (
            #[trigger] old(senders).states()[i]).has_room_for(event),
        call_ensures(
            RealtimeEventSender::send_event::<V, F>,
            (senders, SynthEvent::AllChannels(ChannelEvent::Audio(event)), now),
            sent,
        ),
    ensures
        exists|messages: Seq<Option<Outgoing<V, F>>>| #[trigger]
            each_answers(
                old(senders).states(),
                event,
                now,
                final(senders).states(),
                messages,
            ) && sent@ == numbered(messages),
{
    let pre = old(senders).states();
    let post = final(senders).states();
    let answers = Seq::new(pre.len(), |i: int| pre[i].sends::<V, F>(i as u32, event, now).1);
    assert forall|i: int| 0 <= i < pre.len() implies answers_event(
        pre[i],
        i as u32,
        event,
        now,
        post[i],
        #[trigger] answers[i],
    ) by {
        assert(pre[i].skipped.len() == 128);
        lemma_sends_answers::<V, F>(pre[i], i as u32, event, now);
    }
    assert(each_answers(pre, event, now, post, answers));
    lemma_numbered::<V, F>(pre, event, now, pre.len() as int);
    assert(answers.take(pre.len() as int) =~= answers);
}

/// The messages of the first senders.
proof fn lemma_numbered<V, F>(
    pre: Seq<SenderState>,
    event: ChannelAudioEvent<V>,
    now: u64,
    n: int,
)
    requires
        0 <= n <= pre.len(),
    ensures
        messages::<V, F>(pre, event, now, n) == numbered(
            Seq::new(pre.len(), |i: int| pre[i].sends::<V, F>(i as u32, event, now).1).take(n),
        ),
    decreases n,
{
    let answers = Seq::new(pre.len(), |i: int| pre[i].sends::<V, F>(i as u32, event, now).1);
    if n > 0 {
        lemma_numbered::<V, F>(pre, event, now, n - 1);
        assert(answers.take(n).drop_last() =~= answers.take(n - 1));
        assert(answers.take(n).last() == answers[n - 1]);
    }
}

/// A change of setup for all channels reaches each of them, as a copy, where each has a thread of its
/// own; else the renderer of all channels gets it once. The senders stay as they are.
pub proof fn lemma_setup_reaches_all_channels<V: Copy, F: Clone>(
    senders: &mut RealtimeEventSender,
    event: ChannelConfigEvent<F>,
    now: u64,
    sent: Vec<(usize, Outgoing<V, F>)>,
)
    requires
        forall|i: int|
            0 <= i < old(senders).states().len() ==> (#[trigger] old(senders).states()[i]).mode
                == old(senders).render_mode(),
        call_ensures(
            RealtimeEventSender::send_event::<V, F>,
            (senders, SynthEvent::AllChannels(ChannelEvent::Config(event)), now),
            sent,
        ),
    ensures
        final(senders).states() == old(senders).states(),
        old(senders).render_mode() == RealtimeRenderMode::Threaded ==> {
            &&& sent@.len() == old(senders).states().len()
            &&& forall|i: int|
                0 <= i < sent@.len() ==> (#[trigger] sent@[i]).0 == i && is_setup_copy(
                    event,
                    sent@[i].1,
                )
        },
        old(senders).render_mode() == RealtimeRenderMode::ChannelGroup && old(
            senders).states().len() > 0 ==> sent@.len() == 1 && sent@[0].1 == Outgoing::<
            V,
            F,
        >::ToSynth(SynthEvent::AllChannels(ChannelEvent::Config(event))),
{
    if old(senders).render_mode() == RealtimeRenderMode::Threaded {
        assert forall|i: int| 0 <= i < sent@.len() implies (#[trigger] sent@[i]).0 == i
            && is_setup_copy(event, sent@[i].1) by {
            assert(old(senders).states()[i].mode == RealtimeRenderMode::Threaded);
            assert(is_config_for(RealtimeRenderMode::Threaded, i, event, sent@[i]));
        }
    }
}

/// Whether a message hands a copy of a change of setup to the thread of a channel.
pub open spec fn is_setup_copy<V, F: Clone>(
    event: ChannelConfigEvent<F>,
    message: Outgoing<V, F>,
) -> bool {
    match message {
        Outgoing::ToChannel(ChannelEvent::Config(copy)) => match (event, copy) {
            (ChannelConfigEvent::SetSoundfonts(f), ChannelConfigEvent::SetSoundfonts(g)) => cloned(
                f,
                g,
            ),
            (ChannelConfigEvent::SetLayerCount(m), ChannelConfigEvent::SetLayerCount(n)) => m == n,
            (
                ChannelConfigEvent::SetPercussionMode(a),
                ChannelConfigEvent::SetPercussionMode(b),
            ) => a == b,
            _ => false,
        },
        _ => false,
    }
}

/// Whether an event is the one that a MIDI message means.
pub open spec fn is_meant_by<V: Scalar>(
    code: u8,
    low: u8,
    high: u8,
    event: ChannelAudioEvent<V>,
) -> bool {
    match event {
        ChannelAudioEvent::NoteOff { key } => code == 8 && key == low,
        ChannelAudioEvent::NoteOn { key, vel } => code == 9 && key == low && vel == high,
        ChannelAudioEvent::Control(ControlEvent::Raw(controller, value)) => code == 11 && controller
            == low && value == high,
        ChannelAudioEvent::ProgramChange(program) => code == 12 && program == low,
        ChannelAudioEvent::Control(ControlEvent::PitchBendValue(bend)) => code == 14
            && call_ensures(V::ratio, (wheel_at(low, high) as i64, 8192i64), bend),
        _ => false,
    }
}

/// A raw message is answered by the sender of its channel as the event that it means. One without a
/// meaning, or for a channel that does not exist, does nothing.
pub proof fn lemma_raw_messages_are_answered<V: Scalar, F: Clone>(
    senders: &mut RealtimeEventSender,
    code: u8,
    channel: u8,
    low: u8,
    high: u8,
    rest: u8,
    message: u32,
    now: u64,
    sent: Vec<(usize, Outgoing<V, F>)>,
)
    requires
        code < 16,
        channel < 16,
        message == code * 0x10 + channel + low * 0x100 + high * 0x1_0000 + rest * 0x100_0000,
        code == 9 && channel < old(senders).states().len() ==> old(
            senders).states()[channel as int].has_room_for(
            ChannelAudioEvent::<V>::NoteOn { key: low, vel: high },
        ),
        call_ensures(RealtimeEventSender::send_event_u32::<V, F>, (senders, message, now), sent),
    ensures
        sent@.len() <= 1,
        sent@.len() == 1 ==> sent@[0].0 == channel,
        forall|i: int|
            0 <= i < old(senders).states().len() && i != channel ==> #[trigger] final(
                senders).states()[i] == old(senders).states()[i],
        channel >= old(senders).states().len() ==> sent@.len() == 0 && final(senders).states()
            == old(senders).states(),
        code != 8 && code != 9 && code != 11 && code != 12 && code != 14 ==> sent@.len() == 0
            && final(senders).states() == old(senders).states(),
        channel < old(senders).states().len() && (code == 8 || code == 9 || code == 11 || code == 12
            || code == 14) ==> exists|event: ChannelAudioEvent<V>| #[trigger]
            is_meant_by(code, low, high, event) && answers_event(
                old(senders).states()[channel as int],
                channel as u32,
                event,
                now,
                final(senders).states()[channel as int],
                if sent@.len() == 1 {
                    Some(sent@[0].1)
                } else {
                    None
                },
            ),
{
    lemma_message_bytes(code, channel, low, high, rest, message);
    lemma_wheel_at(low, high);
    if has_midi_event(message) {
        let pre = old(senders).states();
        let post = final(senders).states();
        let decoded = choose|decoded: SynthEvent<V, F>| #[trigger]
            is_midi_event(message, decoded) && delivers(
                old(senders).render_mode(),
                pre,
                decoded,
                now,
                post,
                sent@,
            );
        if let SynthEvent::Channel(number, ChannelEvent::Audio(event)) = decoded {
            assert(number == channel);
            assert(is_meant_by(code, low, high, event));
            if channel < pre.len() {
                let state = pre[channel as int];
                assert(state.skipped.len() == 128);
                lemma_sends_answers::<V, F>(state, channel as u32, event, now);
            }
        }
    }
}

/// What goes to all channels by one sender: the renderer of all channels gets it once; the thread of
/// a channel gets it as any other event.
pub proof fn lemma_one_sender_for_all<V: Copy, F>(
    sender: &mut EventSender,
    event: ChannelAudioEvent<V>,
    now: u64,
    message: Option<Outgoing<V, F>>,
    setting: EventSender,
    channel: u32,
    setup: ChannelConfigEvent<F>,
    to_one: Outgoing<V, F>,
    to_all: Outgoing<V, F>,
)
    requires
        old(sender).now().has_room_for(event),
        call_ensures(
            EventSender::send_audio_all_channels::<V, F>,
            (sender, event, now),
            message,
        ),
        call_ensures(EventSender::send_config::<V, F>, (&setting, channel, setup), to_one),
        call_ensures(EventSender::send_config_all_channels::<V, F>, (&setting, setup), to_all),
    ensures
        old(sender).now().mode == RealtimeRenderMode::Threaded ==> answers_event(
            old(sender).now(),
            0,
            event,
            now,
            final(sender).now(),
            message,
        ),
        old(sender).now().mode == RealtimeRenderMode::ChannelGroup ==> final(sender).now() == old(
            sender).now() && message == Some(
            Outgoing::<V, F>::ToSynth(SynthEvent::AllChannels(ChannelEvent::Audio(event))),
        ),
        is_handed_on(setting.now().mode, channel, ChannelEvent::Config(setup), to_one),
        match to_all {
            Outgoing::ToChannel(e) => setting.now().mode == RealtimeRenderMode::Threaded && e
                == ChannelEvent::<V, F>::Config(setup),
            Outgoing::ToSynth(e) => setting.now().mode == RealtimeRenderMode::ChannelGroup && e
                == SynthEvent::<V, F>::AllChannels(ChannelEvent::Config(setup)),
        },
{
    assert(old(sender).now().skipped.len() == 128);
    lemma_sends_answers::<V, F>(old(sender).now(), 0, event, now);
}

/// Whether a sender has sent nothing and held nothing back.
pub open spec fn is_fresh(state: SenderState, now: u64) -> bool {
    &&& state.count.windows.len() == 0
    &&& state.count.current == 0
    &&& state.count.since == now
    &&& state.skipped.len() == 128
    &&& forall|key: int| 0 <= key < 128 ==> #[trigger] state.skipped[key] == 0
}

/// A new sender has sent nothing and has the settings that it was given; a duplicate has sent nothing
/// and has the settings of the original. Setting the velocities to ignore, or forgetting what was
/// held back, changes that alone.
pub proof fn lemma_new_senders(
    max_nps: u64,
    mode: RealtimeRenderMode,
    ignore_range: ByteRange,
    now: u64,
    fresh: EventSender,
    original: EventSender,
    copy: EventSender,
    setting: &mut EventSender,
    forgetting: &mut EventSender,
)
    requires
        call_ensures(EventSender::new, (max_nps, mode, ignore_range, now), fresh),
        call_ensures(EventSender::duplicate, (&original, now), copy),
        call_ensures(EventSender::set_ignore_range, (setting, ignore_range), ()),
        call_ensures(EventSender::forget_skipped, (forgetting,), ()),
    ensures
        is_fresh(fresh.now(), now),
        fresh.now().max_nps == max_nps,
        fresh.now().mode == mode,
        fresh.now().ignored == ignore_range,
        is_fresh(copy.now(), now),
        copy.now().max_nps == original.now().max_nps,
        copy.now().mode == original.now().mode,
        copy.now().ignored == original.now().ignored,
        final(setting).now().ignored == ignore_range,
        final(setting).now().count == old(setting).now().count,
        final(setting).now().skipped == old(setting).now().skipped,
        final(setting).now().max_nps == old(setting).now().max_nps,
        final(setting).now().mode == old(setting).now().mode,
        final(forgetting).now().ignored == old(forgetting).now().ignored,
        final(forgetting).now().count == old(forgetting).now().count,
        forall|key: int| 0 <= key < 128 ==> #[trigger] final(forgetting).now().skipped[key] == 0,
        final(forgetting).now().max_nps == old(forgetting).now().max_nps,
        final(forgetting).now().mode == old(forgetting).now().mode,
{
}

/// As above, for the senders of all channels together.
pub proof fn lemma_new_sender_sets(
    list: Vec<EventSender>,
    mode: RealtimeRenderMode,
    made: RealtimeEventSender,
    original: RealtimeEventSender,
    now: u64,
    copy: RealtimeEventSender,
    setting: &mut RealtimeEventSender,
    ignore_range: ByteRange,
)
    requires
        call_ensures(RealtimeEventSender::new, (list, mode), made),
        call_ensures(RealtimeEventSender::duplicate, (&original, now), copy),
        call_ensures(RealtimeEventSender::set_ignore_range, (setting, ignore_range), ()),
    ensures
        made.render_mode() == mode,
        made.states().len() == list@.len(),
        forall|i: int| 0 <= i < list@.len() ==> #[trigger] made.states()[i] == list@[i].now(),
        copy.render_mode() == original.render_mode(),
        copy.states().len() == original.states().len(),
        forall|i: int|
            0 <= i < copy.states().len() ==> is_fresh(#[trigger] copy.states()[i], now)
                && copy.states()[i].max_nps == original.states()[i].max_nps && copy.states()[i].mode
                == original.states()[i].mode && copy.states()[i].ignored
                == original.states()[i].ignored,
        final(setting).states().len() == old(setting).states().len(),
        forall|i: int|
            0 <= i < final(setting).states().len() ==> (
            #[trigger] final(setting).states()[i]).ignored == ignore_range && final(
                setting).states()[i].count == old(setting).states()[i].count && final(
                setting).states()[i].skipped == old(setting).states()[i].skipped,
{
}

/// A new tracker has counted nothing. A window is closed, with the notes that were counted in it, when
/// it has lasted 20 milliseconds, and not before.
pub proof fn lemma_windows_close(
    fresh: RoughNpsTracker,
    tracker: &mut RoughNpsTracker,
    now: u64,
)
    requires
        call_ensures(RoughNpsTracker::new, (now,), fresh),
        call_ensures(RoughNpsTracker::check_time, (tracker, now), ()),
    ensures
        fresh.counted().windows.len() == 0,
        fresh.counted().current == 0,
        fresh.counted().since == now,
        now < old(tracker).counted().since + 20_000_000 ==> final(tracker).counted() == old(
            tracker).counted(),
        now >= old(tracker).counted().since + 20_000_000 ==> {
            &&& final(tracker).counted().current == 0
            &&& final(tracker).counted().since == now
            &&& final(tracker).counted().windows.len() == old(tracker).counted().windows.len() + 1
            &&& final(tracker).counted().windows.last().notes == old(tracker).counted().current
            &&& final(tracker).counted().windows.last().time == old(tracker).counted().since
            &&& final(tracker).counted().windows.drop_last() == old(tracker).counted().windows
        },
{
    assert(old(tracker).counted().windows.push(
        NpsWindow { time: old(tracker).counted().since, notes: old(tracker).counted().current },
    ).drop_last() =~= old(tracker).counted().windows);
}

/// An event to play other than a note goes through as it came, and changes nothing. A key above 127 does
/// not exist.
pub proof fn lemma_other_events_pass<V: Copy, F>(
    sender: &mut EventSender,
    channel: u32,
    event: ChannelAudioEvent<V>,
    now: u64,
    message: Option<Outgoing<V, F>>,
)
    requires
        old(sender).wf(),
        call_ensures(
            EventSender::send_audio::<V, F>,
            (sender, channel, event, now),
            message,
        ),
    ensures
        !(event is NoteOn) && !(event is NoteOff) ==> message is Some && is_handed_on(
            old(sender).now().mode,
            channel,
            ChannelEvent::Audio(event),
            message->0,
        ) && final(sender).now() == old(sender).now(),
        event matches ChannelAudioEvent::NoteOn { key, .. } && key > 127 ==> message is None
            && final(sender).now() == old(sender).now(),
        event matches ChannelAudioEvent::NoteOff { key } && key > 127 ==> message is None && final(sender).now() == old(sender).now(),
{
}

/// An event for one channel reaches that channel and no other. It goes through the sender of the channel,
/// which sends one message at most, and exactly one where the event is not a note; the other senders
/// stay as they are. A channel that does not exist gets nothing.
pub proof fn lemma_event_reaches_its_channel<V: Copy, F: Clone>(
    senders: &mut RealtimeEventSender,
    channel: u32,
    event: ChannelEvent<V, F>,
    now: u64,
    sent: Vec<(usize, Outgoing<V, F>)>,
)
    requires
        old(senders).wf(),
        call_ensures(
            RealtimeEventSender::send_event::<V, F>,
            (senders, SynthEvent::Channel(channel, event), now),
            sent,
        ),
    ensures
        final(senders).states().len() == old(senders).states().len(),
        forall|i: int|
            0 <= i < old(senders).states().len() && i != channel ==> #[trigger] final(senders).states()[i] == old(senders).states()[i],
        sent@.len() <= 1,
        channel >= old(senders).states().len() ==> sent@.len() == 0,
        sent@.len() == 1 ==> sent@[0].0 == channel && is_handed_on(
            old(senders).states()[channel as int].mode,
            channel,
            event,
            sent@[0].1,
        ),
        channel < old(senders).states().len() && !(event matches ChannelEvent::Audio(
            ChannelAudioEvent::NoteOn { .. },
        )) && !(event matches ChannelEvent::Audio(ChannelAudioEvent::NoteOff { .. }))
            ==> sent@.len() == 1 && final(senders).states() == old(senders).states(),
{
}

/// An event for all channels other than a note reaches each of them once. Where each channel has a thread
/// of its own, every sender hands it on, in order; where one renderer plays them all, it gets the
/// event once, marked as one for all. The senders stay as they are.
pub proof fn lemma_event_reaches_all_channels<V: Copy, F: Clone>(
    senders: &mut RealtimeEventSender,
    event: ChannelAudioEvent<V>,
    now: u64,
    sent: Vec<(usize, Outgoing<V, F>)>,
)
    requires
        old(senders).wf(),
        !(event is NoteOn) && !(event is NoteOff),
        forall|i: int|
            0 <= i < old(senders).states().len() ==> (#[trigger] old(senders).states()[i]).mode
                == old(senders).render_mode(),
        call_ensures(
            RealtimeEventSender::send_event::<V, F>,
            (senders, SynthEvent::AllChannels(ChannelEvent::Audio(event)), now),
            sent,
        ),
    ensures
        final(senders).states() == old(senders).states(),
        old(senders).render_mode() == RealtimeRenderMode::Threaded ==> {
            &&& sent@.len() == old(senders).states().len()
            &&& forall|i: int|
                0 <= i < sent@.len() ==> (#[trigger] sent@[i]).0 == i && sent@[i].1
                    == Outgoing::<V, F>::ToChannel(ChannelEvent::Audio(event))
        },
        old(senders).render_mode() == RealtimeRenderMode::ChannelGroup && old(senders).states().len()
            > 0 ==> sent@ == seq![
            (
                0usize,
                Outgoing::<V, F>::ToSynth(SynthEvent::AllChannels(ChannelEvent::Audio(event))),
            ),
        ],
{
    let states = old(senders).states();
    lemma_plain_event_keeps_states::<V, F>(
        old(senders).render_mode(),
        states,
        event,
        now,
        final(senders).states(),
        sent@,
    );
    if old(senders).render_mode() == RealtimeRenderMode::Threaded {
        assert(old(senders).senders.len() <= usize::MAX);
        lemma_plain_messages::<V, F>(states, event, now, states.len() as int);
    }
}

proof fn lemma_plain_messages<V, F>(
    states: Seq<SenderState>,
    event: ChannelAudioEvent<V>,
    now: u64,
    n: int,
)
    requires
        !(event is NoteOn) && !(event is NoteOff),
        0 <= n <= states.len(),
        states.len() <= usize::MAX,
        forall|i: int|
            0 <= i < states.len() ==> (#[trigger] states[i]).mode == RealtimeRenderMode::Threaded,
    ensures
        messages::<V, F>(states, event, now, n).len() == n,
        forall|i: int|
            0 <= i < n ==> (#[trigger] messages::<V, F>(states, event, now, n)[i]).0 == i
                && messages::<V, F>(states, event, now, n)[i].1 == Outgoing::<V, F>::ToChannel(
                ChannelEvent::Audio(event),
            ),
    decreases n,
{
    if n > 0 {
        lemma_plain_messages::<V, F>(states, event, now, n - 1);
        assert(states[n - 1].mode == RealtimeRenderMode::Threaded);
    }
}

/// A reset forgets the notes that were held back and nothing else of the senders, and sends to every
/// channel first that its notes are killed and then that its controls are reset.
pub proof fn lemma_reset_tells_all_channels<V: Copy, F: Clone>(
    senders: &mut RealtimeEventSender,
    now: u64,
    sent: Vec<(usize, Outgoing<V, F>)>,
)
    requires
        old(senders).states().len() > 0,
        forall|i: int|
            0 <= i < old(senders).states().len() ==> (#[trigger] old(senders).states()[i]).mode
                == old(senders).render_mode(),
        call_ensures(RealtimeEventSender::reset_synth::<V, F>, (senders, now), sent),
    ensures
        final(senders).states().len() == old(senders).states().len(),
        forall|i: int, key: int|
            0 <= i < old(senders).states().len() && 0 <= key < 128 ==> #[trigger] final(senders).states()[i].skipped[key] == 0,
        forall|i: int|
            0 <= i < old(senders).states().len() ==> (#[trigger] final(senders).states()[i]).count
                == old(senders).states()[i].count,
        old(senders).render_mode() == RealtimeRenderMode::Threaded ==> {
            let n = old(senders).states().len();
            &&& sent@.len() == n + n
            &&& forall|i: int|
                0 <= i < n ==> (#[trigger] sent@[i]).0 == i && sent@[i].1 == Outgoing::<
                    V,
                    F,
                >::ToChannel(ChannelEvent::Audio(ChannelAudioEvent::AllNotesKilled))
            &&& forall|i: int|
                n <= i < n + n ==> (#[trigger] sent@[i]).0 == i - n && sent@[i].1 == Outgoing::<
                    V,
                    F,
                >::ToChannel(ChannelEvent::Audio(ChannelAudioEvent::ResetControl))
        },
        old(senders).render_mode() == RealtimeRenderMode::ChannelGroup ==> sent@ == seq![
            (
                0usize,
                Outgoing::<V, F>::ToSynth(
                    SynthEvent::AllChannels(
                        ChannelEvent::Audio(ChannelAudioEvent::AllNotesKilled),
                    ),
                ),
            ),
            (
                0usize,
                Outgoing::<V, F>::ToSynth(
                    SynthEvent::AllChannels(ChannelEvent::Audio(ChannelAudioEvent::ResetControl)),
                ),
            ),
        ],
{
    let pre = old(senders).states();
    let post = final(senders).states();
    assert(old(senders).senders.len() <= usize::MAX);
    assert(old(senders).states()[0].mode == old(senders).render_mode());
    let n = pre.len() as int;
    assert forall|i: int| 0 <= i < post.len() implies (#[trigger] post[i]).mode
        == old(senders).render_mode() by {
        assert(pre[i].mode == old(senders).render_mode());
    }
    if old(senders).render_mode() == RealtimeRenderMode::Threaded {
        lemma_plain_messages::<V, F>(pre, ChannelAudioEvent::AllNotesKilled, now, n);
        lemma_plain_messages::<V, F>(post, ChannelAudioEvent::ResetControl, now, n);
        let killed = messages::<V, F>(pre, ChannelAudioEvent::AllNotesKilled, now, n);
        let reset = messages::<V, F>(post, ChannelAudioEvent::ResetControl, now, n);
        assert(sent@ == killed + reset);
        assert forall|i: int| n <= i < n + n implies (#[trigger] sent@[i]) == reset[i - n] by {}
    }
}

} // verus!
