//! One key of a channel.

use vstd::prelude::*;
use crate::channel::voice_buffer;
use crate::channel::voice_buffer::{ChannelInitOptions, VoiceBuffer};
use crate::voice;
use crate::voice::Voice;

verus! {

/// What happens to a key.
#[derive(Copy, Clone, Debug, PartialEq, Eq, Structural)]
pub enum KeyNoteEvent {
    /// The key is struck with a velocity.
    On(u8),
    /// The key is let go once.
    Off,
    /// Every stroke of the key is let go.
    AllOff,
    /// Every voice of the key is killed.
    AllKilled,
}

/// Whether, by way of `mid`, letting the key go turns `pre` into `post`: a group of velocity `vel`
/// is released, and the release voices that `release` spawns for it are added.
pub open spec fn answered<V: Voice, R: Fn(u8, u8) -> Vec<V>>(
    release: &R,
    key: u8,
    pre: (VoiceBuffer<V>, u64),
    mid: VoiceBuffer<V>,
    vel: u8,
    voices: Vec<V>,
    post: VoiceBuffer<V>,
) -> bool {
    &&& VoiceBuffer::lets_go(pre.0, Some(vel), mid)
    &&& call_ensures(release, (key, vel), voices)
    &&& VoiceBuffer::pushes(mid, pre.1, voices@, post)
}

/// Whether letting the key go releases a group and turns `pre` into `post`.
pub open spec fn answers<V: Voice, R: Fn(u8, u8) -> Vec<V>>(
    release: &R,
    key: u8,
    pre: (VoiceBuffer<V>, u64),
    post: VoiceBuffer<V>,
) -> bool {
    exists|mid: VoiceBuffer<V>, vel: u8, voices: Vec<V>|
        answered(release, key, pre, mid, vel, voices, post)
}

/// Whether `trace` goes on letting the key go for as long as that releases a group.
pub open spec fn is_silencing<V: Voice, R: Fn(u8, u8) -> Vec<V>>(
    release: &R,
    key: u8,
    trace: Seq<(VoiceBuffer<V>, u64)>,
) -> bool {
    &&& trace.len() > 0
    &&& forall|k: int|
        0 <= k < trace.len() - 1 ==> {
            &&& answers(release, key, #[trigger] trace[k], trace[k + 1].0)
            &&& voice_buffer::spare(trace[k].1, trace[k].0.groups().len()) == voice_buffer::spare(
                trace[k + 1].1,
                trace[k + 1].0.groups().len(),
            )
        }
}

/// Whether letting every stroke of the key go turns `pre` into `post`.
pub open spec fn silences<V: Voice, R: Fn(u8, u8) -> Vec<V>>(
    release: &R,
    key: u8,
    pre: (VoiceBuffer<V>, u64),
    post: VoiceBuffer<V>,
) -> bool {
    exists|trace: Seq<(VoiceBuffer<V>, u64)>| #[trigger]
        is_silencing(release, key, trace) && trace[0] == pre && VoiceBuffer::lets_go(
            trace.last().0,
            None,
            post,
        )
}

/// Whether voices can be spawned for every velocity of a key.
pub open spec fn is_ready<V, R: Fn(u8, u8) -> Vec<V>>(spawn: &R, key: u8) -> bool {
    forall|vel: u8| #[trigger] call_requires(spawn, (key, vel))
}

/// Whether no voice that is spawned for a key sounds.
pub open spec fn spawns_silent<V: Voice, R: Fn(u8, u8) -> Vec<V>>(spawn: &R, key: u8) -> bool {
    forall|vel: u8, voices: Vec<V>, i: int|
        #![trigger call_ensures(spawn, (key, vel), voices), voices@[i]]
        call_ensures(spawn, (key, vel), voices) && 0 <= i < voices@.len() ==> voices@[i].releasing()
            || voices@[i].killed()
}

/// Whether striking the key turns `pre` into `post`: the voices that `attack` spawns are added.
pub open spec fn strikes<V: Voice, A: Fn(u8, u8) -> Vec<V>>(
    attack: &A,
    key: u8,
    vel: u8,
    pre: (VoiceBuffer<V>, u64),
    post: VoiceBuffer<V>,
) -> bool {
    exists|voices: Vec<V>| #[trigger]
        call_ensures(attack, (key, vel), voices) && VoiceBuffer::pushes(
            pre.0,
            pre.1,
            voices@,
            post,
        )
}

/// The voices of one key, and what the key's events do to them.
pub struct KeyData<V> {
    key: u8,
    voices: VoiceBuffer<V>,
}

impl<V: Voice> KeyData<V> {
    /// The number of the key.
    pub closed spec fn note(&self) -> u8 {
        self.key
    }

    /// The voices of the key.
    pub closed spec fn buffer(&self) -> VoiceBuffer<V> {
        self.voices
    }

    /// The voices are consistent.
    pub open spec fn wf(&self) -> bool {
        self.buffer().wf()
    }

    /// A key without voices.
    pub fn new(key: u8, options: ChannelInitOptions) -> (data: Self)
        requires
            voice::release_is_seen::<V>(),
        ensures
            data.wf(),
            data.note() == key,
            data.buffer().is_new(options),
    {
        KeyData { key, voices: VoiceBuffer::new(options) }
    }

    /// Handles an event of the key. `attack` and `release` spawn the voices of a stroke of a key
    /// with a velocity, and those of its end; `counter` is the number of voices of all keys.
    pub fn send_event<A: Fn(u8, u8) -> Vec<V>, R: Fn(u8, u8) -> Vec<V>>(
        &mut self,
        event: KeyNoteEvent,
        attack: &A,
        release: &R,
        counter: &mut u64,
    )
        requires
            old(self).wf(),
            match event {
                KeyNoteEvent::On(vel) => {
                    &&& old(self).buffer().last_id() < usize::MAX
                    &&& call_requires(attack, (old(self).note(), vel))
                },
                KeyNoteEvent::Off => {
                    &&& old(self).buffer().last_id() < usize::MAX
                    &&& is_ready(release, old(self).note())
                },
                KeyNoteEvent::AllOff => {
                    &&& old(self).buffer().last_id() + old(self).buffer().groups().len()
                        < usize::MAX
                    &&& is_ready(release, old(self).note())
                    &&& spawns_silent(release, old(self).note())
                },
                KeyNoteEvent::AllKilled => true,
            },
        ensures
            final(self).wf(),
            final(self).note() == old(self).note(),
            match event {
                KeyNoteEvent::On(vel) => strikes(
                    attack,
                    old(self).note(),
                    vel,
                    (old(self).buffer(), *old(counter)),
                    final(self).buffer(),
                ),
                KeyNoteEvent::Off => {
                    ||| VoiceBuffer::lets_go(old(self).buffer(), None, final(self).buffer())
                    ||| answers(
                        release,
                        old(self).note(),
                        (old(self).buffer(), *old(counter)),
                        final(self).buffer(),
                    )
                },
                KeyNoteEvent::AllOff => silences(
                    release,
                    old(self).note(),
                    (old(self).buffer(), *old(counter)),
                    final(self).buffer(),
                ),
                KeyNoteEvent::AllKilled => VoiceBuffer::kills(
                    old(self).buffer(),
                    final(self).buffer(),
                ),
            },
            voice_buffer::spare(*final(counter), final(self).buffer().groups().len())
                == voice_buffer::spare(*old(counter), old(self).buffer().groups().len()),
            voice_buffer::within(
                old(self).buffer().limit(),
                *old(counter),
                old(self).buffer().groups().len(),
            ) ==> voice_buffer::within(
                final(self).buffer().limit(),
                *final(counter),
                final(self).buffer().groups().len(),
            ),
    {
        match event {
            KeyNoteEvent::On(vel) => {
                let voices = attack(self.key, vel);
                self.voices.push_voices(voices, counter);
            },
            KeyNoteEvent::Off => {
                self.let_go(release, counter);
            },
            KeyNoteEvent::AllOff => {
                self.let_all_go(release, counter);
            },
            KeyNoteEvent::AllKilled => {
                self.voices.kill_all_voices(counter);
            },
        }
    }

    /// Lets the key go once. Tells whether a group was released.
    fn let_go<R: Fn(u8, u8) -> Vec<V>>(&mut self, release: &R, counter: &mut u64) -> (released:
        bool)
        requires
            old(self).wf(),
            old(self).buffer().last_id() < usize::MAX,
            forall|vel: u8| #[trigger] call_requires(release, (old(self).note(), vel)),
        ensures
            final(self).wf(),
            final(self).note() == old(self).note(),
            if released {
                answers(
                    release,
                    old(self).note(),
                    (old(self).buffer(), *old(counter)),
                    final(self).buffer(),
                )
            } else {
                &&& VoiceBuffer::lets_go(old(self).buffer(), None, final(self).buffer())
                &&& *final(counter) == *old(counter)
            },
            voice_buffer::spare(*final(counter), final(self).buffer().groups().len())
                == voice_buffer::spare(*old(counter), old(self).buffer().groups().len()),
            voice_buffer::within(
                old(self).buffer().limit(),
                *old(counter),
                old(self).buffer().groups().len(),
            ) ==> voice_buffer::within(
                final(self).buffer().limit(),
                *final(counter),
                final(self).buffer().groups().len(),
            ),
    {
        assert(self.note() == self.key);
        match self.voices.release_next_voice() {
            Some(vel) => {
                let ghost mid = self.voices;
                let voices = release(self.key, vel);
                let ghost spawned = voices;
                self.voices.push_voices(voices, counter);
                assert(answered(
                    release,
                    self.key,
                    (old(self).voices, *old(counter)),
                    mid,
                    vel,
                    spawned,
                    self.voices,
                ));
                true
            },
            None => false,
        }
    }

    /// Lets the key go until that releases nothing.
    fn let_all_go<R: Fn(u8, u8) -> Vec<V>>(&mut self, release: &R, counter: &mut u64)
        requires
            old(self).wf(),
            old(self).buffer().last_id() + old(self).buffer().groups().len() < usize::MAX,
            forall|vel: u8| #[trigger] call_requires(release, (old(self).note(), vel)),
            forall|vel: u8, voices: Vec<V>, i: int|
                #![trigger call_ensures(release, (old(self).note(), vel), voices), voices@[i]]
                call_ensures(release, (old(self).note(), vel), voices) && 0 <= i < voices@.len()
                    ==> voices@[i].releasing() || voices@[i].killed(),
        ensures
            final(self).wf(),
            final(self).note() == old(self).note(),
            silences(
                release,
                old(self).note(),
                (old(self).buffer(), *old(counter)),
                final(self).buffer(),
            ),
            voice_buffer::spare(*final(counter), final(self).buffer().groups().len())
                == voice_buffer::spare(*old(counter), old(self).buffer().groups().len()),
            voice_buffer::within(
                old(self).buffer().limit(),
                *old(counter),
                old(self).buffer().groups().len(),
            ) ==> voice_buffer::within(
                final(self).buffer().limit(),
                *final(counter),
                final(self).buffer().groups().len(),
            ),
    {
        let ghost mut trace = seq![(self.voices, *counter)];
        let ghost key = self.note();
        let ghost start = voice_buffer::sounding_count(self.voices.groups());
        proof {
            crate::tally::lemma_bound(
                self.voices.groups().len(),
                voice_buffer::all_sounding(self.voices.groups()),
            );
        }
        loop
            invariant_except_break
                trace.last() == (self.voices, *counter),
            invariant
                self.wf(),
                self.note() == key,
                key == old(self).note(),
                start <= old(self).voices.groups().len(),
                old(self).voices.last_id() + old(self).voices.groups().len() < usize::MAX,
                self.voices.last_id() + voice_buffer::sounding_count(self.voices.groups())
                    <= old(self).voices.last_id() + start,
                forall|vel: u8| #[trigger] call_requires(release, (key, vel)),
                forall|vel: u8, voices: Vec<V>, i: int|
                    #![trigger call_ensures(release, (key, vel), voices), voices@[i]]
                    call_ensures(release, (key, vel), voices) && 0 <= i < voices@.len()
                        ==> voices@[i].releasing() || voices@[i].killed(),
                trace[0] == (old(self).voices, *old(counter)),
                is_silencing(release, key, trace),
                voice_buffer::spare(*counter, self.voices.groups().len()) == voice_buffer::spare(
                    *old(counter),
                    old(self).voices.groups().len(),
                ),
                voice_buffer::within(
                    old(self).voices.limit(),
                    *old(counter),
                    old(self).voices.groups().len(),
                ) ==> voice_buffer::within(
                    self.voices.limit(),
                    *counter,
                    self.voices.groups().len(),
                ),
            ensures
                VoiceBuffer::lets_go(trace.last().0, None, self.voices),
            decreases voice_buffer::sounding_count(self.voices.groups()),
        {
            let ghost pre = (self.voices, *counter);
            let released: bool = self.let_go(release, counter);
            if !released {
                break;
            }
            proof {
                let post = (self.voices, *counter);
                lemma_answer_silences(release, key, pre, post.0);
                let longer = trace.push(post);
                assert forall|k: int| 0 <= k < longer.len() - 1 implies {
                    &&& answers(release, key, #[trigger] longer[k], longer[k + 1].0)
                    &&& voice_buffer::spare(longer[k].1, longer[k].0.groups().len())
                        == voice_buffer::spare(longer[k + 1].1, longer[k + 1].0.groups().len())
                } by {
                    assert(longer[k] == trace[k]);
                    if k + 1 < trace.len() {
                        assert(longer[k + 1] == trace[k + 1]);
                    }
                }
                trace = longer;
            }
        }
    }

    /// Makes every voice follow the controls.
    pub fn process_controls(&mut self, control: &V::Control)
        requires
            old(self).wf(),
        ensures
            final(self).wf(),
            final(self).note() == old(self).note(),
            VoiceBuffer::takes_controls(old(self).buffer(), *control, final(self).buffer()),
    {
        self.voices.process_controls(control);
    }

    /// Takes out the voices that have ended, adds the output of the others to `out`, and takes out
    /// those that ended meanwhile.
    pub fn render_to(&mut self, out: &mut [V::Sample], counter: &mut u64)
        requires
            old(self).wf(),
            forall|i: int|
                0 <= i < old(self).buffer().groups().len() ==> (
                #[trigger] old(self).buffer().groups()[i]).voice.can_render(old(out)@.len()),
        ensures
            final(self).wf(),
            final(self).note() == old(self).note(),
            final(out)@.len() == old(out)@.len(),
            plays_through(old(self).buffer(), old(out)@, final(self).buffer(), final(out)@),
            voice_buffer::spare(*final(counter), final(self).buffer().groups().len())
                == voice_buffer::spare(*old(counter), old(self).buffer().groups().len()),
            voice_buffer::within(
                old(self).buffer().limit(),
                *old(counter),
                old(self).buffer().groups().len(),
            ) ==> voice_buffer::within(
                final(self).buffer().limit(),
                *final(counter),
                final(self).buffer().groups().len(),
            ),
    {
        self.voices.remove_ended_voices(counter);
        let ghost alive = self.voices;
        proof {
            voice_buffer::lemma_lasting_members(old(self).voices.groups());
        }
        if self.voices.voice_count() == 0 {
            proof {
                assert(out@ =~= old(out)@);
                voice_buffer::lemma_nothing_plays(alive, out@);
                assert(played(old(self).voices, old(out)@, alive, alive, self.voices, out@));
            }
            return ;
        }
        self.voices.render_to(out);
        let ghost after = self.voices;
        self.voices.remove_ended_voices(counter);
        assert(played(old(self).voices, old(out)@, alive, after, self.voices, out@));
    }

    /// Whether the key has voices.
    pub fn has_voices(&self) -> (any: bool)
        ensures
            any == (self.buffer().groups().len() > 0),
    {
        self.voices.has_voices()
    }

    /// Moves the damper of the key.
    pub fn set_damper(&mut self, damper: bool)
        requires
            old(self).wf(),
        ensures
            final(self).wf(),
            final(self).note() == old(self).note(),
            VoiceBuffer::moves_damper(old(self).buffer(), damper, final(self).buffer()),
    {
        self.voices.set_damper(damper);
    }

    /// Set the maximum number of voices per key. None means no limit.
    pub fn set_max_voices(&mut self, max: Option<usize>)
        requires
            old(self).wf(),
        ensures
            final(self).wf(),
            final(self).note() == old(self).note(),
            VoiceBuffer::takes_max(old(self).buffer(), max, final(self).buffer()),
    {
        self.voices.set_max_voices(max);
    }
}

/// Whether rendering a key turns `pre` into `post` and the output `before` into `after`: the voices
/// that have ended are taken out, which leaves `alive`; playing those leaves `done`; and the ones
/// that have ended by then are taken out.
pub open spec fn played<V: Voice>(
    pre: VoiceBuffer<V>,
    before: Seq<V::Sample>,
    alive: VoiceBuffer<V>,
    done: VoiceBuffer<V>,
    post: VoiceBuffer<V>,
    after: Seq<V::Sample>,
) -> bool {
    &&& VoiceBuffer::sheds(pre, alive)
    &&& VoiceBuffer::plays(alive, before, done, after)
    &&& VoiceBuffer::sheds(done, post)
}

/// Whether rendering a key turns `pre` into `post` and the output `before` into `after`.
pub open spec fn plays_through<V: Voice>(
    pre: VoiceBuffer<V>,
    before: Seq<V::Sample>,
    post: VoiceBuffer<V>,
    after: Seq<V::Sample>,
) -> bool {
    exists|alive: VoiceBuffer<V>, done: VoiceBuffer<V>|
        played(pre, before, alive, done, post, after)
}

/// Letting the key go leaves fewer voices sounding, where the release voices do not sound.
pub proof fn lemma_answer_silences<V: Voice, R: Fn(u8, u8) -> Vec<V>>(
    release: &R,
    key: u8,
    pre: (VoiceBuffer<V>, u64),
    post: VoiceBuffer<V>,
)
    requires
        voice::release_is_seen::<V>(),
        answers(release, key, pre, post),
        forall|vel: u8, voices: Vec<V>, i: int|
            #![trigger call_ensures(release, (key, vel), voices), voices@[i]]
            call_ensures(release, (key, vel), voices) && 0 <= i < voices@.len()
                ==> voices@[i].releasing() || voices@[i].killed(),
    ensures
        voice_buffer::sounding_count(post.groups()) < voice_buffer::sounding_count(pre.0.groups()),
        post.last_id() == pre.0.last_id() + 1,
{
    let (mid, vel, voices) = choose|mid: VoiceBuffer<V>, vel: u8, voices: Vec<V>|
        answered(release, key, pre, mid, vel, voices, post);
    assert(call_ensures(release, (key, vel), voices));
    voice_buffer::lemma_release_silences(pre.0.groups(), vel, mid.groups());
    voice_buffer::lemma_push_of_silent(mid, pre.1, voices@, post);
}

/// Once every stroke of a key has been let go with the damper up, nothing sounds any more.
pub proof fn lemma_all_off_is_silent<V: Voice, R: Fn(u8, u8) -> Vec<V>>(
    release: &R,
    key: u8,
    pre: (VoiceBuffer<V>, u64),
    post: VoiceBuffer<V>,
)
    requires
        silences(release, key, pre, post),
        !pre.0.damper(),
    ensures
        forall|i: int|
            0 <= i < post.groups().len() ==> !voice_buffer::sounding(#[trigger] post.groups()[i]),
{
    let trace = choose|trace: Seq<(VoiceBuffer<V>, u64)>| #[trigger]
        is_silencing(release, key, trace) && trace[0] == pre && VoiceBuffer::lets_go(
            trace.last().0,
            None,
            post,
        );
    lemma_silencing_settings(release, key, trace, trace.len() - 1);
}

/// Letting the key go does not move the damper.
proof fn lemma_silencing_settings<V: Voice, R: Fn(u8, u8) -> Vec<V>>(
    release: &R,
    key: u8,
    trace: Seq<(VoiceBuffer<V>, u64)>,
    k: int,
)
    requires
        is_silencing(release, key, trace),
        0 <= k < trace.len(),
    ensures
        trace[k].0.same_settings(&trace[0].0),
    decreases k,
{
    if k > 0 {
        lemma_silencing_settings(release, key, trace, k - 1);
        let pre = trace[k - 1];
        let post = trace[k - 1 + 1].0;
        assert(answers(release, key, pre, post));
        let (mid, vel, voices) = choose|mid: VoiceBuffer<V>, vel: u8, voices: Vec<V>|
            answered(release, key, pre, mid, vel, voices, post);
        assert(mid.same_settings(&pre.0));
    }
}

/// Whether the voices that `spawn` gives for a key and a velocity join at the end of `pre`.
pub open spec fn joins<V: Voice, A: Fn(u8, u8) -> Vec<V>>(
    spawn: &A,
    key: u8,
    vel: u8,
    pre: VoiceBuffer<V>,
    post: VoiceBuffer<V>,
) -> bool {
    exists|voices: Vec<V>| #[trigger]
        call_ensures(spawn, (key, vel), voices) && voice_buffer::join_at_end(
            pre.groups(),
            voices@,
            post.groups(),
        ) && (pre.limit() is None ==> post.groups().len() == pre.groups().len() + voices@.len())
}

/// Striking a key without a limit of its own adds the voices of that key and that velocity behind
/// those that are there.
pub proof fn lemma_striking<V: Voice, A: Fn(u8, u8) -> Vec<V>, R: Fn(u8, u8) -> Vec<V>>(
    key: &mut KeyData<V>,
    vel: u8,
    attack: &A,
    release: &R,
    counter: &mut u64,
)
    requires
        call_ensures(
            KeyData::<V>::send_event::<A, R>,
            (key, KeyNoteEvent::On(vel), attack, release, counter),
            (),
        ),
        old(key).wf(),
        old(key).buffer().max() is None,
    ensures
        joins(attack, old(key).note(), vel, old(key).buffer(), final(key).buffer()),
        final(key).note() == old(key).note(),
        final(key).buffer().damper() == old(key).buffer().damper(),
        final(key).buffer().held() == old(key).buffer().held(),
{
    let pre = (old(key).buffer(), *old(counter));
    let post = final(key).buffer();
    assert(strikes(attack, old(key).note(), vel, pre, post));
    let voices = choose|voices: Vec<V>| #[trigger]
        call_ensures(attack, (old(key).note(), vel), voices) && VoiceBuffer::pushes(
            pre.0,
            pre.1,
            voices@,
            post,
        );
    lemma_pushed(pre.0, pre.1, voices@, post);
}

/// Voices that are added to a key without a limit of its own join at the end.
proof fn lemma_pushed<V: Voice>(
    pre: VoiceBuffer<V>,
    counter: u64,
    voices: Seq<V>,
    post: VoiceBuffer<V>,
)
    requires
        pre.wf(),
        pre.max() is None,
        VoiceBuffer::pushes(pre, counter, voices, post),
    ensures
        voice_buffer::join_at_end(pre.groups(), voices, post.groups()),
        pre.limit() is None ==> post.groups().len() == pre.groups().len() + voices.len(),
        post.held() == pre.held(),
{
    let new = voice_buffer::admitted(post.last_id(), voices, pre.limit(), counter);
    assert(post.groups() == pre.groups() + new);
    assert forall|j: int| pre.groups().len() <= j < post.groups().len() implies (
    #[trigger] post.groups()[j]).voice == voices[j - pre.groups().len()] && post.groups()[j].id
        == post.last_id() by {
        assert(post.groups()[j] == new[j - pre.groups().len()]);
    }
}

/// Whether a key that is let go releases the voice `first`, the first one that still sounds, and
/// adds the release voices of that voice's velocity, by way of `mid`.
pub open spec fn lets_first_go<V: Voice, R: Fn(u8, u8) -> Vec<V>>(
    release: &R,
    key: u8,
    pre: VoiceBuffer<V>,
    first: int,
    mid: VoiceBuffer<V>,
    post: VoiceBuffer<V>,
) -> bool {
    &&& voice_buffer::first_group_leaves(pre.groups(), first, mid.groups())
    &&& joins(release, key, pre.groups()[first].voice.vel(), mid, post)
}

/// Letting a key go with the damper up releases the oldest stroke that still sounds and adds the
/// release voices of its velocity; where nothing sounds nothing happens. With the damper held no
/// voice is released, and none is added.
pub proof fn lemma_letting_go<V: Voice, A: Fn(u8, u8) -> Vec<V>, R: Fn(u8, u8) -> Vec<V>>(
    key: &mut KeyData<V>,
    attack: &A,
    release: &R,
    counter: &mut u64,
)
    requires
        call_ensures(
            KeyData::<V>::send_event::<A, R>,
            (key, KeyNoteEvent::Off, attack, release, counter),
            (),
        ),
        old(key).wf(),
        old(key).buffer().max() is None,
    ensures
        old(key).buffer().damper() ==> final(key).buffer().groups() == old(key).buffer().groups(),
        !old(key).buffer().damper() && (forall|i: int|
            0 <= i < old(key).buffer().groups().len() ==> (
            #[trigger] old(key).buffer().groups()[i]).voice.releasing() || old(
                key).buffer().groups()[i].voice.killed()) ==> final(key).buffer().groups() == old(
            key).buffer().groups(),
        !old(key).buffer().damper() && (exists|i: int|
            0 <= i < old(key).buffer().groups().len() && !(
            #[trigger] old(key).buffer().groups()[i]).voice.releasing() && !old(
                key).buffer().groups()[i].voice.killed()) ==> exists|
            first: int,
            mid: VoiceBuffer<V>,
        | #[trigger]
            lets_first_go(
                release,
                old(key).note(),
                old(key).buffer(),
                first,
                mid,
                final(key).buffer(),
            ),
        final(key).buffer().damper() == old(key).buffer().damper(),
        final(key).note() == old(key).note(),
{
    let note = old(key).note();
    let pre = old(key).buffer();
    let post = final(key).buffer();
    let s = pre.groups();
    if VoiceBuffer::lets_go(pre, None, post) {
        if !pre.damper() {
            assert forall|i: int| 0 <= i < s.len() implies (#[trigger] s[i]).voice.releasing()
                || s[i].voice.killed() by {
                assert(!voice_buffer::sounding(s[i]));
            }
        }
    } else {
        let (mid, vel, voices) = choose|mid: VoiceBuffer<V>, vel: u8, voices: Vec<V>|
            answered(release, note, (pre, *old(counter)), mid, vel, voices, post);
        let first = lemma_first_leaves(pre.groups(), vel, mid.groups());
        assert(mid.wf()) by {
            assert forall|i: int| 0 <= i < mid.groups().len() implies (
            #[trigger] mid.groups()[i]).id <= mid.last_id() by {
                assert(mid.groups()[i].id == pre.groups()[i].id);
                assert(pre.groups()[i].id <= pre.last_id());
            }
        }
        lemma_pushed(mid, *old(counter), voices@, post);
        assert(call_ensures(release, (note, vel), voices));
        assert(lets_first_go(release, note, pre, first, mid, post));
        assert(!s[first].voice.releasing() && !s[first].voice.killed());
    }
}

/// The first voice that still sounds, and its group, are released.
proof fn lemma_first_leaves<V: Voice>(
    s: Seq<voice_buffer::GroupVoice<V>>,
    vel: u8,
    t: Seq<voice_buffer::GroupVoice<V>>,
) -> (first: int)
    requires
        voice_buffer::releases_next(s, Some(vel), t),
    ensures
        voice_buffer::first_group_leaves(s, first, t),
        s[first].voice.vel() == vel,
        forall|i: int| 0 <= i < s.len() ==> (#[trigger] t[i]).id == s[i].id,
{
    let (first, end) = choose|first: int, end: int| #[trigger]
        voice_buffer::next_group(s, first, end) && vel == s[first].voice.vel()
            && voice_buffer::signalled(
            s,
            voice_buffer::sounding_between(s, first, end),
            voice::ReleaseType::Standard,
            t,
        );
    let which = voice_buffer::sounding_between(s, first, end);
    assert forall|i: int| 0 <= i < s.len() implies {
        &&& i < first ==> s[i].voice.releasing() || s[i].voice.killed()
        &&& s[i].voice.releasing() || s[i].voice.killed() || s[i].id != s[first].id
            ==> #[trigger] t[i] == s[i]
        &&& i >= first && !s[i].voice.releasing() && !s[i].voice.killed() && (forall|j: int|
            first <= j <= i && !(#[trigger] s[j]).voice.releasing() && !s[j].voice.killed()
                ==> s[j].id == s[first].id) ==> V::releases(
            s[i].voice,
            voice::ReleaseType::Standard,
            t[i].voice,
        )
    } by {
        assert(which(i) == (first <= i < end && voice_buffer::sounding(s[i])));
        if i < first {
            assert(!voice_buffer::sounding(s[i]));
        }
        if i >= end {
            assert(voice_buffer::sounding(s[end]));
        }
    }
    assert(voice_buffer::first_group_leaves(s, first, t));
    first
}

/// Letting every stroke of a key go, with the damper up, leaves nothing of it sounding; killing it
/// leaves no voice, or where voices fade out none that is not killed.
pub proof fn lemma_ending_all<V: Voice, A: Fn(u8, u8) -> Vec<V>, R: Fn(u8, u8) -> Vec<V>>(
    let_go: &mut KeyData<V>,
    killed: &mut KeyData<V>,
    attack: &A,
    release: &R,
    counter: &mut u64,
    other: &mut u64,
)
    requires
        call_ensures(
            KeyData::<V>::send_event::<A, R>,
            (let_go, KeyNoteEvent::AllOff, attack, release, counter),
            (),
        ),
        call_ensures(
            KeyData::<V>::send_event::<A, R>,
            (killed, KeyNoteEvent::AllKilled, attack, release, other),
            (),
        ),
        voice::release_is_seen::<V>(),
        !old(let_go).buffer().damper(),
    ensures
        forall|i: int|
            0 <= i < final(let_go).buffer().groups().len() ==> (
            #[trigger] final(let_go).buffer().groups()[i]).voice.releasing() || final(
                let_go).buffer().groups()[i].voice.killed(),
        !old(killed).buffer().fades() ==> final(killed).buffer().groups().len() == 0,
        old(killed).buffer().fades() ==> final(killed).buffer().groups().len() == old(
            killed).buffer().groups().len(),
        forall|i: int|
            0 <= i < final(killed).buffer().groups().len() ==> (
            #[trigger] final(killed).buffer().groups()[i]).voice.killed(),
{
    let t = final(let_go).buffer().groups();
    lemma_all_off_is_silent(
        release,
        old(let_go).note(),
        (old(let_go).buffer(), *old(counter)),
        final(let_go).buffer(),
    );
    assert forall|i: int| 0 <= i < t.len() implies (#[trigger] t[i]).voice.releasing()
        || t[i].voice.killed() by {
        assert(!voice_buffer::sounding(t[i]));
    }
    let s = old(killed).buffer().groups();
    let u = final(killed).buffer().groups();
    assert forall|i: int| 0 <= i < u.len() implies (#[trigger] u[i]).voice.killed() by {
        assert(voice_buffer::everywhere()(i));
        assert(V::releases(s[i].voice, voice::ReleaseType::Kill, u[i].voice));
    }
}

/// Whether the voices of a key that have not ended play in turn, and those that have ended by then
/// leave.
pub open spec fn plays_out<V: Voice>(
    pre: Seq<voice_buffer::GroupVoice<V>>,
    done: Seq<voice_buffer::GroupVoice<V>>,
    mix: Seq<Seq<V::Sample>>,
    post: Seq<voice_buffer::GroupVoice<V>>,
) -> bool {
    &&& voice_buffer::plays_in_turn(
        pre.filter(|g: voice_buffer::GroupVoice<V>| !g.voice.has_ended()),
        done,
        mix,
    )
    &&& post == done.filter(|g: voice_buffer::GroupVoice<V>| !g.voice.has_ended())
}

/// Rendering a key lets every voice that has not ended play, once and in order; no voice that has
/// ended stays.
pub proof fn lemma_key_plays<V: Voice>(
    pre: VoiceBuffer<V>,
    before: Seq<V::Sample>,
    post: VoiceBuffer<V>,
    after: Seq<V::Sample>,
)
    requires
        plays_through(pre, before, post, after),
    ensures
        exists|done: Seq<voice_buffer::GroupVoice<V>>, mix: Seq<Seq<V::Sample>>| #[trigger]
            plays_out(pre.groups(), done, mix, post.groups()) && mix[0] == before && mix[mix.len()
                - 1] == after,
        post.damper() == pre.damper(),
        post.max() == pre.max(),
        post.limit() == pre.limit(),
        post.fades() == pre.fades(),
{
    let (alive, done) = choose|alive: VoiceBuffer<V>, done: VoiceBuffer<V>|
        played(pre, before, alive, done, post, after);
    let s = alive.groups();
    let t = done.groups();
    let mix = choose|mix: Seq<Seq<V::Sample>>| #[trigger]
        voice_buffer::is_mix(s, t, mix) && mix[0] == before && mix.last() == after;
    let stays = |g: voice_buffer::GroupVoice<V>| !g.voice.has_ended();
    assert(voice_buffer::lasting(pre.groups()) == pre.groups().filter(stays));
    assert(voice_buffer::lasting(t) == t.filter(stays));
    assert forall|i: int| 0 <= i < s.len() implies V::renders(
        s[i].voice,
        #[trigger] mix[i],
        t[i].voice,
        mix[i + 1],
    ) && t[i].id == s[i].id by {
        assert(t[i].id == s[i].id);
    }
    assert(voice_buffer::plays_in_turn(s, t, mix));
    assert(plays_out(pre.groups(), t, mix, post.groups()));
}

/// A new key has its number, no voices and the limits of the options.
pub proof fn lemma_new_key<V: Voice>(note: u8, options: ChannelInitOptions, key: KeyData<V>)
    requires
        call_ensures(KeyData::<V>::new, (note, options), key),
    ensures
        key.note() == note,
        key.buffer().groups().len() == 0,
        !key.buffer().damper(),
        key.buffer().fades() == options.fade_out_killing,
        key.buffer().max() == options.max_voices_per_key,
        key.buffer().limit() == options.global_voice_limit,
{
}

/// A key hands the damper and its limit on to its voices.
pub proof fn lemma_key_settings<V: Voice>(
    key: &mut KeyData<V>,
    damper: bool,
    other: &mut KeyData<V>,
    max: Option<usize>,
)
    requires
        call_ensures(KeyData::<V>::set_damper, (key, damper), ()),
        call_ensures(KeyData::<V>::set_max_voices, (other, max), ()),
    ensures
        final(key).buffer().damper() == damper,
        final(key).buffer().groups().len() == old(key).buffer().groups().len(),
        final(key).buffer().max() == old(key).buffer().max(),
        final(other).buffer().max() == max,
        final(other).buffer().damper() == old(other).buffer().damper(),
        final(other).buffer().groups() == old(other).buffer().groups(),
{
}

/// A key has voices just when its buffer does, and rendering and following the controls reach all of them.
pub proof fn lemma_key_reaches_voices<V: Voice>(
    asked: KeyData<V>,
    any: bool,
    playing: &mut KeyData<V>,
    out: &mut [V::Sample],
    counter: &mut u64,
    following: &mut KeyData<V>,
    control: V::Control,
)
    requires
        call_ensures(KeyData::<V>::has_voices, (&asked,), any),
        call_ensures(KeyData::<V>::render_to, (playing, out, counter), ()),
        call_ensures(KeyData::<V>::process_controls, (following, &control), ()),
    ensures
        any <==> asked.buffer().groups().len() > 0,
        exists|done: Seq<voice_buffer::GroupVoice<V>>, mix: Seq<Seq<V::Sample>>| #[trigger]
            plays_out(
                old(playing).buffer().groups(),
                done,
                mix,
                final(playing).buffer().groups(),
            ) && mix[0] == old(out)@ && mix[mix.len() - 1] == final(out)@,
        final(playing).note() == old(playing).note(),
        final(following).note() == old(following).note(),
        final(following).buffer().groups().len() == old(following).buffer().groups().len(),
        forall|i: int|
            0 <= i < old(following).buffer().groups().len() ==> V::follows(
                old(following).buffer().groups()[i].voice,
                control,
                (#[trigger] final(following).buffer().groups()[i]).voice,
            ),
{
    lemma_key_plays(old(playing).buffer(), old(out)@, final(playing).buffer(), final(out)@);
}

} // verus!
