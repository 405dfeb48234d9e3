//! The voices of one key.

use vstd::prelude::*;
use rustc_hash::FxHashSet;
use crate::fx_set::{set_contains, set_insert, set_remove};
use crate::tally;
use crate::voice;
use crate::voice::{ReleaseType, Voice};

verus! {

/// Options for initializing a new channel.
#[derive(Copy, Clone)]
pub struct ChannelInitOptions {
    /// Whether a voice that is killed fades out, instead of being cut off.
    pub fade_out_killing: bool,
    /// The maximum number of voices of one key. None means no limit.
    pub max_voices_per_key: Option<usize>,
    /// The maximum number of voices of all keys together. None means no limit.
    pub global_voice_limit: Option<usize>,
}

/// A voice with its group ID for tracking
pub struct GroupVoice<V> {
    pub id: usize,
    pub voice: V,
}

impl<V: Voice> GroupVoice<V> {
    pub fn ended(&self) -> (ended: bool)
        ensures
            ended == self.voice.has_ended(),
    {
        self.voice.ended()
    }
}

/// Whether a voice is neither released nor killed.
pub open spec fn sounding<V: Voice>(g: GroupVoice<V>) -> bool {
    !g.voice.releasing() && !g.voice.killed()
}

/// The positions of the voices that have not been killed.
pub open spec fn active<V: Voice>(s: Seq<GroupVoice<V>>) -> spec_fn(int) -> bool {
    |i: int| !s[i].voice.killed()
}

/// The number of voices that have not been killed.
pub open spec fn active_count<V: Voice>(s: Seq<GroupVoice<V>>) -> nat {
    tally::count(s.len(), active(s))
}

/// Whether a voice may be given up for the group `ignored`: it belongs to another group, still
/// sounds, and is quieter than the loudest velocity.
pub open spec fn expendable<V: Voice>(g: GroupVoice<V>, ignored: usize) -> bool {
    g.id != ignored && !g.voice.killed() && g.voice.vel() < u8::MAX
}

/// Whether `k` is the first position of an expendable voice with the lowest velocity.
pub open spec fn is_quietest<V: Voice>(s: Seq<GroupVoice<V>>, ignored: usize, k: int) -> bool {
    &&& 0 <= k < s.len()
    &&& expendable(s[k], ignored)
    &&& forall|j: int|
        0 <= j < s.len() && expendable(#[trigger] s[j], ignored) ==> {
            &&& s[k].voice.vel() <= s[j].voice.vel()
            &&& j < k ==> s[k].voice.vel() < s[j].voice.vel()
        }
}

/// Whether `post` is `pre` with the release `rel_type` signalled to the voices that `which` picks,
/// and every other voice left alone.
pub open spec fn signalled<V: Voice>(
    pre: Seq<GroupVoice<V>>,
    which: spec_fn(int) -> bool,
    rel_type: ReleaseType,
    post: Seq<GroupVoice<V>>,
) -> bool {
    &&& post.len() == pre.len()
    &&& forall|i: int|
        0 <= i < pre.len() ==> {
            &&& (#[trigger] post[i]).id == pre[i].id
            &&& if which(i) {
                V::releases(pre[i].voice, rel_type, post[i].voice)
            } else {
                post[i] == pre[i]
            }
        }
}

/// The positions of the voices of a group.
pub open spec fn in_group<V>(s: Seq<GroupVoice<V>>, id: usize) -> spec_fn(int) -> bool {
    |i: int| s[i].id == id
}

/// The positions of the voices whose group is in `ids`.
pub open spec fn in_groups<V>(s: Seq<GroupVoice<V>>, ids: Set<usize>) -> spec_fn(int) -> bool {
    |i: int| ids.contains(s[i].id)
}

/// Every position.
pub open spec fn everywhere() -> spec_fn(int) -> bool {
    |i: int| true
}

/// The positions from `first` up to `end` whose voices still sound.
pub open spec fn sounding_between<V: Voice>(
    s: Seq<GroupVoice<V>>,
    first: int,
    end: int,
) -> spec_fn(int) -> bool {
    |i: int| first <= i < end && sounding(s[i])
}

/// Whether giving up the quietest voice turns `pre` into `post`: with `fade` its whole group is
/// killed, without it that voice alone is taken out and the last voice takes its place.
/// Either way the damper no longer holds its group. With no expendable voice nothing changes.
pub open spec fn pops<V: Voice>(
    pre: (Seq<GroupVoice<V>>, Set<usize>),
    fade: bool,
    ignored: usize,
    post: (Seq<GroupVoice<V>>, Set<usize>),
) -> bool {
    if exists|k: int| is_quietest(pre.0, ignored, k) {
        let k = choose|k: int| is_quietest(pre.0, ignored, k);
        &&& post.1 == pre.1.remove(pre.0[k].id)
        &&& if fade {
            signalled(pre.0, in_group(pre.0, pre.0[k].id), ReleaseType::Kill, post.0)
        } else {
            post.0 == pre.0.update(k, pre.0.last()).drop_last()
        }
    } else {
        post == pre
    }
}

/// What the limit on the voices of a key counts: with `fade` the voices that have not been killed,
/// without it all of them.
pub open spec fn load<V: Voice>(s: Seq<GroupVoice<V>>, fade: bool) -> nat {
    if fade {
        active_count(s)
    } else {
        s.len()
    }
}

/// The positions of the expendable voices.
pub open spec fn expendables<V: Voice>(s: Seq<GroupVoice<V>>, ignored: usize) -> spec_fn(
    int,
) -> bool {
    |i: int| expendable(s[i], ignored)
}

/// The positions of the voices that count against the limit and that no number of pops for the
/// group `ignored` takes away.
pub open spec fn stuck<V: Voice>(
    s: Seq<GroupVoice<V>>,
    ignored: usize,
    fade: bool,
) -> spec_fn(int) -> bool {
    if fade {
        |i: int|
            !s[i].voice.killed() && forall|j: int|
                0 <= j < s.len() && (#[trigger] s[j]).id == s[i].id ==> !expendable(s[j], ignored)
    } else {
        |i: int| !expendable(s[i], ignored)
    }
}

/// Whether the voices can be brought down to `max` by giving up quiet ones for the group `ignored`.
pub open spec fn can_trim<V: Voice>(
    s: Seq<GroupVoice<V>>,
    ignored: usize,
    fade: bool,
    max: usize,
) -> bool {
    tally::count(s.len(), stuck(s, ignored, fade)) <= max
}

/// Whether some voice may be given up for the group `ignored`.
pub open spec fn any_expendable<V: Voice>(s: Seq<GroupVoice<V>>, ignored: usize) -> bool {
    exists|k: int| 0 <= k < s.len() && expendable(#[trigger] s[k], ignored)
}

/// Whether `trace` goes from its first state to its last by giving up one quietest voice at a time,
/// as long as there are more than `max` and one can be given up.
pub open spec fn is_trimming<V: Voice>(
    trace: Seq<(Seq<GroupVoice<V>>, Set<usize>)>,
    fade: bool,
    ignored: usize,
    max: usize,
) -> bool {
    &&& trace.len() > 0
    &&& forall|k: int|
        0 <= k < trace.len() - 1 ==> {
            &&& load((#[trigger] trace[k]).0, fade) > max
            &&& any_expendable(trace[k].0, ignored)
            &&& pops(trace[k], fade, ignored, trace[k + 1])
        }
    &&& load(trace.last().0, fade) <= max || !any_expendable(trace.last().0, ignored)
}

/// Whether bringing the voices down to the limit turns `pre` into `post`.
pub open spec fn trims<V: Voice>(
    pre: (Seq<GroupVoice<V>>, Set<usize>),
    fade: bool,
    ignored: usize,
    max: Option<usize>,
    post: (Seq<GroupVoice<V>>, Set<usize>),
) -> bool {
    match max {
        None => post == pre,
        Some(most) => trims_to(pre, fade, ignored, most, post),
    }
}

/// Whether giving up voices down to `max` turns `pre` into `post`.
pub open spec fn trims_to<V: Voice>(
    pre: (Seq<GroupVoice<V>>, Set<usize>),
    fade: bool,
    ignored: usize,
    max: usize,
    post: (Seq<GroupVoice<V>>, Set<usize>),
) -> bool {
    exists|trace: Seq<(Seq<GroupVoice<V>>, Set<usize>)>| #[trigger]
        is_trimming(trace, fade, ignored, max) && trace[0] == pre && trace.last() == post
}

/// The voices of a new group.
pub open spec fn group_of<V>(id: usize, voices: Seq<V>) -> Seq<GroupVoice<V>> {
    voices.map_values(|voice: V| GroupVoice { id, voice })
}

/// How many of `n` voices join a buffer where all keys together have `count` voices: as many as the
/// limit leaves room for.
pub open spec fn room(limit: Option<usize>, count: u64, n: int) -> int {
    match limit {
        Some(most) => {
            let left: int = if count < most {
                most - count
            } else {
                0
            };
            if n <= left {
                n
            } else {
                left
            }
        },
        None => n,
    }
}

/// The voices that join the buffer: the first ones, up to the limit on the voices of all keys.
pub open spec fn admitted<V>(
    id: usize,
    voices: Seq<V>,
    limit: Option<usize>,
    count: u64,
) -> Seq<GroupVoice<V>> {
    group_of(id, voices.take(room(limit, count, voices.len() as int)))
}

/// Whether `v` is the velocity that releasing the next group reports, and `post` what it leaves.
///
/// The first voice that still sounds decides the group. The voices that still sound are released
/// from there on, up to the first one of another group.
pub open spec fn releases_next<V: Voice>(
    pre: Seq<GroupVoice<V>>,
    vel: Option<u8>,
    post: Seq<GroupVoice<V>>,
) -> bool {
    match vel {
        None => {
            &&& post == pre
            &&& forall|i: int| 0 <= i < pre.len() ==> !sounding(#[trigger] pre[i])
        },
        Some(vel) => exists|first: int, end: int| #[trigger]
            next_group(pre, first, end) && vel == pre[first].voice.vel() && signalled(
                pre,
                sounding_between(pre, first, end),
                ReleaseType::Standard,
                post,
            ),
    }
}

/// Whether `first` is the position of the first voice that still sounds, and `end` the position of
/// the first one after it that still sounds and belongs to another group, or else the length.
pub open spec fn next_group<V: Voice>(s: Seq<GroupVoice<V>>, first: int, end: int) -> bool {
    &&& 0 <= first < end <= s.len()
    &&& sounding(s[first])
    &&& forall|i: int| 0 <= i < first ==> !sounding(#[trigger] s[i])
    &&& forall|i: int|
        first <= i < end && sounding(#[trigger] s[i]) ==> s[i].id == s[first].id
    &&& end < s.len() ==> sounding(s[end]) && s[end].id != s[first].id
}

/// Whether `id` is the group of the first voice that still sounds and that the damper does not hold.
pub open spec fn next_held<V: Voice>(s: Seq<GroupVoice<V>>, held: Set<usize>, id: usize) -> bool {
    exists|k: int|
        {
            &&& 0 <= k < s.len()
            &&& #[trigger] s[k].id == id
            &&& sounding(s[k])
            &&& !held.contains(id)
            &&& forall|i: int|
                0 <= i < k && sounding(#[trigger] s[i]) ==> held.contains(s[i].id)
        }
}

/// Whether the damper comes to hold `after`, which has one more group than `before` as long as
/// there is one that still sounds and is not held.
pub open spec fn holds_next<V: Voice>(
    s: Seq<GroupVoice<V>>,
    before: Set<usize>,
    after: Set<usize>,
) -> bool {
    if exists|id: usize| next_held(s, before, id) {
        exists|id: usize| #[trigger] next_held(s, before, id) && after == before.insert(id)
    } else {
        after == before
    }
}

/// The voices that have not ended.
pub open spec fn lasting<V: Voice>(s: Seq<GroupVoice<V>>) -> Seq<GroupVoice<V>> {
    s.filter(|g: GroupVoice<V>| !g.voice.has_ended())
}

/// Whether a voice of the group has ended.
pub open spec fn any_ended<V: Voice>(s: Seq<GroupVoice<V>>, id: usize) -> bool {
    exists|i: int| 0 <= i < s.len() && (#[trigger] s[i]).id == id && s[i].voice.has_ended()
}

/// Whether every voice of `pre` follows the controls in `post`.
pub open spec fn all_follow<V: Voice>(
    pre: Seq<GroupVoice<V>>,
    control: V::Control,
    post: Seq<GroupVoice<V>>,
) -> bool {
    &&& post.len() == pre.len()
    &&& forall|i: int|
        0 <= i < pre.len() ==> {
            &&& (#[trigger] post[i]).id == pre[i].id
            &&& V::follows(pre[i].voice, control, post[i].voice)
        }
}

/// Whether `mix` holds the buffer before the first voice and after each.
pub open spec fn is_mix<V: Voice>(
    pre: Seq<GroupVoice<V>>,
    post: Seq<GroupVoice<V>>,
    mix: Seq<Seq<V::Sample>>,
) -> bool {
    &&& post.len() == pre.len()
    &&& mix.len() == pre.len() + 1
    &&& forall|i: int|
        0 <= i < pre.len() ==> {
            &&& (#[trigger] post[i]).id == pre[i].id
            &&& V::renders(pre[i].voice, mix[i], post[i].voice, mix[i + 1])
        }
}

/// Whether the voices of `pre`, rendered one after another, leave `post` and turn the buffer
/// `before` into `after`.
pub open spec fn all_render<V: Voice>(
    pre: Seq<GroupVoice<V>>,
    before: Seq<V::Sample>,
    post: Seq<GroupVoice<V>>,
    after: Seq<V::Sample>,
) -> bool {
    exists|mix: Seq<Seq<V::Sample>>| #[trigger]
        is_mix(pre, post, mix) && mix[0] == before && mix.last() == after
}

/// What the shared count of voices holds beyond the voices of one key: the voices of the other keys.
/// The count wraps around, as an atomic counter does.
pub open spec fn spare(counter: u64, len: nat) -> int {
    (counter - len) % 0x1_0000_0000_0000_0000
}

/// Whether there is a limit on the voices of all keys and the shared count keeps to it. The count
/// covers the voices of the key.
pub open spec fn within(limit: Option<usize>, counter: u64, len: nat) -> bool {
    limit matches Some(most) && len <= counter <= most
}

/// Whether every group has an id that was given out, and the damper holds nothing unless it is held.
pub open spec fn consistent<V>(
    groups: Seq<GroupVoice<V>>,
    held: Set<usize>,
    damper: bool,
    last_id: usize,
) -> bool {
    &&& forall|i: int| 0 <= i < groups.len() ==> (#[trigger] groups[i]).id <= last_id
    &&& forall|id: usize| #[trigger] held.contains(id) ==> id <= last_id
    &&& !damper ==> held == Set::<usize>::empty()
}

/// Voice buffer optimized for high voice counts
pub struct VoiceBuffer<V> {
    options: ChannelInitOptions,
    id_counter: usize,
    voices: Vec<GroupVoice<V>>,
    damper_held: bool,
    held_by_damper: FxHashSet<usize>,
    pub max_voices: Option<usize>,
    /// Maximum voices allowed globally across all keys in the channel.
    /// None means no limit.
    global_voice_limit: Option<usize>,
}

impl<V: Voice> VoiceBuffer<V> {
    /// The voices, in order.
    pub closed spec fn groups(&self) -> Seq<GroupVoice<V>> {
        self.voices@
    }

    /// The groups whose release waits for the damper.
    pub closed spec fn held(&self) -> Set<usize> {
        self.held_by_damper@
    }

    /// Whether the damper is held.
    pub closed spec fn damper(&self) -> bool {
        self.damper_held
    }

    /// Whether killed voices fade out.
    pub closed spec fn fades(&self) -> bool {
        self.options.fade_out_killing
    }

    /// The limit on the voices of all keys together.
    pub closed spec fn limit(&self) -> Option<usize> {
        self.global_voice_limit
    }

    /// The limit on the voices of the key.
    pub closed spec fn max(&self) -> Option<usize> {
        self.max_voices
    }

    /// The id that was given to the last group.
    pub closed spec fn last_id(&self) -> usize {
        self.id_counter
    }

    /// The buffer is consistent.
    pub open spec fn wf(&self) -> bool {
        &&& voice::release_is_seen::<V>()
        &&& consistent(self.groups(), self.held(), self.damper(), self.last_id())
    }

    /// Whether everything but the voices and what the damper holds is the same.
    pub open spec fn same_settings(&self, other: &Self) -> bool {
        &&& self.damper() == other.damper()
        &&& self.fades() == other.fades()
        &&& self.limit() == other.limit()
        &&& self.max() == other.max()
    }

    /// Whether adding `voices` as a new group turns `pre` into `post`, where all keys together have
    /// `counter` voices.
    pub open spec fn pushes(pre: Self, counter: u64, voices: Seq<V>, post: Self) -> bool {
        &&& post.last_id() == pre.last_id() + 1
        &&& post.same_settings(&pre)
        &&& trims(
            (
                pre.groups() + admitted(post.last_id(), voices, pre.limit(), counter),
                pre.held(),
            ),
            pre.fades(),
            post.last_id(),
            pre.max(),
            (post.groups(), post.held()),
        )
    }

    /// Whether letting the key go turns `pre` into `post` and reports `vel`.
    pub open spec fn lets_go(pre: Self, vel: Option<u8>, post: Self) -> bool {
        &&& post.last_id() == pre.last_id()
        &&& post.same_settings(&pre)
        &&& if pre.damper() {
            &&& vel is None
            &&& post.groups() == pre.groups()
            &&& holds_next(pre.groups(), pre.held(), post.held())
        } else {
            &&& releases_next(pre.groups(), vel, post.groups())
            &&& post.held() == pre.held()
        }
    }

    /// Whether killing every voice turns `pre` into `post`.
    pub open spec fn kills(pre: Self, post: Self) -> bool {
        &&& post.last_id() == pre.last_id()
        &&& post.same_settings(&pre)
        &&& post.held() == Set::<usize>::empty()
        &&& if pre.fades() {
            signalled(pre.groups(), everywhere(), ReleaseType::Kill, post.groups())
        } else {
            post.groups() == Seq::<GroupVoice<V>>::empty()
        }
    }

    /// Whether taking out the voices that have ended turns `pre` into `post`. The damper no longer
    /// holds a group of which a voice has ended.
    pub open spec fn sheds(pre: Self, post: Self) -> bool {
        &&& post.last_id() == pre.last_id()
        &&& post.same_settings(&pre)
        &&& post.groups() == lasting(pre.groups())
        &&& forall|id: usize| #[trigger]
            post.held().contains(id) <==> pre.held().contains(id) && !any_ended(pre.groups(), id)
    }

    /// Whether moving the damper turns `pre` into `post`.
    pub open spec fn moves_damper(pre: Self, damper: bool, post: Self) -> bool {
        &&& post.last_id() == pre.last_id()
        &&& post.damper() == damper
        &&& post.fades() == pre.fades()
        &&& post.limit() == pre.limit()
        &&& post.max() == pre.max()
        &&& if pre.damper() && !damper {
            &&& signalled(
                pre.groups(),
                in_groups(pre.groups(), pre.held()),
                ReleaseType::Standard,
                post.groups(),
            )
            &&& post.held() == Set::<usize>::empty()
        } else {
            &&& post.groups() == pre.groups()
            &&& post.held() == pre.held()
        }
    }

    /// Whether the buffer is empty and set up by the options.
    pub open spec fn is_new(&self, options: ChannelInitOptions) -> bool {
        &&& self.groups() == Seq::<GroupVoice<V>>::empty()
        &&& self.held() == Set::<usize>::empty()
        &&& !self.damper()
        &&& self.last_id() == 0
        &&& self.fades() == options.fade_out_killing
        &&& self.max() == options.max_voices_per_key
        &&& self.limit() == options.global_voice_limit
    }

    /// Whether setting the limit on the voices of the key turns `pre` into `post`.
    pub open spec fn takes_max(pre: Self, max: Option<usize>, post: Self) -> bool {
        &&& post.max() == max
        &&& post.groups() == pre.groups()
        &&& post.held() == pre.held()
        &&& post.damper() == pre.damper()
        &&& post.fades() == pre.fades()
        &&& post.limit() == pre.limit()
        &&& post.last_id() == pre.last_id()
    }

    /// Whether following the controls turns `pre` into `post`.
    pub open spec fn takes_controls(pre: Self, control: V::Control, post: Self) -> bool {
        &&& post.last_id() == pre.last_id()
        &&& post.same_settings(&pre)
        &&& post.held() == pre.held()
        &&& all_follow(pre.groups(), control, post.groups())
    }

    /// Whether rendering turns `pre` into `post` and the output `before` into `after`.
    pub open spec fn plays(
        pre: Self,
        before: Seq<V::Sample>,
        post: Self,
        after: Seq<V::Sample>,
    ) -> bool {
        &&& post.last_id() == pre.last_id()
        &&& post.same_settings(&pre)
        &&& post.held() == pre.held()
        &&& all_render(pre.groups(), before, post.groups(), after)
    }

    /// An empty buffer.
    pub fn new(options: ChannelInitOptions) -> (buffer: Self)
        requires
            voice::release_is_seen::<V>(),
        ensures
            buffer.wf(),
            buffer.is_new(options),
    {
        VoiceBuffer {
            options,
            id_counter: 0,
            voices: Vec::new(),
            damper_held: false,
            held_by_damper: FxHashSet::default(),
            max_voices: options.max_voices_per_key,
            global_voice_limit: options.global_voice_limit,
        }
    }

    fn get_id(&mut self) -> (id: usize)
        requires
            old(self).last_id() < usize::MAX,
        ensures
            id == old(self).last_id() + 1,
            final(self).last_id() == id,
            final(self).groups() == old(self).groups(),
            final(self).held() == old(self).held(),
            final(self).same_settings(old(self)),
    {
        self.id_counter += 1;
        self.id_counter
    }

    /// Finds the quietest expendable voice.
    fn find_quietest(&self, ignored_id: usize) -> (found: Option<usize>)
        ensures
            match found {
                Some(k) => is_quietest(self.groups(), ignored_id, k as int),
                None => forall|i: int|
                    0 <= i < self.groups().len() ==> !expendable(
                        #[trigger] self.groups()[i],
                        ignored_id,
                    ),
            },
    {
        let mut quietest_vel: u8 = u8::MAX;
        let mut quietest_idx: Option<usize> = None;
        let mut idx: usize = 0;
        while idx < self.voices.len()
            invariant
                idx <= self.voices@.len(),
                match quietest_idx {
                    Some(k) => {
                        &&& k < idx
                        &&& expendable(self.voices@[k as int], ignored_id)
                        &&& self.voices@[k as int].voice.vel() == quietest_vel
                        &&& forall|j: int|
                            0 <= j < idx && expendable(#[trigger] self.voices@[j], ignored_id)
                                ==> {
                                &&& quietest_vel <= self.voices@[j].voice.vel()
                                &&& j < k ==> quietest_vel < self.voices@[j].voice.vel()
                            }
                    },
                    None => {
                        &&& quietest_vel == u8::MAX
                        &&& forall|j: int|
                            0 <= j < idx ==> !expendable(#[trigger] self.voices@[j], ignored_id)
                    },
                },
            decreases self.voices@.len() - idx,
        {
            let voice = &self.voices[idx];
            if voice.id != ignored_id && !voice.voice.is_killed() {
                let vel: u8 = voice.voice.velocity();
                if vel < quietest_vel {
                    quietest_vel = vel;
                    quietest_idx = Some(idx);
                }
            }
            idx += 1;
        }
        quietest_idx
    }

    /// Gives up the quietest voice that does not belong to the group `ignored_id`.
    fn pop_quietest_voice_group(&mut self, ignored_id: usize, counter: &mut u64)
        requires
            old(self).wf(),
        ensures
            final(self).wf(),
            pops(
                (old(self).groups(), old(self).held()),
                old(self).fades(),
                ignored_id,
                (final(self).groups(), final(self).held()),
            ),
            final(self).same_settings(old(self)),
            final(self).last_id() == old(self).last_id(),
            spare(*final(counter), final(self).groups().len()) == spare(
                *old(counter),
                old(self).groups().len(),
            ),
            within(old(self).limit(), *old(counter), old(self).groups().len()) ==> within(
                final(self).limit(),
                *final(counter),
                final(self).groups().len(),
            ),
    {
        let ghost pre = self.voices@;
        match self.find_quietest(ignored_id) {
            None => {
                assert(!exists|k: int| is_quietest(pre, ignored_id, k));
            },
            Some(idx) => {
                let id = self.voices[idx].id;
                proof {
                    assert(is_quietest(pre, ignored_id, idx as int));
                    let k = choose|k: int| is_quietest(pre, ignored_id, k);
                    assert(is_quietest(pre, ignored_id, k));
                    assert(k == idx);
                }
                if self.options.fade_out_killing {
                    self.kill_group(id);
                } else {
                    self.voices.swap_remove(idx);
                    *counter = counter.wrapping_sub(1);
                    assert forall|i: int| 0 <= i < self.voices@.len() implies (
                    #[trigger] self.voices@[i]).id <= self.id_counter by {
                        assert(self.voices@[i] == pre[i] || self.voices@[i] == pre.last());
                    }
                }
                set_remove(&mut self.held_by_damper, id);
                assert(Set::<usize>::empty().remove(id) =~= Set::<usize>::empty());
            },
        }
    }

    /// Kills the voices of one group.
    fn kill_group(&mut self, id: usize)
        ensures
            signalled(
                old(self).groups(),
                in_group(old(self).groups(), id),
                ReleaseType::Kill,
                final(self).groups(),
            ),
            final(self).held() == old(self).held(),
            final(self).same_settings(old(self)),
            final(self).last_id() == old(self).last_id(),
    {
        let ghost pre = self.voices@;
        let mut i: usize = 0;
        while i < self.voices.len()
            invariant
                i <= self.voices@.len(),
                self.voices@.len() == pre.len(),
                forall|j: int|
                    0 <= j < i ==> {
                        &&& (#[trigger] self.voices@[j]).id == pre[j].id
                        &&& if pre[j].id == id {
                            V::releases(pre[j].voice, ReleaseType::Kill, self.voices@[j].voice)
                        } else {
                            self.voices@[j] == pre[j]
                        }
                    },
                forall|j: int| i <= j < pre.len() ==> #[trigger] self.voices@[j] == pre[j],
                self.held_by_damper == old(self).held_by_damper,
                self.same_settings(old(self)),
                self.id_counter == old(self).id_counter,
            decreases self.voices@.len() - i,
        {
            if self.voices[i].id == id {
                self.voices[i].voice.signal_release(ReleaseType::Kill);
            }
            i += 1;
        }
    }

    /// Kills every voice: with `fade_out_killing` each is released, otherwise all are taken out.
    pub fn kill_all_voices(&mut self, counter: &mut u64)
        requires
            old(self).wf(),
        ensures
            final(self).wf(),
            Self::kills(*old(self), *final(self)),
            spare(*final(counter), final(self).groups().len()) == spare(
                *old(counter),
                old(self).groups().len(),
            ),
            within(old(self).limit(), *old(counter), old(self).groups().len()) ==> within(
                final(self).limit(),
                *final(counter),
                final(self).groups().len(),
            ),
    {
        if self.options.fade_out_killing {
            let ghost pre = self.voices@;
            let mut i: usize = 0;
            while i < self.voices.len()
                invariant
                    i <= self.voices@.len(),
                    self.voices@.len() == pre.len(),
                    forall|j: int|
                        0 <= j < i ==> {
                            &&& (#[trigger] self.voices@[j]).id == pre[j].id
                            &&& V::releases(
                                pre[j].voice,
                                ReleaseType::Kill,
                                self.voices@[j].voice,
                            )
                        },
                    forall|j: int| i <= j < pre.len() ==> #[trigger] self.voices@[j] == pre[j],
                    self.same_settings(old(self)),
                    self.id_counter == old(self).id_counter,
                decreases self.voices@.len() - i,
            {
                self.voices[i].voice.signal_release(ReleaseType::Kill);
                i += 1;
            }
        } else {
            let count: usize = self.voices.len();
            self.voices.clear();
            *counter = counter.wrapping_sub(count as u64);
        }
        self.held_by_damper.clear();
    }

    /// The number of voices that have not been killed.
    fn get_active_count(&self) -> (count: usize)
        ensures
            count == active_count(self.groups()),
    {
        let mut count: usize = 0;
        let mut i: usize = 0;
        while i < self.voices.len()
            invariant
                i <= self.voices@.len(),
                count <= i,
                count == tally::count(i as nat, active(self.voices@)),
            decreases self.voices@.len() - i,
        {
            if !self.voices[i].voice.is_killed() {
                count += 1;
            }
            i += 1;
        }
        count
    }

    /// Adds voices as a new group, then gives up quiet voices of other groups while there are more
    /// than the key may have.
    ///
    /// Voices are added one by one, and only until the limit on all keys is reached. Where no voice
    /// can be given up any more, the ones that are left stay.
    pub fn push_voices(&mut self, voices: Vec<V>, counter: &mut u64)
        requires
            old(self).wf(),
            old(self).last_id() < usize::MAX,
        ensures
            final(self).wf(),
            Self::pushes(*old(self), *old(counter), voices@, *final(self)),
            spare(*final(counter), final(self).groups().len()) == spare(
                *old(counter),
                old(self).groups().len(),
            ),
            within(old(self).limit(), *old(counter), old(self).groups().len()) ==> within(
                final(self).limit(),
                *final(counter),
                final(self).groups().len(),
            ),
    {
        let id: usize = self.get_id();
        self.append_group(id, voices, counter);
        if let Some(max) = self.max_voices {
            self.trim(id, max, counter);
        }
    }

    /// Appends voices under one id, until the limit on all keys is reached.
    fn append_group(&mut self, id: usize, voices: Vec<V>, counter: &mut u64)
        requires
            old(self).wf(),
            id <= old(self).last_id(),
        ensures
            final(self).wf(),
            final(self).groups() == old(self).groups() + admitted(
                id,
                voices@,
                old(self).limit(),
                *old(counter),
            ),
            final(self).held() == old(self).held(),
            final(self).same_settings(old(self)),
            final(self).last_id() == old(self).last_id(),
            spare(*final(counter), final(self).groups().len()) == spare(
                *old(counter),
                old(self).groups().len(),
            ),
            within(old(self).limit(), *old(counter), old(self).groups().len()) ==> within(
                final(self).limit(),
                *final(counter),
                final(self).groups().len(),
            ),
    {
        let limit: Option<usize> = self.global_voice_limit;
        let ghost all = voices@;
        let ghost first = *counter;
        for voice in it: voices
            invariant
                it.seq() == all,
                limit == self.global_voice_limit,
                first == *old(counter),
                self.voices@ == old(self).voices@ + group_of(
                    id,
                    all.take(room(limit, first, it.index())),
                ),
                limit is Some ==> *counter == first + room(limit, first, it.index()),
                spare(*counter, self.voices@.len()) == spare(first, old(self).voices@.len()),
                self.held_by_damper == old(self).held_by_damper,
                self.same_settings(old(self)),
                self.id_counter == old(self).id_counter,
        {
            let full: bool = match limit {
                Some(most) => *counter >= most as u64,
                None => false,
            };
            if !full {
                self.voices.push(GroupVoice { id, voice });
                *counter = counter.wrapping_add(1);
                assert(self.voices@ =~= old(self).voices@ + group_of(
                    id,
                    all.take(room(limit, first, it.index() + 1)),
                ));
            }
        }
        assert forall|i: int| 0 <= i < self.groups().len() implies (
        #[trigger] self.groups()[i]).id <= self.last_id() by {
            if i < old(self).groups().len() {
                assert(self.groups()[i] == old(self).groups()[i]);
            }
        }
    }

    /// Gives up voices of other groups than `id` while there are more than `max`.
    fn trim(&mut self, id: usize, max: usize, counter: &mut u64)
        requires
            old(self).wf(),
        ensures
            final(self).wf(),
            trims(
                (old(self).groups(), old(self).held()),
                old(self).fades(),
                id,
                Some(max),
                (final(self).groups(), final(self).held()),
            ),
            final(self).same_settings(old(self)),
            final(self).last_id() == old(self).last_id(),
            spare(*final(counter), final(self).groups().len()) == spare(
                *old(counter),
                old(self).groups().len(),
            ),
            within(old(self).limit(), *old(counter), old(self).groups().len()) ==> within(
                final(self).limit(),
                *final(counter),
                final(self).groups().len(),
            ),
    {
        let fade: bool = self.options.fade_out_killing;
        let ghost mut trace = seq![(self.groups(), self.held())];
        loop
            invariant
                self.wf(),
                fade == self.fades(),
                self.same_settings(old(self)),
                self.last_id() == old(self).last_id(),
                spare(*counter, self.groups().len()) == spare(*old(counter), old(self).groups().len()),
                within(old(self).limit(), *old(counter), old(self).groups().len()) ==> within(
                    self.limit(),
                    *counter,
                    self.groups().len(),
                ),
                trace.len() > 0,
                trace[0] == (old(self).groups(), old(self).held()),
                trace.last() == (self.groups(), self.held()),
                forall|k: int|
                    0 <= k < trace.len() - 1 ==> {
                        &&& load((#[trigger] trace[k]).0, fade) > max
                        &&& any_expendable(trace[k].0, id)
                        &&& pops(trace[k], fade, id, trace[k + 1])
                    },
            ensures
                load(self.groups(), fade) <= max || !any_expendable(self.groups(), id),
            decreases tally::count(self.groups().len(), expendables(self.groups(), id)),
        {
            let count: usize = if fade {
                self.get_active_count()
            } else {
                self.voices.len()
            };
            if count <= max {
                break;
            }
            if self.find_quietest(id).is_none() {
                break;
            }
            let ghost pre = (self.groups(), self.held());
            self.pop_quietest_voice_group(id, counter);
            proof {
                let post = (self.groups(), self.held());
                lemma_pop(pre, fade, id, post);
                let longer = trace.push(post);
                assert forall|k: int| 0 <= k < longer.len() - 1 implies {
                    &&& load((#[trigger] longer[k]).0, fade) > max
                    &&& any_expendable(longer[k].0, id)
                    &&& pops(longer[k], fade, id, longer[k + 1])
                } by {
                    assert(longer[k] == trace[k]);
                    if k + 1 < trace.len() {
                        assert(longer[k + 1] == trace[k + 1]);
                    } else {
                        assert(longer[k] == pre);
                        assert(longer[k + 1] == post);
                    }
                }
                trace = longer;
            }
        }
        assert(is_trimming(trace, fade, id, max));
        assert(trims_to(trace[0], fade, id, max, trace.last()));
    }
}

impl<V: Voice> VoiceBuffer<V> {
    /// Releases the group that has sounded longest, and reports its velocity.
    ///
    /// While the damper is held the group is remembered instead, and nothing is reported.
    pub fn release_next_voice(&mut self) -> (vel: Option<u8>)
        requires
            old(self).wf(),
        ensures
            final(self).wf(),
            Self::lets_go(*old(self), vel, *final(self)),
    {
        if !self.damper_held {
            self.release_next_group()
        } else {
            self.hold_next_group();
            None
        }
    }

    /// Releases the voices of the first group that still sounds.
    fn release_next_group(&mut self) -> (vel: Option<u8>)
        requires
            old(self).wf(),
        ensures
            final(self).wf(),
            releases_next(old(self).groups(), vel, final(self).groups()),
            final(self).held() == old(self).held(),
            final(self).same_settings(old(self)),
            final(self).last_id() == old(self).last_id(),
    {
        let ghost pre = self.voices@;
        let mut id: usize = 0;
        let mut vel: Option<u8> = None;
        let mut i: usize = 0;
        let ghost mut first: int = 0;
        loop
            invariant
                i <= self.voices@.len(),
                self.voices@.len() == pre.len(),
                pre == old(self).voices@,
                self.held_by_damper == old(self).held_by_damper,
                self.same_settings(old(self)),
                self.id_counter == old(self).id_counter,
                forall|j: int| 0 <= j < pre.len() ==> (#[trigger] self.voices@[j]).id == pre[j].id,
                forall|j: int| i <= j < pre.len() ==> #[trigger] self.voices@[j] == pre[j],
                match vel {
                    None => {
                        &&& self.voices@ == pre
                        &&& forall|j: int| 0 <= j < i ==> !sounding(#[trigger] pre[j])
                    },
                    Some(vel) => {
                        &&& 0 <= first < i
                        &&& sounding(pre[first])
                        &&& pre[first].voice.vel() == vel
                        &&& pre[first].id == id
                        &&& forall|j: int| 0 <= j < first ==> !sounding(#[trigger] pre[j])
                        &&& forall|j: int|
                            first <= j < i && sounding(#[trigger] pre[j]) ==> pre[j].id == id
                        &&& forall|j: int|
                            0 <= j < i ==> if first <= j && sounding(pre[j]) {
                                V::releases(
                                    pre[j].voice,
                                    ReleaseType::Standard,
                                    (#[trigger] self.voices@[j]).voice,
                                )
                            } else {
                                self.voices@[j] == pre[j]
                            }
                    },
                },
            ensures
                i < pre.len() ==> vel is Some && sounding(pre[i as int]) && pre[i as int].id != id,
            decreases self.voices@.len() - i,
        {
            if i >= self.voices.len() {
                break;
            }
            if !self.voices[i].voice.is_releasing() && !self.voices[i].voice.is_killed() {
                if vel.is_none() {
                    id = self.voices[i].id;
                    vel = Some(self.voices[i].voice.velocity());
                    proof {
                        first = i as int;
                    }
                }
                if self.voices[i].id != id {
                    break;
                }
                self.voices[i].voice.signal_release(ReleaseType::Standard);
            }
            i += 1;
        }
        proof {
            if vel is Some {
                assert(next_group(pre, first, i as int));
                let which = sounding_between(pre, first, i as int);
                assert forall|j: int| 0 <= j < pre.len() implies which(j) == (first <= j < i
                    && sounding(pre[j])) by {}
                assert(signalled(pre, which, ReleaseType::Standard, self.voices@));
            }
            assert forall|j: int| 0 <= j < self.groups().len() implies (
            #[trigger] self.groups()[j]).id <= self.last_id() by {
                assert(old(self).groups()[j].id <= old(self).last_id());
            }
        }
        vel
    }

    /// Remembers the first group that still sounds and that the damper does not hold yet.
    fn hold_next_group(&mut self)
        requires
            old(self).wf(),
            old(self).damper(),
        ensures
            final(self).wf(),
            final(self).groups() == old(self).groups(),
            holds_next(old(self).groups(), old(self).held(), final(self).held()),
            final(self).same_settings(old(self)),
            final(self).last_id() == old(self).last_id(),
    {
        let ghost held = self.held_by_damper@;
        let mut i: usize = 0;
        while i < self.voices.len()
            invariant
                i <= self.voices@.len(),
                self == old(self),
                self.wf(),
                held == self.held_by_damper@,
                self.damper(),
                forall|j: int|
                    0 <= j < i && sounding(#[trigger] self.voices@[j]) ==> held.contains(
                        self.voices@[j].id,
                    ),
            decreases self.voices@.len() - i,
        {
            let voice = &self.voices[i];
            let id: usize = voice.id;
            if !voice.voice.is_releasing() && !voice.voice.is_killed() {
                if !set_contains(&self.held_by_damper, id) {
                    set_insert(&mut self.held_by_damper, id);
                    assert(next_held(old(self).groups(), held, id)) by {
                        assert(old(self).groups()[i as int].id == id);
                    }
                    assert(old(self).groups()[i as int].id <= old(self).last_id());
                    assert forall|other: usize| #[trigger] self.held().contains(other) implies other
                        <= self.last_id() by {
                        assert(other == id || old(self).held().contains(other));
                    }
                    return ;
                }
            }
            i += 1;
        }
    }

    /// Takes out the voices that have ended, and keeps the others in order.
    pub fn remove_ended_voices(&mut self, counter: &mut u64)
        requires
            old(self).wf(),
        ensures
            final(self).wf(),
            Self::sheds(*old(self), *final(self)),
            spare(*final(counter), final(self).groups().len()) == spare(
                *old(counter),
                old(self).groups().len(),
            ),
            within(old(self).limit(), *old(counter), old(self).groups().len()) ==> within(
                final(self).limit(),
                *final(counter),
                final(self).groups().len(),
            ),
    {
        let ghost pre = self.voices@;
        let ghost held = self.held_by_damper@;
        let count: usize = self.voices.len();
        let mut all: Vec<GroupVoice<V>> = Vec::new();
        core::mem::swap(&mut all, &mut self.voices);
        let mut removed: u64 = 0;
        for voice in it: all
            invariant
                it.seq() == pre,
                removed <= it.index(),
                self.voices@ == lasting(pre.take(it.index())),
                removed + self.voices@.len() == it.index(),
                forall|id: usize| #[trigger]
                    self.held_by_damper@.contains(id) <==> held.contains(id) && !any_ended(
                        pre.take(it.index()),
                        id,
                    ),
                self.same_settings(old(self)),
                self.id_counter == old(self).id_counter,
                pre.len() == count,
        {
            proof {
                lemma_lasting_step(pre, it.index());
            }
            if voice.ended() {
                set_remove(&mut self.held_by_damper, voice.id);
                removed += 1;
            } else {
                self.voices.push(voice);
            }
        }
        *counter = counter.wrapping_sub(removed);
        proof {
            assert(pre.take(pre.len() as int) =~= pre);
            lemma_lasting_ids(pre, old(self).last_id());
            assert forall|id: usize| #[trigger] self.held().contains(id) implies id
                <= self.last_id() by {
                assert(old(self).held().contains(id));
            }
            if !self.damper() {
                assert forall|id: usize| !self.held().contains(id) by {
                    assert(!old(self).held().contains(id));
                }
                assert(self.held() =~= Set::<usize>::empty());
            }
        }
    }

    /// Whether there are any voices.
    pub fn has_voices(&self) -> (any: bool)
        ensures
            any == (self.groups().len() > 0),
    {
        self.voices.len() > 0
    }

    /// The number of voices.
    pub fn voice_count(&self) -> (count: usize)
        ensures
            count == self.groups().len(),
    {
        self.voices.len()
    }

    /// Moves the damper. Letting it go releases every group that it held.
    pub fn set_damper(&mut self, damper: bool)
        requires
            old(self).wf(),
        ensures
            final(self).wf(),
            Self::moves_damper(*old(self), damper, *final(self)),
    {
        if self.damper_held && !damper {
            let ghost pre = self.voices@;
            let mut i: usize = 0;
            while i < self.voices.len()
                invariant
                    i <= self.voices@.len(),
                    self.voices@.len() == pre.len(),
                    forall|j: int|
                        0 <= j < i ==> {
                            &&& (#[trigger] self.voices@[j]).id == pre[j].id
                            &&& if self.held_by_damper@.contains(pre[j].id) {
                                V::releases(
                                    pre[j].voice,
                                    ReleaseType::Standard,
                                    self.voices@[j].voice,
                                )
                            } else {
                                self.voices@[j] == pre[j]
                            }
                        },
                    forall|j: int| i <= j < pre.len() ==> #[trigger] self.voices@[j] == pre[j],
                    self.held_by_damper == old(self).held_by_damper,
                    self.same_settings(old(self)),
                    self.id_counter == old(self).id_counter,
                decreases self.voices@.len() - i,
            {
                let id: usize = self.voices[i].id;
                if set_contains(&self.held_by_damper, id) {
                    self.voices[i].voice.signal_release(ReleaseType::Standard);
                }
                i += 1;
            }
            assert forall|j: int| 0 <= j < self.groups().len() implies (
            #[trigger] self.groups()[j]).id <= self.last_id() by {
                assert(old(self).groups()[j].id <= old(self).last_id());
            }
            self.held_by_damper.clear();
        }
        self.damper_held = damper;
    }

    /// Set the maximum number of voices per key. None means no limit.
    pub fn set_max_voices(&mut self, max: Option<usize>)
        requires
            old(self).wf(),
        ensures
            final(self).wf(),
            Self::takes_max(*old(self), max, *final(self)),
    {
        self.max_voices = max;
    }

    /// Makes every voice follow the controls.
    pub fn process_controls(&mut self, control: &V::Control)
        requires
            old(self).wf(),
        ensures
            final(self).wf(),
            Self::takes_controls(*old(self), *control, *final(self)),
    {
        let ghost pre = self.voices@;
        let mut i: usize = 0;
        while i < self.voices.len()
            invariant
                i <= self.voices@.len(),
                self.voices@.len() == pre.len(),
                forall|j: int|
                    0 <= j < i ==> {
                        &&& (#[trigger] self.voices@[j]).id == pre[j].id
                        &&& V::follows(pre[j].voice, *control, self.voices@[j].voice)
                    },
                forall|j: int| i <= j < pre.len() ==> #[trigger] self.voices@[j] == pre[j],
                self.held_by_damper == old(self).held_by_damper,
                self.same_settings(old(self)),
                self.id_counter == old(self).id_counter,
            decreases self.voices@.len() - i,
        {
            self.voices[i].voice.process_controls(control);
            i += 1;
        }
        assert forall|j: int| 0 <= j < self.groups().len() implies (
        #[trigger] self.groups()[j]).id <= self.last_id() by {
            assert(old(self).groups()[j].id <= old(self).last_id());
        }
    }

    /// Lets every voice add its output to the buffer, in order.
    pub fn render_to(&mut self, out: &mut [V::Sample])
        requires
            old(self).wf(),
            forall|i: int|
                0 <= i < old(self).groups().len() ==> (
                #[trigger] old(self).groups()[i]).voice.can_render(old(out)@.len()),
        ensures
            final(self).wf(),
            final(out)@.len() == old(out)@.len(),
            Self::plays(*old(self), old(out)@, *final(self), final(out)@),
    {
        let ghost pre = self.voices@;
        let ghost mut mix: Seq<Seq<V::Sample>> = seq![out@];
        let mut i: usize = 0;
        while i < self.voices.len()
            invariant
                i <= self.voices@.len(),
                self.voices@.len() == pre.len(),
                out@.len() == old(out)@.len(),
                mix.len() == i + 1,
                mix[0] == old(out)@,
                mix[i as int] == out@,
                pre == old(self).groups(),
                forall|j: int|
                    0 <= j < pre.len() ==> (#[trigger] pre[j]).voice.can_render(out@.len()),
                forall|j: int|
                    0 <= j < i ==> {
                        &&& (#[trigger] self.voices@[j]).id == pre[j].id
                        &&& V::renders(pre[j].voice, mix[j], self.voices@[j].voice, mix[j + 1])
                    },
                forall|j: int| i <= j < pre.len() ==> #[trigger] self.voices@[j] == pre[j],
                self.held_by_damper == old(self).held_by_damper,
                self.same_settings(old(self)),
                self.id_counter == old(self).id_counter,
            decreases self.voices@.len() - i,
        {
            assert(pre[i as int].voice.can_render(out@.len()));
            self.voices[i].voice.render_to(out);
            proof {
                mix = mix.push(out@);
            }
            i += 1;
        }
        assert(is_mix(pre, self.groups(), mix));
        assert forall|j: int| 0 <= j < self.groups().len() implies (
        #[trigger] self.groups()[j]).id <= self.last_id() by {
            assert(old(self).groups()[j].id <= old(self).last_id());
        }
    }
}

/// Among expendable voices there is a quietest.
proof fn lemma_quietest<V: Voice>(s: Seq<GroupVoice<V>>, ignored: usize, n: int) -> (k: int)
    requires
        0 <= n <= s.len(),
        exists|i: int| 0 <= i < n && expendable(#[trigger] s[i], ignored),
    ensures
        is_quietest(s.take(n), ignored, k),
    decreases n,
{
    let front = s.take(n);
    let last = n - 1;
    if exists|i: int| 0 <= i < last && expendable(#[trigger] s[i], ignored) {
        let k = lemma_quietest(s, ignored, last);
        let shorter = s.take(last);
        assert(shorter[k] == s[k]);
        assert forall|j: int| 0 <= j < last implies #[trigger] front[j] == shorter[j] by {}
        if expendable(s[last], ignored) && s[last].voice.vel() < s[k].voice.vel() {
            assert(is_quietest(front, ignored, last));
            last
        } else {
            assert(is_quietest(front, ignored, k));
            k
        }
    } else {
        assert forall|j: int| 0 <= j < n && expendable(#[trigger] front[j], ignored) implies j
            == last by {
            assert(front[j] == s[j]);
        }
        assert(expendable(front[last], ignored));
        last
    }
}

/// Giving up a voice leaves fewer expendable ones, and adds none to those that cannot be given up.
proof fn lemma_pop<V: Voice>(
    pre: (Seq<GroupVoice<V>>, Set<usize>),
    fade: bool,
    ignored: usize,
    post: (Seq<GroupVoice<V>>, Set<usize>),
)
    requires
        voice::release_is_seen::<V>(),
        any_expendable(pre.0, ignored),
        pops(pre, fade, ignored, post),
    ensures
        tally::count(post.0.len(), expendables(post.0, ignored)) < tally::count(
            pre.0.len(),
            expendables(pre.0, ignored),
        ),
        tally::count(post.0.len(), stuck(post.0, ignored, fade)) <= tally::count(
            pre.0.len(),
            stuck(pre.0, ignored, fade),
        ),
{
    let s = pre.0;
    let t = post.0;
    let n = s.len();
    let found = lemma_quietest(s, ignored, n as int);
    assert(s.take(n as int) =~= s);
    let k = choose|k: int| is_quietest(s, ignored, k);
    assert(is_quietest(s, ignored, k));
    if fade {
        let id = s[k].id;
        assert forall|i: int| 0 <= i < n implies #[trigger] in_group(s, id)(i) == (t[i].id == id)
            by {}
        assert forall|i: int| 0 <= i < n && t[i].id == id implies (
        #[trigger] t[i]).voice.killed() by {
            assert(in_group(s, id)(i));
            assert(V::releases(s[i].voice, ReleaseType::Kill, t[i].voice));
        }
        assert forall|i: int| 0 <= i < n && t[i].id != id implies #[trigger] t[i] == s[i] by {
            assert(!in_group(s, id)(i));
        }
        assert forall|i: int| 0 <= i < n && #[trigger] expendables(t, ignored)(i) implies
            expendables(s, ignored)(i) by {
            assert(t[i].id != id);
        }
        assert(t[k].id == id);
        tally::lemma_strict(n, expendables(t, ignored), expendables(s, ignored), k);
        assert forall|i: int| 0 <= i < n && #[trigger] stuck(t, ignored, fade)(i) implies stuck(
            s,
            ignored,
            fade,
        )(i) by {
            assert(t[i].id != id);
            assert forall|j: int| 0 <= j < n && (#[trigger] s[j]).id == s[i].id implies !expendable(
                s[j],
                ignored,
            ) by {
                assert(t[j].id == s[j].id);
                assert(t[j] == s[j]);
            }
        }
        tally::lemma_monotone(n, stuck(t, ignored, fade), stuck(s, ignored, fade));
    } else {
        let u = s.update(k, s.last());
        let m = (n - 1) as nat;
        assert(t.len() == m);
        tally::lemma_update(n, expendables(s, ignored), expendables(u, ignored), k);
        tally::lemma_same(m, expendables(u, ignored), expendables(t, ignored));
        tally::lemma_update(n, stuck(s, ignored, fade), stuck(u, ignored, fade), k);
        tally::lemma_same(m, stuck(u, ignored, fade), stuck(t, ignored, fade));
    }
}

/// A key ends up within its limit whenever enough of its voices can be given up.
///
/// A group larger than the limit is the exception: the voices that are being added are kept, so
/// they may exceed it.
pub proof fn lemma_trim_reaches_limit<V: Voice>(
    pre: (Seq<GroupVoice<V>>, Set<usize>),
    fade: bool,
    ignored: usize,
    max: usize,
    post: (Seq<GroupVoice<V>>, Set<usize>),
)
    requires
        voice::release_is_seen::<V>(),
        trims(pre, fade, ignored, Some(max), post),
        can_trim(pre.0, ignored, fade, max),
    ensures
        load(post.0, fade) <= max,
{
    let trace = choose|trace: Seq<(Seq<GroupVoice<V>>, Set<usize>)>| #[trigger]
        is_trimming(trace, fade, ignored, max) && trace[0] == pre && trace.last() == post;
    lemma_trace_stuck(trace, fade, ignored, max, trace.len() - 1);
    let s = post.0;
    let n = s.len();
    if load(s, fade) > max {
        if fade {
            let i = tally::lemma_witness(n, stuck(s, ignored, fade), active(s));
            let j = choose|j: int|
                0 <= j < n && (#[trigger] s[j]).id == s[i].id && expendable(s[j], ignored);
            assert(expendable(s[j], ignored));
        } else {
            tally::lemma_all(n, everywhere());
            let i = tally::lemma_witness(n, stuck(s, ignored, fade), everywhere());
            assert(expendable(s[i], ignored));
        }
    }
}

/// Along a trimming the voices that cannot be given up become no more.
proof fn lemma_trace_stuck<V: Voice>(
    trace: Seq<(Seq<GroupVoice<V>>, Set<usize>)>,
    fade: bool,
    ignored: usize,
    max: usize,
    k: int,
)
    requires
        voice::release_is_seen::<V>(),
        is_trimming(trace, fade, ignored, max),
        0 <= k < trace.len(),
    ensures
        tally::count(trace[k].0.len(), stuck(trace[k].0, ignored, fade)) <= tally::count(
            trace[0].0.len(),
            stuck(trace[0].0, ignored, fade),
        ),
    decreases k,
{
    if k > 0 {
        lemma_trace_stuck(trace, fade, ignored, max, k - 1);
        assert(any_expendable(trace[k - 1].0, ignored));
        lemma_pop(trace[k - 1], fade, ignored, trace[k - 1 + 1]);
    }
}

/// The positions at which `g` stands.
pub open spec fn copies<V>(s: Seq<GroupVoice<V>>, g: GroupVoice<V>) -> spec_fn(int) -> bool {
    |i: int| s[i] == g
}

/// Giving up voices for a group leaves every voice of that group as it was.
pub proof fn lemma_trim_keeps_new_group<V: Voice>(
    pre: (Seq<GroupVoice<V>>, Set<usize>),
    fade: bool,
    ignored: usize,
    max: Option<usize>,
    post: (Seq<GroupVoice<V>>, Set<usize>),
    g: GroupVoice<V>,
)
    requires
        trims(pre, fade, ignored, max, post),
        g.id == ignored,
    ensures
        tally::count(post.0.len(), copies(post.0, g)) == tally::count(
            pre.0.len(),
            copies(pre.0, g),
        ),
{
    if max is Some {
        let trace = choose|trace: Seq<(Seq<GroupVoice<V>>, Set<usize>)>| #[trigger]
            is_trimming(trace, fade, ignored, max->0) && trace[0] == pre && trace.last() == post;
        lemma_trace_keeps(trace, fade, ignored, max->0, g, trace.len() - 1);
    }
}

/// Along a trimming the voices of the new group stay.
proof fn lemma_trace_keeps<V: Voice>(
    trace: Seq<(Seq<GroupVoice<V>>, Set<usize>)>,
    fade: bool,
    ignored: usize,
    max: usize,
    g: GroupVoice<V>,
    k: int,
)
    requires
        is_trimming(trace, fade, ignored, max),
        0 <= k < trace.len(),
        g.id == ignored,
    ensures
        tally::count(trace[k].0.len(), copies(trace[k].0, g)) == tally::count(
            trace[0].0.len(),
            copies(trace[0].0, g),
        ),
    decreases k,
{
    if k > 0 {
        lemma_trace_keeps(trace, fade, ignored, max, g, k - 1);
        let s = trace[k - 1].0;
        assert(pops(trace[k - 1], fade, ignored, trace[k - 1 + 1]));
        let t = trace[k].0;
        let n = s.len();
        let found = lemma_quietest(s, ignored, n as int);
        assert(s.take(n as int) =~= s);
        let q = choose|q: int| is_quietest(s, ignored, q);
        assert(is_quietest(s, ignored, q));
        if fade {
            assert forall|i: int| 0 <= i < n implies #[trigger] copies(t, g)(i) == copies(s, g)(i)
                by {
                assert(in_group(s, s[q].id)(i) == (t[i].id == s[q].id));
            }
            tally::lemma_same(n, copies(t, g), copies(s, g));
        } else {
            let u = s.update(q, s.last());
            let m = (n - 1) as nat;
            tally::lemma_update(n, copies(s, g), copies(u, g), q);
            tally::lemma_same(m, copies(u, g), copies(t, g));
        }
    }
}

/// A group that is let go while the damper is held is released when the damper goes up.
pub proof fn lemma_damper_releases_held<V: Voice>(
    s: Seq<GroupVoice<V>>,
    before: Set<usize>,
    after: Set<usize>,
    t: Seq<GroupVoice<V>>,
    id: usize,
    i: int,
)
    requires
        next_held(s, before, id),
        holds_next(s, before, after),
        signalled(s, in_groups(s, after), ReleaseType::Standard, t),
        0 <= i < s.len(),
        s[i].id == id,
    ensures
        V::releases(s[i].voice, ReleaseType::Standard, t[i].voice),
{
    let chosen = choose|id: usize| #[trigger]
        next_held(s, before, id) && after == before.insert(id);
    assert(next_held(s, before, chosen) && after == before.insert(chosen));
    assert(chosen == id) by {
        let a = choose|k: int|
            {
                &&& 0 <= k < s.len()
                &&& #[trigger] s[k].id == id
                &&& sounding(s[k])
                &&& !before.contains(id)
                &&& forall|i: int|
                    0 <= i < k && sounding(#[trigger] s[i]) ==> before.contains(s[i].id)
            };
        let b = choose|k: int|
            {
                &&& 0 <= k < s.len()
                &&& #[trigger] s[k].id == chosen
                &&& sounding(s[k])
                &&& !before.contains(chosen)
                &&& forall|i: int|
                    0 <= i < k && sounding(#[trigger] s[i]) ==> before.contains(s[i].id)
            };
        assert(sounding(s[a]) && sounding(s[b]));
    }
    assert(in_groups(s, after)(i));
    assert(t[i].id == s[i].id);
}

/// The positions of the voices that are the first of their group that still sounds.
pub open spec fn leading<V: Voice>(s: Seq<GroupVoice<V>>) -> spec_fn(int) -> bool {
    |i: int|
        sounding(s[i]) && forall|j: int|
            0 <= j < i && (#[trigger] s[j]).id == s[i].id ==> !sounding(s[j])
}

/// The number of groups with a voice that still sounds at `i` or before.
pub open spec fn groups_up_to<V: Voice>(s: Seq<GroupVoice<V>>, i: int) -> nat {
    tally::count((i + 1) as nat, leading(s))
}

/// The positions of the voices that still sound and belong to the first `k` such groups.
pub open spec fn in_oldest<V: Voice>(s: Seq<GroupVoice<V>>, k: int) -> spec_fn(int) -> bool {
    |i: int| sounding(s[i]) && groups_up_to(s, i) <= k
}

/// The first `k` groups that still sound.
pub open spec fn oldest<V: Voice>(s: Seq<GroupVoice<V>>, k: int) -> Set<usize> {
    Set::new(
        |id: usize|
            exists|i: int|
                0 <= i < s.len() && (#[trigger] s[i]).id == id && in_oldest(s, k)(i),
    )
}

/// Whether no voice that still sounds stands between two such voices of another group.
pub open spec fn together<V: Voice>(s: Seq<GroupVoice<V>>) -> bool {
    forall|i: int, j: int, l: int|
        #![trigger s[i], s[j], s[l]]
        0 <= i <= j <= l < s.len() && sounding(s[i]) && sounding(s[j]) && sounding(s[l])
            && s[i].id == s[l].id ==> s[j].id == s[i].id
}

/// Whether `trace` lets the key go once for each of `vels`, which is what that reports.
pub open spec fn lets_go_on<V: Voice>(trace: Seq<VoiceBuffer<V>>, vels: Seq<Option<u8>>) -> bool {
    &&& trace.len() == vels.len() + 1
    &&& forall|i: int| 0 <= i < vels.len() ==> #[trigger] lets_go_at(trace, vels, i)
}

/// Whether step `i` of `trace` lets the key go.
pub open spec fn lets_go_at<V: Voice>(
    trace: Seq<VoiceBuffer<V>>,
    vels: Seq<Option<u8>>,
    i: int,
) -> bool {
    VoiceBuffer::lets_go(trace[i], vels[i], trace[i + 1])
}

/// The damper delays releases and loses none. Letting the key go any number of times while the
/// damper is held reports nothing and leaves the voices alone. When the damper goes up, as many of
/// the oldest groups that still sound are released, and they are the groups whose voices letting
/// the key go as often without the damper releases. Letting the damper up again releases nothing.
///
/// A voice of those groups that no longer sounded is signalled again when the damper goes up.
/// Where the voices of a group are torn apart, which taking a voice out to make room can do, the
/// damper releases the group as a whole, and letting the key go without it only the first part.
pub proof fn lemma_damper_delays_releases<V: Voice>(
    buffer: VoiceBuffer<V>,
    held: Seq<VoiceBuffer<V>>,
    silent: Seq<Option<u8>>,
    up: VoiceBuffer<V>,
    again: VoiceBuffer<V>,
    free: Seq<VoiceBuffer<V>>,
    vels: Seq<Option<u8>>,
)
    requires
        buffer.wf(),
        !buffer.damper(),
        together(buffer.groups()),
        VoiceBuffer::moves_damper(buffer, true, held[0]),
        lets_go_on(held, silent),
        VoiceBuffer::moves_damper(held.last(), false, up),
        VoiceBuffer::moves_damper(up, false, again),
        free[0] == buffer,
        lets_go_on(free, vels),
        silent.len() == vels.len(),
    ensures
        forall|i: int| 0 <= i < silent.len() ==> #[trigger] silent[i] is None,
        held.last().groups() == buffer.groups(),
        held.last().held() == oldest(buffer.groups(), vels.len() as int),
        signalled(
            buffer.groups(),
            in_groups(buffer.groups(), oldest(buffer.groups(), vels.len() as int)),
            ReleaseType::Standard,
            up.groups(),
        ),
        signalled(
            buffer.groups(),
            in_oldest(buffer.groups(), vels.len() as int),
            ReleaseType::Standard,
            free.last().groups(),
        ),
        forall|i: int|
            0 <= i < buffer.groups().len() && sounding(#[trigger] buffer.groups()[i]) ==> (
            in_groups(buffer.groups(), oldest(buffer.groups(), vels.len() as int))(i)
                <==> in_oldest(buffer.groups(), vels.len() as int)(i)),
        again.groups() == up.groups(),
{
    let s = buffer.groups();
    let k = vels.len() as int;
    lemma_held_oldest(held, silent, k);
    lemma_released_oldest(free, vels, k);
    assert forall|i: int| 0 <= i < silent.len() implies #[trigger] silent[i] is None by {
        lemma_held_oldest(held, silent, i);
        assert(lets_go_at(held, silent, i));
    }
    assert forall|i: int| 0 <= i < s.len() && sounding(#[trigger] s[i]) implies (in_groups(
        s,
        oldest(s, k),
    )(i) <==> in_oldest(s, k)(i)) by {
        lemma_oldest(s, k, i);
    }
}

/// There are no fewer groups up to a later position.
proof fn lemma_groups_up_to<V: Voice>(s: Seq<GroupVoice<V>>, i: int, j: int)
    requires
        -1 <= i <= j < s.len(),
    ensures
        groups_up_to(s, i) <= groups_up_to(s, j),
    decreases j - i,
{
    if i < j {
        lemma_groups_up_to(s, i, j - 1);
    }
}

/// A group that still sounds has a first voice that does.
proof fn lemma_leader<V: Voice>(s: Seq<GroupVoice<V>>, i: int) -> (first: int)
    requires
        0 <= i < s.len(),
        sounding(s[i]),
    ensures
        0 <= first <= i,
        s[first].id == s[i].id,
        leading(s)(first),
    decreases i,
{
    if leading(s)(i) {
        i
    } else {
        let j = choose|j: int| 0 <= j < i && (#[trigger] s[j]).id == s[i].id && sounding(s[j]);
        lemma_leader(s, j)
    }
}

/// As long as only voices of one group sound, no other group is counted.
proof fn lemma_one_group<V: Voice>(s: Seq<GroupVoice<V>>, i: int, j: int)
    requires
        0 <= i <= j < s.len(),
        sounding(s[i]),
        forall|m: int| i <= m <= j && sounding(#[trigger] s[m]) ==> s[m].id == s[i].id,
    ensures
        groups_up_to(s, i) == groups_up_to(s, j),
    decreases j - i,
{
    if i < j {
        lemma_one_group(s, i, j - 1);
        assert(!leading(s)(j)) by {
            if sounding(s[j]) {
                assert(s[i].id == s[j].id);
            }
        }
    }
}

/// Two voices that still sound are of one group if and only if as many groups lie up to each.
proof fn lemma_group_of_number<V: Voice>(s: Seq<GroupVoice<V>>, i: int, j: int)
    requires
        together(s),
        0 <= i < s.len(),
        0 <= j < s.len(),
        sounding(s[i]),
        sounding(s[j]),
    ensures
        groups_up_to(s, i) == groups_up_to(s, j) <==> s[i].id == s[j].id,
        groups_up_to(s, i) >= 1,
{
    let (a, b) = if i <= j {
        (i, j)
    } else {
        (j, i)
    };
    if s[a].id == s[b].id {
        assert forall|m: int| a <= m <= b && sounding(#[trigger] s[m]) implies s[m].id
            == s[a].id by {
            assert(s[b].id == s[a].id);
        }
        lemma_one_group(s, a, b);
    } else {
        let first = lemma_leader(s, b);
        assert(first > a) by {
            if first <= a {
                assert(s[first].id == s[b].id);
                assert(s[a].id == s[first].id);
            }
        }
        lemma_groups_up_to(s, a, first - 1);
        lemma_groups_up_to(s, first, b);
    }
    let first = lemma_leader(s, i);
    lemma_groups_up_to(s, first, i);
}

/// A voice that still sounds is one of the first `k` groups if and only if that group is.
proof fn lemma_oldest<V: Voice>(s: Seq<GroupVoice<V>>, k: int, i: int)
    requires
        together(s),
        0 <= i < s.len(),
        sounding(s[i]),
    ensures
        oldest(s, k).contains(s[i].id) <==> in_oldest(s, k)(i),
{
    if oldest(s, k).contains(s[i].id) {
        let j = choose|j: int|
            0 <= j < s.len() && (#[trigger] s[j]).id == s[i].id && in_oldest(s, k)(j);
        lemma_group_of_number(s, i, j);
    }
}

/// Up to a position before which every voice that still sounds is one of the first `k` groups there
/// are no more than `k`.
proof fn lemma_all_oldest<V: Voice>(s: Seq<GroupVoice<V>>, k: int, i: int)
    requires
        0 <= k,
        -1 <= i < s.len(),
        forall|j: int| 0 <= j <= i && sounding(#[trigger] s[j]) ==> in_oldest(s, k)(j),
    ensures
        groups_up_to(s, i) <= k,
    decreases i + 1,
{
    if i >= 0 && !sounding(s[i]) {
        lemma_all_oldest(s, k, i - 1);
    } else if i >= 0 {
        assert(in_oldest(s, k)(i));
    }
}

/// The first voice that still sounds past the first `k` groups is of the next one.
proof fn lemma_next_oldest<V: Voice>(s: Seq<GroupVoice<V>>, k: int, first: int)
    requires
        0 <= k,
        0 <= first < s.len(),
        sounding(s[first]),
        !in_oldest(s, k)(first),
        forall|i: int| 0 <= i < first && sounding(#[trigger] s[i]) ==> in_oldest(s, k)(i),
    ensures
        groups_up_to(s, first) == k + 1,
{
    lemma_all_oldest(s, k, first - 1);
}

/// While the damper is held, letting the key go `k` times makes it hold the first `k` groups.
proof fn lemma_held_oldest<V: Voice>(
    trace: Seq<VoiceBuffer<V>>,
    vels: Seq<Option<u8>>,
    k: int,
)
    requires
        lets_go_on(trace, vels),
        trace[0].damper(),
        trace[0].held() == Set::<usize>::empty(),
        together(trace[0].groups()),
        0 <= k <= vels.len(),
    ensures
        trace[k].damper(),
        trace[k].groups() == trace[0].groups(),
        trace[k].held() == oldest(trace[0].groups(), k),
    decreases k,
{
    let s = trace[0].groups();
    if k == 0 {
        assert forall|i: int| 0 <= i < s.len() && sounding(#[trigger] s[i]) implies !in_oldest(
            s,
            0,
        )(i) by {
            lemma_group_of_number(s, i, i);
        }
    } else {
        lemma_held_oldest(trace, vels, k - 1);
        assert(lets_go_at(trace, vels, k - 1));
        let before = trace[k - 1].held();
        let after = trace[k].held();
        assert(holds_next(s, before, after));
        if exists|id: usize| next_held(s, before, id) {
            let id = choose|id: usize| #[trigger]
                next_held(s, before, id) && after == before.insert(id);
            assert(next_held(s, before, id) && after == before.insert(id));
            let first = choose|first: int|
                {
                    &&& 0 <= first < s.len()
                    &&& #[trigger] s[first].id == id
                    &&& sounding(s[first])
                    &&& !before.contains(id)
                    &&& forall|i: int|
                        0 <= i < first && sounding(#[trigger] s[i]) ==> before.contains(s[i].id)
                };
            lemma_oldest(s, k - 1, first);
            assert forall|i: int| 0 <= i < first && sounding(#[trigger] s[i]) implies in_oldest(
                s,
                k - 1,
            )(i) by {
                lemma_oldest(s, k - 1, i);
            }
            lemma_next_oldest(s, k - 1, first);
            assert(in_oldest(s, k)(first));
            assert forall|i: int| 0 <= i < s.len() && in_oldest(s, k)(i) && !in_oldest(s, k - 1)(
                i,
            ) implies (#[trigger] s[i]).id == id by {
                lemma_group_of_number(s, i, first);
            }
            assert forall|other: usize| #[trigger] after.contains(other) <==> oldest(
                s,
                k,
            ).contains(other) by {
                if before.contains(other) {
                    let i = choose|i: int|
                        0 <= i < s.len() && (#[trigger] s[i]).id == other && in_oldest(s, k - 1)(i);
                    assert(s[i].id == other && in_oldest(s, k)(i));
                } else if oldest(s, k).contains(other) {
                    let i = choose|i: int|
                        0 <= i < s.len() && (#[trigger] s[i]).id == other && in_oldest(s, k)(i);
                    assert(s[i].id == other && !in_oldest(s, k - 1)(i));
                }
            }
            assert(after =~= oldest(s, k));
        } else {
            assert forall|i: int| 0 <= i < s.len() implies #[trigger] in_oldest(s, k)(i)
                == in_oldest(s, k - 1)(i) by {
                if sounding(s[i]) {
                    lemma_all_held(s, before, i);
                    lemma_oldest(s, k - 1, i);
                }
            }
            assert forall|other: usize| #[trigger] before.contains(other) <==> oldest(
                s,
                k,
            ).contains(other) by {
                if before.contains(other) {
                    let i = choose|i: int|
                        0 <= i < s.len() && (#[trigger] s[i]).id == other && in_oldest(s, k - 1)(i);
                    assert(s[i].id == other && in_oldest(s, k)(i));
                } else if oldest(s, k).contains(other) {
                    let i = choose|i: int|
                        0 <= i < s.len() && (#[trigger] s[i]).id == other && in_oldest(s, k)(i);
                    assert(s[i].id == other && in_oldest(s, k - 1)(i));
                }
            }
            assert(before =~= oldest(s, k));
        }
    }
}

/// Where the damper has no more group to hold, it holds every voice that still sounds.
proof fn lemma_all_held<V: Voice>(s: Seq<GroupVoice<V>>, held: Set<usize>, i: int)
    requires
        0 <= i < s.len(),
        !exists|id: usize| next_held(s, held, id),
    ensures
        forall|j: int| 0 <= j <= i && sounding(#[trigger] s[j]) ==> held.contains(s[j].id),
    decreases i,
{
    if i > 0 {
        lemma_all_held(s, held, i - 1);
    }
    if sounding(s[i]) && !held.contains(s[i].id) {
        assert(next_held(s, held, s[i].id));
    }
}

/// Without the damper, letting the key go `k` times releases the first `k` groups.
proof fn lemma_released_oldest<V: Voice>(
    trace: Seq<VoiceBuffer<V>>,
    vels: Seq<Option<u8>>,
    k: int,
)
    requires
        voice::release_is_seen::<V>(),
        lets_go_on(trace, vels),
        !trace[0].damper(),
        together(trace[0].groups()),
        0 <= k <= vels.len(),
    ensures
        !trace[k].damper(),
        signalled(
            trace[0].groups(),
            in_oldest(trace[0].groups(), k),
            ReleaseType::Standard,
            trace[k].groups(),
        ),
    decreases k,
{
    let s = trace[0].groups();
    if k == 0 {
        assert forall|i: int| 0 <= i < s.len() implies !(#[trigger] in_oldest(s, 0)(i)) by {
            if sounding(s[i]) {
                lemma_group_of_number(s, i, i);
            }
        }
    } else {
        lemma_released_oldest(trace, vels, k - 1);
        assert(lets_go_at(trace, vels, k - 1));
        let t = trace[k - 1].groups();
        let u = trace[k].groups();
        let vel = vels[k - 1];
        assert(releases_next(t, vel, u));
        assert forall|i: int| 0 <= i < s.len() implies sounding(#[trigger] t[i]) == (sounding(s[i])
            && !in_oldest(s, k - 1)(i)) by {
            if in_oldest(s, k - 1)(i) {
                assert(V::releases(s[i].voice, ReleaseType::Standard, t[i].voice));
            } else {
                assert(t[i] == s[i]);
            }
        }
        if vel is None {
            assert forall|i: int| 0 <= i < s.len() implies #[trigger] in_oldest(s, k)(i)
                == in_oldest(s, k - 1)(i) by {
                assert(!sounding(t[i]));
            }
            assert forall|i: int| 0 <= i < s.len() implies {
                &&& (#[trigger] u[i]).id == s[i].id
                &&& if in_oldest(s, k)(i) {
                    V::releases(s[i].voice, ReleaseType::Standard, u[i].voice)
                } else {
                    u[i] == s[i]
                }
            } by {
                assert(t[i].id == s[i].id);
                assert(in_oldest(s, k)(i) == in_oldest(s, k - 1)(i));
            }
        } else {
            let (first, end) = choose|first: int, end: int| #[trigger]
                next_group(t, first, end) && vel->0 == t[first].voice.vel() && signalled(
                    t,
                    sounding_between(t, first, end),
                    ReleaseType::Standard,
                    u,
                );
            let which = sounding_between(t, first, end);
            assert(sounding(t[first]));
            assert forall|i: int| 0 <= i < first && sounding(#[trigger] s[i]) implies in_oldest(
                s,
                k - 1,
            )(i) by {
                assert(!sounding(t[i]));
            }
            lemma_next_oldest(s, k - 1, first);
            assert forall|i: int| 0 <= i < s.len() implies #[trigger] which(i) == (in_oldest(s, k)(i)
                && !in_oldest(s, k - 1)(i)) by {
                assert(t[i].id == s[i].id);
                assert(t[first].id == s[first].id);
                if sounding(t[i]) {
                    lemma_group_of_number(s, i, first);
                    if i >= end {
                        assert(sounding(t[end]) && t[end].id == s[end].id);
                        lemma_group_of_number(s, end, first);
                        lemma_groups_up_to(s, first, end);
                        lemma_groups_up_to(s, end, i);
                    } else if i < first {
                        assert(!sounding(t[i]));
                    }
                }
            }
            assert forall|i: int| 0 <= i < s.len() implies {
                &&& (#[trigger] u[i]).id == s[i].id
                &&& if in_oldest(s, k)(i) {
                    V::releases(s[i].voice, ReleaseType::Standard, u[i].voice)
                } else {
                    u[i] == s[i]
                }
            } by {
                assert(t[i].id == s[i].id);
                assert(which(i) == (in_oldest(s, k)(i) && !in_oldest(s, k - 1)(i)));
            }
        }
    }
}

/// The positions of the voices that still sound.
pub open spec fn all_sounding<V: Voice>(s: Seq<GroupVoice<V>>) -> spec_fn(int) -> bool {
    |i: int| sounding(s[i])
}

/// The number of voices that still sound.
pub open spec fn sounding_count<V: Voice>(s: Seq<GroupVoice<V>>) -> nat {
    tally::count(s.len(), all_sounding(s))
}

/// Releasing the next group leaves fewer voices sounding.
pub proof fn lemma_release_silences<V: Voice>(
    pre: Seq<GroupVoice<V>>,
    vel: u8,
    post: Seq<GroupVoice<V>>,
)
    requires
        voice::release_is_seen::<V>(),
        releases_next(pre, Some(vel), post),
    ensures
        sounding_count(post) < sounding_count(pre),
{
    let (first, end) = choose|first: int, end: int| #[trigger]
        next_group(pre, first, end) && vel == pre[first].voice.vel() && signalled(
            pre,
            sounding_between(pre, first, end),
            ReleaseType::Standard,
            post,
        );
    let which = sounding_between(pre, first, end);
    assert forall|i: int| 0 <= i < pre.len() && which(i) implies !sounding(#[trigger] post[i]) by {
        assert(V::releases(pre[i].voice, ReleaseType::Standard, post[i].voice));
    }
    assert forall|i: int| 0 <= i < pre.len() && #[trigger] all_sounding(post)(i) implies
        all_sounding(pre)(i) by {
        assert(sounding(post[i]));
        assert(!which(i));
    }
    assert(which(first));
    assert(!sounding(post[first]));
    tally::lemma_strict(pre.len(), all_sounding(post), all_sounding(pre), first);
}

/// Adding voices that do not sound makes no more of them sound.
pub proof fn lemma_push_of_silent<V: Voice>(
    pre: VoiceBuffer<V>,
    counter: u64,
    voices: Seq<V>,
    post: VoiceBuffer<V>,
)
    requires
        voice::release_is_seen::<V>(),
        VoiceBuffer::pushes(pre, counter, voices, post),
        forall|i: int|
            0 <= i < voices.len() ==> (#[trigger] voices[i]).releasing() || voices[i].killed(),
    ensures
        sounding_count(post.groups()) <= sounding_count(pre.groups()),
{
    let new = admitted(post.last_id(), voices, pre.limit(), counter);
    let all = pre.groups() + new;
    assert forall|i: int| 0 <= i < new.len() implies !sounding(#[trigger] new[i]) by {
        assert(new[i].voice == voices[i]);
    }
    lemma_sounding_append(pre.groups(), new);
    if pre.max() is Some {
        let ignored = post.last_id();
        let max = pre.max()->0;
        let fade = pre.fades();
        let first = (all, pre.held());
        let last = (post.groups(), post.held());
        let trace = choose|trace: Seq<(Seq<GroupVoice<V>>, Set<usize>)>| #[trigger]
            is_trimming(trace, fade, ignored, max) && trace[0] == first && trace.last() == last;
        lemma_trace_sounding(trace, fade, ignored, max, trace.len() - 1);
    }
}

/// Voices that do not sound do not count.
proof fn lemma_sounding_append<V: Voice>(s: Seq<GroupVoice<V>>, new: Seq<GroupVoice<V>>)
    requires
        forall|i: int| 0 <= i < new.len() ==> !sounding(#[trigger] new[i]),
    ensures
        sounding_count(s + new) == sounding_count(s),
    decreases new.len(),
{
    let all = s + new;
    if new.len() == 0 {
        assert(all =~= s);
    } else {
        let fewer = new.drop_last();
        lemma_sounding_append(s, fewer);
        let n = (all.len() - 1) as nat;
        assert(all[n as int] == new.last());
        tally::lemma_same(n, all_sounding(all), all_sounding(s + fewer));
    }
}

/// Along a trimming no voice starts to sound.
proof fn lemma_trace_sounding<V: Voice>(
    trace: Seq<(Seq<GroupVoice<V>>, Set<usize>)>,
    fade: bool,
    ignored: usize,
    max: usize,
    k: int,
)
    requires
        voice::release_is_seen::<V>(),
        is_trimming(trace, fade, ignored, max),
        0 <= k < trace.len(),
    ensures
        sounding_count(trace[k].0) <= sounding_count(trace[0].0),
    decreases k,
{
    if k > 0 {
        lemma_trace_sounding(trace, fade, ignored, max, k - 1);
        let s = trace[k - 1].0;
        assert(pops(trace[k - 1], fade, ignored, trace[k - 1 + 1]));
        let t = trace[k].0;
        let n = s.len();
        let found = lemma_quietest(s, ignored, n as int);
        assert(s.take(n as int) =~= s);
        let q = choose|q: int| is_quietest(s, ignored, q);
        assert(is_quietest(s, ignored, q));
        if fade {
            assert forall|i: int| 0 <= i < n && #[trigger] all_sounding(t)(i) implies all_sounding(
                s,
            )(i) by {
                if in_group(s, s[q].id)(i) {
                    assert(V::releases(s[i].voice, ReleaseType::Kill, t[i].voice));
                }
                assert(sounding(t[i]));
            }
            tally::lemma_monotone(n, all_sounding(t), all_sounding(s));
        } else {
            let u = s.update(q, s.last());
            let m = (n - 1) as nat;
            tally::lemma_update(n, all_sounding(s), all_sounding(u), q);
            tally::lemma_same(m, all_sounding(u), all_sounding(t));
        }
    }
}

/// One more voice either lasts or has ended.
proof fn lemma_lasting_step<V: Voice>(s: Seq<GroupVoice<V>>, n: int)
    requires
        0 <= n < s.len(),
    ensures
        lasting(s.take(n + 1)) == if s[n].voice.has_ended() {
            lasting(s.take(n))
        } else {
            lasting(s.take(n)).push(s[n])
        },
        forall|id: usize| #[trigger]
            any_ended(s.take(n + 1), id) <==> any_ended(s.take(n), id) || (s[n].id == id
                && s[n].voice.has_ended()),
{
    let p = |g: GroupVoice<V>| !g.voice.has_ended();
    let longer = s.take(n + 1);
    assert(longer.drop_last() =~= s.take(n));
    reveal(Seq::filter);
    assert forall|id: usize| #[trigger] any_ended(longer, id) <==> any_ended(s.take(n), id) || (
    s[n].id == id && s[n].voice.has_ended()) by {
        if any_ended(longer, id) {
            let i = choose|i: int|
                0 <= i < longer.len() && (#[trigger] longer[i]).id == id
                    && longer[i].voice.has_ended();
            if i < n {
                assert(s.take(n)[i] == longer[i]);
            }
        }
        if any_ended(s.take(n), id) {
            let i = choose|i: int|
                0 <= i < s.take(n).len() && (#[trigger] s.take(n)[i]).id == id
                    && s.take(n)[i].voice.has_ended();
            assert(longer[i] == s.take(n)[i]);
        }
        if s[n].id == id && s[n].voice.has_ended() {
            assert(longer[n] == s[n]);
        }
    }
}

/// The voices that last keep their ids.
proof fn lemma_lasting_ids<V: Voice>(s: Seq<GroupVoice<V>>, most: usize)
    requires
        forall|i: int| 0 <= i < s.len() ==> (#[trigger] s[i]).id <= most,
    ensures
        forall|i: int| 0 <= i < lasting(s).len() ==> (#[trigger] lasting(s)[i]).id <= most,
    decreases s.len(),
{
    reveal(Seq::filter);
    if s.len() > 0 {
        lemma_lasting_ids(s.drop_last(), most);
        lemma_lasting_step(s, s.len() - 1);
        assert(s.take(s.len() as int) =~= s);
        assert(s.take(s.len() - 1) =~= s.drop_last());
    }
}

/// Every voice that lasts was there before.
pub proof fn lemma_lasting_members<V: Voice>(s: Seq<GroupVoice<V>>)
    ensures
        forall|i: int|
            0 <= i < lasting(s).len() ==> exists|j: int|
                0 <= j < s.len() && s[j] == #[trigger] lasting(s)[i],
        forall|i: int| 0 <= i < lasting(s).len() ==> !(#[trigger] lasting(s)[i]).voice.has_ended(),
    decreases s.len(),
{
    reveal(Seq::filter);
    if s.len() > 0 {
        let fewer = s.drop_last();
        lemma_lasting_members(fewer);
        lemma_lasting_step(s, s.len() - 1);
        assert(s.take(s.len() as int) =~= s);
        assert(s.take(s.len() - 1) =~= fewer);
        assert forall|i: int| 0 <= i < lasting(s).len() implies exists|j: int|
            0 <= j < s.len() && s[j] == #[trigger] lasting(s)[i] by {
            if i < lasting(fewer).len() {
                assert(lasting(s)[i] == lasting(fewer)[i]);
                let j = choose|j: int| 0 <= j < fewer.len() && fewer[j] == lasting(fewer)[i];
                assert(s[j] == lasting(s)[i]);
            } else {
                assert(s[s.len() - 1] == lasting(s)[i]);
            }
        }
    }
}

/// A key without voices plays nothing.
pub proof fn lemma_nothing_plays<V: Voice>(buffer: VoiceBuffer<V>, out: Seq<V::Sample>)
    requires
        buffer.groups().len() == 0,
    ensures
        VoiceBuffer::plays(buffer, out, buffer, out),
        VoiceBuffer::sheds(buffer, buffer),
{
    assert(is_mix(buffer.groups(), buffer.groups(), seq![out]));
    reveal(Seq::filter);
    assert(lasting(buffer.groups()) =~= buffer.groups());
}

/// Whether voices join a buffer at its end, in order and as one group that is newer than every other.
pub open spec fn join_at_end<V: Voice>(
    pre: Seq<GroupVoice<V>>,
    voices: Seq<V>,
    post: Seq<GroupVoice<V>>,
) -> bool {
    &&& pre.len() <= post.len() <= pre.len() + voices.len()
    &&& forall|i: int| 0 <= i < pre.len() ==> #[trigger] post[i] == pre[i]
    &&& forall|j: int|
        pre.len() <= j < post.len() ==> (#[trigger] post[j]).voice == voices[j - pre.len()]
    &&& forall|i: int, j: int|
        0 <= i < pre.len() <= j < post.len() ==> (#[trigger] pre[i]).id < (
        #[trigger] post[j]).id
    &&& forall|i: int, j: int|
        pre.len() <= i < post.len() && pre.len() <= j < post.len() ==> (#[trigger] post[i]).id == (
        #[trigger] post[j]).id
}

/// The number of voices that have not been killed.
pub open spec fn unkilled<V: Voice>(s: Seq<GroupVoice<V>>) -> nat {
    tally::count(s.len(), |i: int| !s[i].voice.killed())
}

/// Whether `n` of `offered` voices join where all keys together have `count`: all of them without a
/// limit, else as many as reach it.
pub open spec fn fills_up(limit: Option<usize>, count: u64, offered: int, n: int) -> bool {
    match limit {
        None => n == offered,
        Some(limit) => {
            &&& n > 0 ==> count + n <= limit
            &&& n < offered ==> count + n >= limit
        },
    }
}

/// New voices join at the end, behind every voice that was there. All of them do where no limit is
/// set on all keys together; else they join until the limit is reached, and never beyond it. This is
/// so where the key has room: it has no limit of its own, or voices enough below it. Killed voices
/// take up no room while they fade out.
pub proof fn lemma_new_voices_join<V: Voice>(
    buffer: &mut VoiceBuffer<V>,
    voices: Vec<V>,
    counter: &mut u64,
)
    requires
        call_ensures(VoiceBuffer::<V>::push_voices, (buffer, voices, counter), ()),
        old(buffer).wf(),
        old(buffer).max() matches Some(max) ==> {
            ||| old(buffer).groups().len() + voices@.len() <= max
            ||| old(buffer).fades() && unkilled(old(buffer).groups()) + voices@.len() <= max
        },
    ensures
        join_at_end(old(buffer).groups(), voices@, final(buffer).groups()),
        final(buffer).held() == old(buffer).held(),
        final(buffer).damper() == old(buffer).damper(),
        final(buffer).max() == old(buffer).max(),
        fills_up(
            old(buffer).limit(),
            *old(counter),
            voices@.len() as int,
            final(buffer).groups().len() - old(buffer).groups().len(),
        ),
{
    let pre = old(buffer).groups();
    let id = final(buffer).last_id();
    let new = admitted(id, voices@, old(buffer).limit(), *old(counter));
    let all = pre + new;
    assert forall|j: int| pre.len() <= j < all.len() implies (#[trigger] all[j]).voice == voices@[j
        - pre.len()] && all[j].id == id by {
        assert(all[j] == new[j - pre.len()]);
    }
    if old(buffer).max() is Some {
        let max = old(buffer).max()->0;
        let fade = old(buffer).fades();
        lemma_unkilled(pre, new);
        tally::lemma_bound(all.len(), active(all));
        assert(load(all, fade) <= max);
        let first = (all, old(buffer).held());
        let last = (final(buffer).groups(), final(buffer).held());
        let trace = choose|trace: Seq<(Seq<GroupVoice<V>>, Set<usize>)>| #[trigger]
            is_trimming(trace, fade, id, max) && trace[0] == first && trace.last() == last;
        if trace.len() > 1 {
            assert(load(trace[0].0, fade) > max);
        }
        assert(trace.last() == trace[0]);
    }
}

/// Each new voice counts once at most among those that have not been killed.
proof fn lemma_unkilled<V: Voice>(s: Seq<GroupVoice<V>>, new: Seq<GroupVoice<V>>)
    ensures
        active_count(s + new) <= unkilled(s) + new.len(),
    decreases new.len(),
{
    let counted = |i: int| !s[i].voice.killed();
    if new.len() == 0 {
        assert(s + new =~= s);
        tally::lemma_monotone(s.len(), active(s), counted);
    } else {
        let fewer = new.drop_last();
        lemma_unkilled(s, fewer);
        let t = s + new;
        let u = s + fewer;
        assert forall|i: int| 0 <= i < u.len() && #[trigger] active(t)(i) implies active(u)(i) by {
            assert(t[i] == u[i]);
        }
        tally::lemma_monotone(u.len(), active(t), active(u));
        assert(t.len() == u.len() + 1);
    }
}

/// Whether a voice is as quiet as any that may be given up for the group `ignored`.
pub open spec fn gives_way<V: Voice>(s: Seq<GroupVoice<V>>, ignored: usize, k: int) -> bool {
    &&& 0 <= k < s.len()
    &&& s[k].id != ignored
    &&& !s[k].voice.killed()
    &&& s[k].voice.vel() < 255
    &&& forall|j: int|
        0 <= j < s.len() && (#[trigger] s[j]).id != ignored && !s[j].voice.killed()
            ==> s[k].voice.vel() <= s[j].voice.vel()
}

/// Whether the voice `k` is taken out of `s` and the last voice takes its place.
pub open spec fn is_taken_out<V>(
    s: Seq<GroupVoice<V>>,
    k: int,
    t: Seq<GroupVoice<V>>,
) -> bool {
    &&& t.len() == s.len() - 1
    &&& k < t.len() ==> t[k] == s[s.len() - 1]
    &&& forall|i: int| 0 <= i < t.len() && i != k ==> #[trigger] t[i] == s[i]
}

/// Whether the voices of the group of voice `k` are killed and the others are left alone.
pub open spec fn is_group_killed<V: Voice>(
    s: Seq<GroupVoice<V>>,
    k: int,
    t: Seq<GroupVoice<V>>,
) -> bool {
    &&& t.len() == s.len()
    &&& forall|i: int|
        0 <= i < s.len() ==> {
            &&& (#[trigger] t[i]).id == s[i].id
            &&& s[i].id == s[k].id ==> V::releases(s[i].voice, ReleaseType::Kill, t[i].voice)
            &&& s[i].id != s[k].id ==> t[i] == s[i]
        }
}

/// Whether the quietest voice is given up, and the damper lets its group go.
pub open spec fn quietest_leaves<V: Voice>(
    pre: (Seq<GroupVoice<V>>, Set<usize>),
    fade: bool,
    ignored: usize,
    k: int,
    post: (Seq<GroupVoice<V>>, Set<usize>),
) -> bool {
    &&& gives_way(pre.0, ignored, k)
    &&& fade ==> is_group_killed(pre.0, k, post.0)
    &&& !fade ==> is_taken_out(pre.0, k, post.0)
    &&& forall|id: usize| #[trigger]
        post.1.contains(id) <==> pre.1.contains(id) && id != pre.0[k].id
}

/// Whether every voice is of the group `ignored`, was killed or is as loud as can be.
pub open spec fn none_gives_way<V: Voice>(s: Seq<GroupVoice<V>>, ignored: usize) -> bool {
    forall|i: int|
        0 <= i < s.len() ==> {
            ||| (#[trigger] s[i]).id == ignored
            ||| s[i].voice.killed()
            ||| s[i].voice.vel() == 255
        }
}

/// Where a voice has to be given up it is one that no other voice is quieter than; the voices of the
/// newest group, and those of the loudest velocity, are never given up.
pub proof fn lemma_quietest_gives_way<V: Voice>(
    pre: (Seq<GroupVoice<V>>, Set<usize>),
    fade: bool,
    ignored: usize,
    post: (Seq<GroupVoice<V>>, Set<usize>),
)
    requires
        pops(pre, fade, ignored, post),
    ensures
        (exists|k: int| #[trigger] quietest_leaves(pre, fade, ignored, k, post)) || (post == pre
            && none_gives_way(pre.0, ignored)),
{
    let s = pre.0;
    if exists|k: int| is_quietest(s, ignored, k) {
        let k = choose|k: int| is_quietest(s, ignored, k);
        assert forall|j: int|
            0 <= j < s.len() && (#[trigger] s[j]).id != ignored && !s[j].voice.killed() implies
            s[k].voice.vel() <= s[j].voice.vel() by {
            if s[j].voice.vel() < u8::MAX {
                assert(expendable(s[j], ignored));
            }
        }
        assert(gives_way(s, ignored, k));
        if fade {
            assert forall|i: int| 0 <= i < s.len() implies {
                &&& (#[trigger] post.0[i]).id == s[i].id
                &&& s[i].id == s[k].id ==> V::releases(
                    s[i].voice,
                    ReleaseType::Kill,
                    post.0[i].voice,
                )
                &&& s[i].id != s[k].id ==> post.0[i] == s[i]
            } by {
                assert(in_group(s, s[k].id)(i) == (s[i].id == s[k].id));
            }
        }
        assert(quietest_leaves(pre, fade, ignored, k, post));
    } else {
        assert forall|i: int| 0 <= i < s.len() implies {
            ||| (#[trigger] s[i]).id == ignored
            ||| s[i].voice.killed()
            ||| s[i].voice.vel() == 255
        } by {
            if expendable(s[i], ignored) {
                let k = lemma_quietest(s, ignored, s.len() as int);
                assert(s.take(s.len() as int) =~= s);
            }
        }
    }
}

/// Whether `all` is the buffer with all of the new voices, and one of the quietest voices among the
/// earlier ones is taken out of it.
pub open spec fn joins_for_quietest<V: Voice>(
    pre: Seq<GroupVoice<V>>,
    voices: Seq<V>,
    all: Seq<GroupVoice<V>>,
    id: usize,
    k: int,
    post: Seq<GroupVoice<V>>,
) -> bool {
    &&& join_at_end(pre, voices, all)
    &&& all.len() == pre.len() + voices.len()
    &&& forall|j: int| pre.len() <= j < all.len() ==> (#[trigger] all[j]).id == id
    &&& gives_way(all, id, k)
    &&& k < pre.len()
    &&& is_taken_out(all, k, post)
}

/// With one voice more than the key may have, and without fading out, the new voices join and one of
/// the quietest earlier voices leaves, unless every earlier voice was killed or is as loud as can be.
pub proof fn lemma_one_too_many<V: Voice>(
    buffer: &mut VoiceBuffer<V>,
    voices: Vec<V>,
    counter: &mut u64,
)
    requires
        call_ensures(VoiceBuffer::<V>::push_voices, (buffer, voices, counter), ()),
        old(buffer).wf(),
        old(buffer).limit() is None,
        !old(buffer).fades(),
        old(buffer).max() matches Some(max) && old(buffer).groups().len() + voices@.len() == max
            + 1,
        exists|i: int|
            0 <= i < old(buffer).groups().len() && !(
            #[trigger] old(buffer).groups()[i]).voice.killed() && old(buffer).groups()[i].voice.vel() < 255,
    ensures
        exists|all: Seq<GroupVoice<V>>, id: usize, k: int| #[trigger]
            joins_for_quietest(old(buffer).groups(), voices@, all, id, k, final(buffer).groups()),
{
    let pre = old(buffer).groups();
    let id = final(buffer).last_id();
    let new = admitted(id, voices@, old(buffer).limit(), *old(counter));
    let all = pre + new;
    assert forall|j: int| pre.len() <= j < all.len() implies (#[trigger] all[j]).voice == voices@[j
        - pre.len()] && all[j].id == id by {
        assert(all[j] == new[j - pre.len()]);
    }
    let max = old(buffer).max()->0;
    let first = (all, old(buffer).held());
    let last = (final(buffer).groups(), final(buffer).held());
    let trace = choose|trace: Seq<(Seq<GroupVoice<V>>, Set<usize>)>| #[trigger]
        is_trimming(trace, false, id, max) && trace[0] == first && trace.last() == last;
    let i = choose|i: int|
        0 <= i < pre.len() && !(#[trigger] pre[i]).voice.killed() && pre[i].voice.vel() < 255;
    assert(expendable(all[i], id));
    assert(load(all, false) == max + 1);
    assert(trace.len() > 1);
    assert(load(trace[0].0, false) > max);
    assert(pops(trace[0], false, id, trace[0int + 1]));
    lemma_quietest_gives_way(trace[0], false, id, trace[1]);
    if trace.len() > 2 {
        assert(load(trace[1].0, false) > max);
    }
    let k = choose|k: int| #[trigger] quietest_leaves(trace[0], false, id, k, trace[1]);
    if k >= pre.len() {
        assert(all[k].id == id);
    }
    assert(joins_for_quietest(pre, voices@, all, id, k, final(buffer).groups()));
}

/// Killing every voice leaves none; with fading out it leaves all of them, each killed. Either way
/// the damper holds nothing any more.
pub proof fn lemma_killing_all<V: Voice>(buffer: &mut VoiceBuffer<V>, counter: &mut u64)
    requires
        call_ensures(VoiceBuffer::<V>::kill_all_voices, (buffer, counter), ()),
    ensures
        !old(buffer).fades() ==> final(buffer).groups().len() == 0,
        old(buffer).fades() ==> {
            &&& final(buffer).groups().len() == old(buffer).groups().len()
            &&& forall|i: int|
                0 <= i < old(buffer).groups().len() ==> V::releases(
                    old(buffer).groups()[i].voice,
                    ReleaseType::Kill,
                    (#[trigger] final(buffer).groups()[i]).voice,
                )
        },
        forall|id: usize| !#[trigger] final(buffer).held().contains(id),
        final(buffer).damper() == old(buffer).damper(),
{
    if old(buffer).fades() {
        assert forall|i: int| 0 <= i < old(buffer).groups().len() implies V::releases(
            old(buffer).groups()[i].voice,
            ReleaseType::Kill,
            (#[trigger] final(buffer).groups()[i]).voice,
        ) by {
            assert(everywhere()(i));
        }
    }
}

/// The voices that have ended leave, and the others stay in their order. The damper lets a group go
/// when one of its voices has ended, and no other.
pub proof fn lemma_ended_voices_leave<V: Voice>(buffer: &mut VoiceBuffer<V>, counter: &mut u64)
    requires
        call_ensures(VoiceBuffer::<V>::remove_ended_voices, (buffer, counter), ()),
    ensures
        final(buffer).groups() == old(buffer).groups().filter(
            |g: GroupVoice<V>| !g.voice.has_ended(),
        ),
        forall|i: int|
            0 <= i < old(buffer).groups().len() && (
            #[trigger] old(buffer).groups()[i]).voice.has_ended() ==> !final(buffer).held().contains(old(buffer).groups()[i].id),
        forall|id: usize|
            old(buffer).held().contains(id) && !(#[trigger] final(buffer).held().contains(id))
                ==> exists|i: int|
                0 <= i < old(buffer).groups().len() && (#[trigger] old(buffer).groups()[i]).id == id
                    && old(buffer).groups()[i].voice.has_ended(),
        forall|id: usize| #[trigger]
            final(buffer).held().contains(id) ==> old(buffer).held().contains(id),
        final(buffer).damper() == old(buffer).damper(),
{
    let stays = |g: GroupVoice<V>| !g.voice.has_ended();
    assert(old(buffer).groups().filter(stays) == lasting(old(buffer).groups())) by {
        lemma_same_filter(
            old(buffer).groups(),
            stays,
            |g: GroupVoice<V>| !g.voice.has_ended(),
        );
    }
    assert forall|i: int|
        0 <= i < old(buffer).groups().len() && (
        #[trigger] old(buffer).groups()[i]).voice.has_ended() implies !final(buffer).held().contains(old(buffer).groups()[i].id) by {
        assert(any_ended(old(buffer).groups(), old(buffer).groups()[i].id));
    }
}

/// Two conditions that agree pick the same.
proof fn lemma_same_filter<T>(s: Seq<T>, p: spec_fn(T) -> bool, q: spec_fn(T) -> bool)
    requires
        forall|x: T| #[trigger] p(x) == q(x),
    ensures
        s.filter(p) == s.filter(q),
{
    assert(p =~= q);
}

/// Whether two counts exceed two lengths by the same amount, as far as a count can.
pub open spec fn keeps_count(before: u64, old_len: nat, after: u64, new_len: nat) -> bool {
    old_len <= before && before - old_len + new_len <= u64::MAX ==> after - new_len == before
        - old_len
}

/// The shared count follows the number of voices: it rises by each voice that joins and falls by
/// each voice that leaves.
pub proof fn lemma_count_follows<V: Voice>(
    pushed: &mut VoiceBuffer<V>,
    voices: Vec<V>,
    pushed_count: &mut u64,
    killed: &mut VoiceBuffer<V>,
    killed_count: &mut u64,
    shed: &mut VoiceBuffer<V>,
    shed_count: &mut u64,
)
    requires
        call_ensures(VoiceBuffer::<V>::push_voices, (pushed, voices, pushed_count), ()),
        call_ensures(VoiceBuffer::<V>::kill_all_voices, (killed, killed_count), ()),
        call_ensures(VoiceBuffer::<V>::remove_ended_voices, (shed, shed_count), ()),
    ensures
        keeps_count(
            *old(pushed_count),
            old(pushed).groups().len(),
            *final(pushed_count),
            final(pushed).groups().len(),
        ),
        keeps_count(
            *old(killed_count),
            old(killed).groups().len(),
            *final(killed_count),
            final(killed).groups().len(),
        ),
        keeps_count(
            *old(shed_count),
            old(shed).groups().len(),
            *final(shed_count),
            final(shed).groups().len(),
        ),
{
    lemma_spare(
        *old(pushed_count),
        old(pushed).voices@.len(),
        *final(pushed_count),
        final(pushed).voices@.len(),
    );
    lemma_spare(
        *old(killed_count),
        old(killed).voices@.len(),
        *final(killed_count),
        final(killed).voices@.len(),
    );
    lemma_spare(
        *old(shed_count),
        old(shed).voices@.len(),
        *final(shed_count),
        final(shed).voices@.len(),
    );
}

/// What wraps around agrees where nothing wraps around.
proof fn lemma_spare(before: u64, old_len: nat, after: u64, new_len: nat)
    requires
        spare(after, new_len) == spare(before, old_len),
    ensures
        keeps_count(before, old_len, after, new_len),
{
    if old_len <= before && before - old_len + new_len <= u64::MAX {
        let d = before - old_len;
        assert(spare(before, old_len) == d);
        assert(after == d + new_len) by {
            vstd::arithmetic::div_mod::lemma_small_mod(d as nat, 0x1_0000_0000_0000_0000);
            assert((after - new_len) % 0x1_0000_0000_0000_0000 == d);
        }
    }
}

/// Whether each voice of `pre` in turn adds its output to what the earlier ones left.
pub open spec fn plays_in_turn<V: Voice>(
    pre: Seq<GroupVoice<V>>,
    post: Seq<GroupVoice<V>>,
    mix: Seq<Seq<V::Sample>>,
) -> bool {
    &&& post.len() == pre.len()
    &&& mix.len() == pre.len() + 1
    &&& forall|i: int|
        0 <= i < pre.len() ==> V::renders(
            pre[i].voice,
            #[trigger] mix[i],
            post[i].voice,
            mix[i + 1],
        ) && post[i].id == pre[i].id
}

/// Every voice of a key plays, each once and in order, into the same buffer.
pub proof fn lemma_every_voice_plays<V: Voice>(buffer: &mut VoiceBuffer<V>, out: &mut [V::Sample])
    requires
        VoiceBuffer::plays(*old(buffer), old(out)@, *final(buffer), final(out)@),
    ensures
        exists|mix: Seq<Seq<V::Sample>>| #[trigger]
            plays_in_turn(old(buffer).groups(), final(buffer).groups(), mix) && mix[0] == old(out)@ && mix[mix.len() - 1] == final(out)@,
        final(buffer).held() == old(buffer).held(),
        final(buffer).damper() == old(buffer).damper(),
{
    let pre = old(buffer).groups();
    let post = final(buffer).groups();
    let mix = choose|mix: Seq<Seq<V::Sample>>| #[trigger]
        is_mix(pre, post, mix) && mix[0] == old(out)@ && mix.last() == final(out)@;
    assert forall|i: int| 0 <= i < pre.len() implies V::renders(
        pre[i].voice,
        #[trigger] mix[i],
        post[i].voice,
        mix[i + 1],
    ) && post[i].id == pre[i].id by {
        assert(post[i].id == pre[i].id);
    }
    assert(plays_in_turn(pre, post, mix));
}

/// Every voice of a key follows the controls, and nothing else of the key changes.
pub proof fn lemma_every_voice_follows<V: Voice>(
    pre: VoiceBuffer<V>,
    control: V::Control,
    post: VoiceBuffer<V>,
)
    requires
        VoiceBuffer::takes_controls(pre, control, post),
    ensures
        post.groups().len() == pre.groups().len(),
        forall|i: int|
            0 <= i < pre.groups().len() ==> V::follows(
                pre.groups()[i].voice,
                control,
                (#[trigger] post.groups()[i]).voice,
            ) && post.groups()[i].id == pre.groups()[i].id,
        post.held() == pre.held(),
        post.damper() == pre.damper(),
        post.max() == pre.max(),
        post.limit() == pre.limit(),
        post.fades() == pre.fades(),
{
}

/// Whether the first voice that is neither released nor killed is released, together with the voices
/// of its group that follow it before one of another group.
pub open spec fn first_group_leaves<V: Voice>(
    s: Seq<GroupVoice<V>>,
    first: int,
    t: Seq<GroupVoice<V>>,
) -> bool {
    &&& 0 <= first < s.len()
    &&& t.len() == s.len()
    &&& !s[first].voice.releasing() && !s[first].voice.killed()
    &&& forall|i: int|
        0 <= i < s.len() ==> {
            &&& i < first ==> s[i].voice.releasing() || s[i].voice.killed()
            &&& s[i].voice.releasing() || s[i].voice.killed() || s[i].id != s[first].id
                ==> #[trigger] t[i] == s[i]
            &&& i >= first && !s[i].voice.releasing() && !s[i].voice.killed() && (forall|j: int|
                first <= j <= i && !(#[trigger] s[j]).voice.releasing() && !s[j].voice.killed()
                    ==> s[j].id == s[first].id) ==> V::releases(
                s[i].voice,
                ReleaseType::Standard,
                t[i].voice,
            )
        }
}

/// Letting a key go with the damper up releases the oldest stroke that still sounds, and reports its
/// velocity; where nothing sounds nothing happens.
pub proof fn lemma_oldest_stroke_is_released<V: Voice>(buffer: &mut VoiceBuffer<V>, vel: Option<u8>)
    requires
        call_ensures(VoiceBuffer::<V>::release_next_voice, (buffer,), vel),
        !old(buffer).damper(),
    ensures
        match vel {
            Some(v) => exists|first: int| #[trigger]
                first_group_leaves(old(buffer).groups(), first, final(buffer).groups()) && old(buffer).groups()[first].voice.vel() == v,
            None => final(buffer).groups() == old(buffer).groups() && forall|i: int|
                0 <= i < old(buffer).groups().len() ==> (
                #[trigger] old(buffer).groups()[i]).voice.releasing() || old(buffer).groups()[i].voice.killed(),
        },
        final(buffer).damper() == old(buffer).damper(),
        final(buffer).held() == old(buffer).held(),
{
    let s = old(buffer).groups();
    let t = final(buffer).groups();
    if vel is Some {
        let (first, end) = choose|first: int, end: int| #[trigger]
            next_group(s, first, end) && vel->0 == s[first].voice.vel() && signalled(
                s,
                sounding_between(s, first, end),
                ReleaseType::Standard,
                t,
            );
        let which = sounding_between(s, first, end);
        assert forall|i: int| 0 <= i < s.len() implies {
            &&& i < first ==> s[i].voice.releasing() || s[i].voice.killed()
            &&& s[i].voice.releasing() || s[i].voice.killed() || s[i].id != s[first].id
                ==> #[trigger] t[i] == s[i]
            &&& i >= first && !s[i].voice.releasing() && !s[i].voice.killed() && (forall|j: int|
                first <= j <= i && !(#[trigger] s[j]).voice.releasing() && !s[j].voice.killed()
                    ==> s[j].id == s[first].id) ==> V::releases(
                s[i].voice,
                ReleaseType::Standard,
                t[i].voice,
            )
        } by {
            assert(which(i) == (first <= i < end && sounding(s[i])));
            if i < first {
                assert(!sounding(s[i]));
            }
            if i >= end {
                assert(sounding(s[end]));
            }
        }
        assert(first_group_leaves(s, first, t));
    } else {
        assert forall|i: int| 0 <= i < s.len() implies (#[trigger] s[i]).voice.releasing()
            || s[i].voice.killed() by {
            assert(!sounding(s[i]));
        }
    }
}

/// A new buffer has no voices, its damper is up, and its limits are those of the options.
pub proof fn lemma_new_buffer<V: Voice>(options: ChannelInitOptions, buffer: VoiceBuffer<V>)
    requires
        call_ensures(VoiceBuffer::<V>::new, (options,), buffer),
    ensures
        buffer.groups().len() == 0,
        !buffer.damper(),
        forall|id: usize| !#[trigger] buffer.held().contains(id),
        buffer.fades() == options.fade_out_killing,
        buffer.max() == options.max_voices_per_key,
        buffer.limit() == options.global_voice_limit,
{
}

/// Setting the limit of a key sets that alone.
pub proof fn lemma_setting_max<V: Voice>(buffer: &mut VoiceBuffer<V>, max: Option<usize>)
    requires
        call_ensures(VoiceBuffer::<V>::set_max_voices, (buffer, max), ()),
    ensures
        final(buffer).max() == max,
        final(buffer).groups() == old(buffer).groups(),
        final(buffer).held() == old(buffer).held(),
        final(buffer).damper() == old(buffer).damper(),
        final(buffer).fades() == old(buffer).fades(),
        final(buffer).limit() == old(buffer).limit(),
{
}

/// Moving the damper up or down takes effect; only letting it go releases anything, and that every
/// voice of the groups it held and no other.
pub proof fn lemma_damper_moves<V: Voice>(buffer: &mut VoiceBuffer<V>, damper: bool)
    requires
        call_ensures(VoiceBuffer::<V>::set_damper, (buffer, damper), ()),
    ensures
        final(buffer).damper() == damper,
        final(buffer).groups().len() == old(buffer).groups().len(),
        damper || !old(buffer).damper() ==> final(buffer).groups() == old(buffer).groups() && final(buffer).held() == old(buffer).held(),
        !damper && old(buffer).damper() ==> forall|i: int|
            0 <= i < old(buffer).groups().len() ==> if old(buffer).held().contains(
                old(buffer).groups()[i].id,
            ) {
                V::releases(
                    old(buffer).groups()[i].voice,
                    ReleaseType::Standard,
                    (#[trigger] final(buffer).groups()[i]).voice,
                )
            } else {
                final(buffer).groups()[i] == old(buffer).groups()[i]
            },
        final(buffer).max() == old(buffer).max(),
        final(buffer).fades() == old(buffer).fades(),
        final(buffer).limit() == old(buffer).limit(),
{
    let s = old(buffer).groups();
    let t = final(buffer).groups();
    if !damper && old(buffer).damper() {
        assert forall|i: int| 0 <= i < s.len() implies if old(buffer).held().contains(s[i].id) {
            V::releases(s[i].voice, ReleaseType::Standard, (#[trigger] t[i]).voice)
        } else {
            t[i] == s[i]
        } by {
            assert(in_groups(s, old(buffer).held())(i) == old(buffer).held().contains(s[i].id));
            assert(t[i].id == s[i].id);
        }
    }
}

/// The voices of a key are counted as they are, and a voice has ended when it says so.
pub proof fn lemma_counting_voices<V: Voice>(
    buffer: VoiceBuffer<V>,
    any: bool,
    count: usize,
    voice: GroupVoice<V>,
    ended: bool,
)
    requires
        call_ensures(VoiceBuffer::<V>::has_voices, (&buffer,), any),
        call_ensures(VoiceBuffer::<V>::voice_count, (&buffer,), count),
        call_ensures(GroupVoice::<V>::ended, (&voice,), ended),
    ensures
        any <==> count > 0,
        count == buffer.groups().len(),
        ended <==> voice.voice.has_ended(),
{
}

/// Rendering and following the controls reach every voice of a key.
pub proof fn lemma_all_voices_are_reached<V: Voice>(
    playing: &mut VoiceBuffer<V>,
    out: &mut [V::Sample],
    following: &mut VoiceBuffer<V>,
    control: V::Control,
)
    requires
        call_ensures(VoiceBuffer::<V>::render_to, (playing, out), ()),
        call_ensures(VoiceBuffer::<V>::process_controls, (following, &control), ()),
    ensures
        exists|mix: Seq<Seq<V::Sample>>| #[trigger]
            plays_in_turn(old(playing).groups(), final(playing).groups(), mix) && mix[0] == old(
                out)@ && mix[mix.len() - 1] == final(out)@,
        final(following).groups().len() == old(following).groups().len(),
        forall|i: int|
            0 <= i < old(following).groups().len() ==> V::follows(
                old(following).groups()[i].voice,
                control,
                (#[trigger] final(following).groups()[i]).voice,
            ),
{
    let pre = old(playing).groups();
    let post = final(playing).groups();
    let mix = choose|mix: Seq<Seq<V::Sample>>| #[trigger]
        is_mix(pre, post, mix) && mix[0] == old(out)@ && mix.last() == final(out)@;
    assert forall|i: int| 0 <= i < pre.len() implies V::renders(
        pre[i].voice,
        #[trigger] mix[i],
        post[i].voice,
        mix[i + 1],
    ) && post[i].id == pre[i].id by {
        assert(post[i].id == pre[i].id);
    }
    assert(plays_in_turn(pre, post, mix));
}

} // verus!
