//! Voices that add what a generator computes in batches to a buffer of any length.

use core::ops::Add;
use vstd::prelude::*;
use crate::helpers;
use crate::helpers::add_samples;
use crate::voice::{ReleaseType, VoiceGeneratorBase, VoiceSampleGenerator};

verus! {

/// A generator that computes several consecutive samples at a time.
pub trait SIMDVoiceGenerator: VoiceGeneratorBase {
    /// What the generator computes for one moment.
    type Lane;

    /// Whether the next batch of `pre` is `values`, and leads to `post`.
    closed spec fn yields(pre: Self, values: Seq<Self::Lane>, post: Self) -> bool {
        arbitrary()
    }

    /// The next batch.
    fn next_sample(&mut self) -> (values: Vec<Self::Lane>)
        ensures
            values@.len() > 0,
            Self::yields(*old(self), values@, *final(self)),
    ;
}

/// A generator, and what is left of its last batch.
pub struct Feed<L, T> {
    pub generator: T,
    /// What is left of the last batch, the next one last.
    pub rest: Vec<L>,
}

impl<L: Copy, T: SIMDVoiceGenerator<Lane = L>> Feed<L, T> {
    /// What is left of the last batch, in order.
    pub open spec fn pending(self) -> Seq<L> {
        self.rest@.reverse()
    }

    /// Whether taking `lane` turns `pre` into `post`. A batch is computed only when nothing is left
    /// of the last one.
    pub open spec fn takes_one(pre: Self, lane: L, post: Self) -> bool {
        if pre.pending().len() > 0 {
            &&& lane == pre.pending()[0]
            &&& post.generator == pre.generator
            &&& post.pending() == pre.pending().drop_first()
        } else {
            Self::refills(pre, lane, post)
        }
    }

    /// Whether `lane` is the first of a new batch, of which the others are left.
    pub open spec fn refills(pre: Self, lane: L, post: Self) -> bool {
        &&& T::yields(pre.generator, seq![lane] + post.pending(), post.generator)
    }

    /// Whether `trace` takes `lanes` one after another.
    pub open spec fn is_taking(trace: Seq<Self>, lanes: Seq<L>) -> bool {
        &&& trace.len() == lanes.len() + 1
        &&& forall|i: int|
            0 <= i < lanes.len() ==> Self::takes_one(#[trigger] trace[i], lanes[i], trace[i + 1])
    }

    /// Whether taking `lanes` one after another turns `pre` into `post`.
    pub open spec fn takes(pre: Self, lanes: Seq<L>, post: Self) -> bool {
        exists|trace: Seq<Self>| #[trigger]
            Self::is_taking(trace, lanes) && trace[0] == pre && trace.last() == post
    }

    /// A generator of which nothing has been taken.
    pub fn new(generator: T) -> (feed: Self)
        ensures
            feed.generator == generator,
            feed.pending().len() == 0,
    {
        Feed { generator, rest: Vec::new() }
    }

    /// Takes what comes next.
    fn next(&mut self) -> (lane: L)
        ensures
            Self::takes_one(*old(self), lane, *final(self)),
    {
        match self.rest.pop() {
            Some(lane) => {
                assert(lane == old(self).pending()[0]);
                assert(self.pending() =~= old(self).pending().drop_first());
                lane
            },
            None => {
                let mut batch: Vec<L> = self.generator.next_sample();
                let ghost all = batch@;
                self.rest.clear();
                while batch.len() > 1
                    invariant
                        0 < batch@.len() <= all.len(),
                        batch@ == all.take(batch@.len() as int),
                        self.rest@.reverse() == all.skip(batch@.len() as int),
                        T::yields(old(self).generator, all, self.generator),
                    decreases batch@.len(),
                {
                    let ghost n = batch@.len();
                    let ghost left = self.rest@;
                    let lane = batch.pop().unwrap();
                    assert(lane == all[n - 1]);
                    self.rest.push(lane);
                    assert(self.rest@.reverse() =~= seq![lane] + left.reverse());
                    assert(all.skip(n - 1) =~= seq![all[n - 1]] + all.skip(n as int));
                }
                let lane = batch.pop().unwrap();
                assert(all =~= seq![lane] + self.pending());
                lane
            },
        }
    }
}

/// Taking some and then some more is taking them all.
pub proof fn lemma_takes_append<L: Copy, T: SIMDVoiceGenerator<Lane = L>>(
    a: Feed<L, T>,
    first: Seq<L>,
    b: Feed<L, T>,
    second: Seq<L>,
    c: Feed<L, T>,
)
    requires
        Feed::takes(a, first, b),
        Feed::takes(b, second, c),
    ensures
        Feed::takes(a, first + second, c),
{
    let p = choose|trace: Seq<Feed<L, T>>| #[trigger]
        Feed::is_taking(trace, first) && trace[0] == a && trace.last() == b;
    let q = choose|trace: Seq<Feed<L, T>>| #[trigger]
        Feed::is_taking(trace, second) && trace[0] == b && trace.last() == c;
    let trace = p + q.drop_first();
    let lanes = first + second;
    assert forall|i: int| 0 <= i < lanes.len() implies Feed::takes_one(
        #[trigger] trace[i],
        lanes[i],
        trace[i + 1],
    ) by {
        if i < first.len() {
            assert(trace[i] == p[i]);
            assert(trace[i + 1] == p[i + 1]);
            assert(lanes[i] == first[i]);
        } else {
            let j = i - first.len();
            assert(trace[i] == q[j]) by {
                if j == 0 {
                    assert(trace[i] == p.last());
                }
            }
            assert(trace[i + 1] == q[j + 1]);
            assert(lanes[i] == second[j]);
            assert(Feed::takes_one(q[j], second[j], q[j + 1]));
        }
    }
    assert(Feed::is_taking(trace, lanes));
    assert(trace.last() == c) by {
        if second.len() == 0 {
            assert(trace =~= p);
            assert(q.last() == q[0]);
        }
    }
}

/// Taking one more.
proof fn lemma_takes_push<L: Copy, T: SIMDVoiceGenerator<Lane = L>>(
    a: Feed<L, T>,
    lanes: Seq<L>,
    b: Feed<L, T>,
    lane: L,
    c: Feed<L, T>,
)
    requires
        Feed::takes(a, lanes, b),
        Feed::takes_one(b, lane, c),
    ensures
        Feed::takes(a, lanes.push(lane), c),
{
    let one = seq![b, c];
    assert(Feed::is_taking(one, seq![lane]));
    assert(Feed::takes(b, seq![lane], c));
    lemma_takes_append(a, lanes, b, seq![lane], c);
    assert(lanes + seq![lane] =~= lanes.push(lane));
}

/// A voice that adds one value per moment to its buffer.
pub struct SIMDMonoVoice<S, T> {
    pub feed: Feed<S, T>,
}

impl<S: Copy + Add<Output = S>, T: SIMDVoiceGenerator<Lane = S>> SIMDMonoVoice<S, T> {
    /// A voice that plays a generator.
    pub fn new(generator: T) -> (voice: Self)
        ensures
            voice.feed.generator == generator,
            voice.feed.pending().len() == 0,
    {
        SIMDMonoVoice { feed: Feed::new(generator) }
    }
}

impl<S: Copy + Add<Output = S>, T: SIMDVoiceGenerator<Lane = S>> VoiceGeneratorBase for SIMDMonoVoice<
    S,
    T,
> {
    type Control = T::Control;

    open spec fn has_ended(&self) -> bool {
        self.feed.generator.has_ended()
    }

    open spec fn releases(pre: Self, rel_type: ReleaseType, post: Self) -> bool {
        &&& T::releases(pre.feed.generator, rel_type, post.feed.generator)
        &&& post.feed.rest == pre.feed.rest
    }

    open spec fn follows(pre: Self, control: Self::Control, post: Self) -> bool {
        &&& T::follows(pre.feed.generator, control, post.feed.generator)
        &&& post.feed.rest == pre.feed.rest
    }

    fn ended(&self) -> (ended: bool) {
        self.feed.generator.ended()
    }

    fn signal_release(&mut self, rel_type: ReleaseType) {
        self.feed.generator.signal_release(rel_type);
    }

    fn process_controls(&mut self, control: &Self::Control) {
        self.feed.generator.process_controls(control);
    }
}

impl<S: Copy + Add<Output = S>, T: SIMDVoiceGenerator<Lane = S>> VoiceSampleGenerator for SIMDMonoVoice<
    S,
    T,
> {
    type Sample = S;

    open spec fn can_render(&self, len: nat) -> bool {
        helpers::can_add::<S>()
    }

    open spec fn renders(pre: Self, before: Seq<S>, post: Self, after: Seq<S>) -> bool {
        exists|lanes: Seq<S>| #[trigger]
            Feed::takes(pre.feed, lanes, post.feed) && lanes.len() == before.len()
                && helpers::all_added(before, lanes, after)
    }

    fn render_to(&mut self, buffer: &mut [S]) {
        let ghost before = buffer@;
        let ghost mut lanes: Seq<S> = Seq::empty();
        assert(Feed::is_taking(seq![self.feed], lanes));
        let mut i: usize = 0;
        while i < buffer.len()
            invariant
                i <= buffer@.len(),
                buffer@.len() == before.len(),
                helpers::can_add::<S>(),
                lanes.len() == i,
                Feed::takes(old(self).feed, lanes, self.feed),
                forall|j: int|
                    0 <= j < i ==> helpers::is_added(before[j], lanes[j], #[trigger] buffer@[j]),
                forall|j: int| i <= j < before.len() ==> #[trigger] buffer@[j] == before[j],
            decreases buffer@.len() - i,
        {
            let ghost pre = self.feed;
            let lane = self.feed.next();
            buffer[i] = add_samples(buffer[i], lane);
            proof {
                lemma_takes_push(old(self).feed, lanes, pre, lane, self.feed);
                lanes = lanes.push(lane);
            }
            i += 1;
        }
        assert(helpers::all_added(before, lanes, buffer@));
    }
}

/// A voice that adds a left and a right value per moment to its buffer, in turn.
pub struct SIMDStereoVoice<S, T> {
    pub feed: Feed<(S, S), T>,
}

impl<S: Copy + Add<Output = S>, T: SIMDVoiceGenerator<Lane = (S, S)>> SIMDStereoVoice<S, T> {
    /// A voice that plays a generator.
    pub fn new(generator: T) -> (voice: Self)
        ensures
            voice.feed.generator == generator,
            voice.feed.pending().len() == 0,
    {
        SIMDStereoVoice { feed: Feed::new(generator) }
    }
}

impl<S: Copy + Add<Output = S>, T: SIMDVoiceGenerator<Lane = (S, S)>> VoiceGeneratorBase for SIMDStereoVoice<
    S,
    T,
> {
    type Control = T::Control;

    open spec fn has_ended(&self) -> bool {
        self.feed.generator.has_ended()
    }

    open spec fn releases(pre: Self, rel_type: ReleaseType, post: Self) -> bool {
        &&& T::releases(pre.feed.generator, rel_type, post.feed.generator)
        &&& post.feed.rest == pre.feed.rest
    }

    open spec fn follows(pre: Self, control: Self::Control, post: Self) -> bool {
        &&& T::follows(pre.feed.generator, control, post.feed.generator)
        &&& post.feed.rest == pre.feed.rest
    }

    fn ended(&self) -> (ended: bool) {
        self.feed.generator.ended()
    }

    fn signal_release(&mut self, rel_type: ReleaseType) {
        self.feed.generator.signal_release(rel_type);
    }

    fn process_controls(&mut self, control: &Self::Control) {
        self.feed.generator.process_controls(control);
    }
}

/// Left and right values, in turn.
pub open spec fn interleaved<S>(lanes: Seq<(S, S)>) -> Seq<S> {
    Seq::new(
        2 * lanes.len(),
        |i: int|
            if i % 2 == 0 {
                lanes[i / 2].0
            } else {
                lanes[i / 2].1
            },
    )
}

impl<S: Copy + Add<Output = S>, T: SIMDVoiceGenerator<Lane = (S, S)>> VoiceSampleGenerator for SIMDStereoVoice<
    S,
    T,
> {
    type Sample = S;

    open spec fn can_render(&self, len: nat) -> bool {
        helpers::can_add::<S>() && len % 2 == 0
    }

    open spec fn renders(pre: Self, before: Seq<S>, post: Self, after: Seq<S>) -> bool {
        exists|lanes: Seq<(S, S)>| #[trigger]
            Feed::takes(pre.feed, lanes, post.feed) && 2 * lanes.len() == before.len()
                && helpers::all_added(before, interleaved(lanes), after)
    }

    fn render_to(&mut self, buffer: &mut [S]) {
        let ghost before = buffer@;
        let ghost mut lanes: Seq<(S, S)> = Seq::empty();
        assert(Feed::is_taking(seq![self.feed], lanes));
        let mut i: usize = 0;
        while i < buffer.len()
            invariant
                i <= buffer@.len(),
                buffer@.len() == before.len(),
                before.len() % 2 == 0,
                helpers::can_add::<S>(),
                2 * lanes.len() == i,
                Feed::takes(old(self).feed, lanes, self.feed),
                forall|j: int|
                    0 <= j < i ==> helpers::is_added(
                        before[j],
                        interleaved(lanes)[j],
                        #[trigger] buffer@[j],
                    ),
                forall|j: int| i <= j < before.len() ==> #[trigger] buffer@[j] == before[j],
            decreases buffer@.len() - i,
        {
            let ghost pre = self.feed;
            let ghost so_far = lanes;
            let lane = self.feed.next();
            buffer[i] = add_samples(buffer[i], lane.0);
            buffer[i + 1] = add_samples(buffer[i + 1], lane.1);
            proof {
                lemma_takes_push(old(self).feed, lanes, pre, lane, self.feed);
                lanes = lanes.push(lane);
                let n = so_far.len() as int;
                assert(interleaved(lanes)[2 * n] == lane.0);
                assert(interleaved(lanes)[2 * n + 1] == lane.1);
                assert forall|j: int| 0 <= j < i implies interleaved(lanes)[j] == interleaved(
                    so_far,
                )[j] by {}
            }
            i += 2;
        }
        assert(helpers::all_added(before, interleaved(lanes), buffer@));
    }
}

/// Rendering two buffers one after the other gives what rendering them as one gives: no sample is
/// lost or repeated where one buffer ends.
pub proof fn lemma_mono_blocks<S: Copy + Add<Output = S>, T: SIMDVoiceGenerator<Lane = S>>(
    a: SIMDMonoVoice<S, T>,
    first: Seq<S>,
    b: SIMDMonoVoice<S, T>,
    first_out: Seq<S>,
    second: Seq<S>,
    c: SIMDMonoVoice<S, T>,
    second_out: Seq<S>,
)
    requires
        SIMDMonoVoice::renders(a, first, b, first_out),
        SIMDMonoVoice::renders(b, second, c, second_out),
    ensures
        SIMDMonoVoice::renders(a, first + second, c, first_out + second_out),
{
    let p = choose|lanes: Seq<S>| #[trigger]
        Feed::takes(a.feed, lanes, b.feed) && lanes.len() == first.len() && helpers::all_added(
            first,
            lanes,
            first_out,
        );
    let q = choose|lanes: Seq<S>| #[trigger]
        Feed::takes(b.feed, lanes, c.feed) && lanes.len() == second.len() && helpers::all_added(
            second,
            lanes,
            second_out,
        );
    lemma_takes_append(a.feed, p, b.feed, q, c.feed);
    lemma_added_append(first, p, first_out, second, q, second_out);
    assert(Feed::takes(a.feed, p + q, c.feed));
}

/// Rendering two buffers one after the other gives what rendering them as one gives: no sample is
/// lost or repeated where one buffer ends.
pub proof fn lemma_stereo_blocks<S: Copy + Add<Output = S>, T: SIMDVoiceGenerator<Lane = (S, S)>>(
    a: SIMDStereoVoice<S, T>,
    first: Seq<S>,
    b: SIMDStereoVoice<S, T>,
    first_out: Seq<S>,
    second: Seq<S>,
    c: SIMDStereoVoice<S, T>,
    second_out: Seq<S>,
)
    requires
        SIMDStereoVoice::renders(a, first, b, first_out),
        SIMDStereoVoice::renders(b, second, c, second_out),
    ensures
        SIMDStereoVoice::renders(a, first + second, c, first_out + second_out),
{
    let p = choose|lanes: Seq<(S, S)>| #[trigger]
        Feed::takes(a.feed, lanes, b.feed) && 2 * lanes.len() == first.len() && helpers::all_added(
            first,
            interleaved(lanes),
            first_out,
        );
    let q = choose|lanes: Seq<(S, S)>| #[trigger]
        Feed::takes(b.feed, lanes, c.feed) && 2 * lanes.len() == second.len()
            && helpers::all_added(second, interleaved(lanes), second_out);
    lemma_takes_append(a.feed, p, b.feed, q, c.feed);
    lemma_added_append(first, interleaved(p), first_out, second, interleaved(q), second_out);
    assert(interleaved(p + q) =~= interleaved(p) + interleaved(q));
    assert(Feed::takes(a.feed, p + q, c.feed));
}

/// Adding two buffers one after the other is adding them as one.
proof fn lemma_added_append<S: Add<Output = S>>(
    a: Seq<S>,
    p: Seq<S>,
    a_out: Seq<S>,
    b: Seq<S>,
    q: Seq<S>,
    b_out: Seq<S>,
)
    requires
        helpers::all_added(a, p, a_out),
        helpers::all_added(b, q, b_out),
        p.len() == a.len(),
        q.len() == b.len(),
    ensures
        helpers::all_added(a + b, p + q, a_out + b_out),
{
    let out = a_out + b_out;
    assert forall|i: int| 0 <= i < (a + b).len() implies helpers::is_added(
        (a + b)[i],
        (p + q)[i],
        #[trigger] out[i],
    ) by {
        if i < a.len() {
            assert(out[i] == a_out[i]);
        } else {
            assert(out[i] == b_out[i - a.len()]);
        }
    }
}

/// Whether a generator that goes through `generators` supplies `batches`, one after another.
pub open spec fn is_supply<T: SIMDVoiceGenerator>(
    generators: Seq<T>,
    batches: Seq<Seq<T::Lane>>,
) -> bool {
    &&& generators.len() == batches.len() + 1
    &&& forall|i: int|
        0 <= i < batches.len() ==> T::yields(
            #[trigger] generators[i],
            batches[i],
            generators[i + 1],
        )
}

/// Whether the values of `batches`, one after another, begin with `taken` and go on with `left`,
/// where `before` comes first.
pub open spec fn is_split<L>(
    before: Seq<L>,
    batches: Seq<Seq<L>>,
    taken: Seq<L>,
    left: Seq<L>,
) -> bool {
    before + batches.flatten() == taken + left
}

/// What is taken from a generator is what it supplies: each value once, in order, and what is not
/// taken yet is left for later.
pub proof fn lemma_takes_in_order<L: Copy, T: SIMDVoiceGenerator<Lane = L>>(
    pre: Feed<L, T>,
    lanes: Seq<L>,
    post: Feed<L, T>,
)
    requires
        Feed::takes(pre, lanes, post),
    ensures
        exists|generators: Seq<T>, batches: Seq<Seq<L>>| #[trigger]
            hands_out(pre, lanes, generators, batches, post),
{
    let trace = choose|trace: Seq<Feed<L, T>>| #[trigger]
        Feed::is_taking(trace, lanes) && trace[0] == pre && trace.last() == post;
    let (generators, batches) = lemma_taken_up_to(trace, lanes, lanes.len() as int);
    assert(lanes.take(lanes.len() as int) =~= lanes);
    assert(hands_out(pre, lanes, generators, batches, post));
}

/// The same for the first `n` values.
proof fn lemma_taken_up_to<L: Copy, T: SIMDVoiceGenerator<Lane = L>>(
    trace: Seq<Feed<L, T>>,
    lanes: Seq<L>,
    n: int,
) -> (supply: (Seq<T>, Seq<Seq<L>>))
    requires
        Feed::is_taking(trace, lanes),
        0 <= n <= lanes.len(),
    ensures
        is_supply(supply.0, supply.1),
        supply.0[0] == trace[0].generator,
        supply.0.last() == trace[n].generator,
        is_split(trace[0].pending(), supply.1, lanes.take(n), trace[n].pending()),
    decreases n,
{
    let first = trace[0].pending();
    if n == 0 {
        let none = Seq::<Seq<L>>::empty();
        assert(none.flatten() =~= Seq::<L>::empty());
        assert(first + none.flatten() =~= lanes.take(0) + first);
        (seq![trace[0].generator], none)
    } else {
        let (generators, batches) = lemma_taken_up_to(trace, lanes, n - 1);
        let pre = trace[n - 1];
        let post = trace[n];
        let lane = lanes[n - 1];
        assert(Feed::takes_one(trace[n - 1], lanes[n - 1], trace[n - 1 + 1]));
        assert(lanes.take(n) =~= lanes.take(n - 1).push(lane));
        if pre.pending().len() > 0 {
            assert(pre.pending() =~= seq![lane] + post.pending());
            assert(lanes.take(n - 1) + pre.pending() =~= lanes.take(n) + post.pending());
            (generators, batches)
        } else {
            let batch = seq![lane] + post.pending();
            let more = batches.push(batch);
            let longer = generators.push(post.generator);
            assert forall|i: int| 0 <= i < more.len() implies T::yields(
                #[trigger] longer[i],
                more[i],
                longer[i + 1],
            ) by {
                assert(longer[i] == generators[i]);
                if i < batches.len() {
                    assert(longer[i + 1] == generators[i + 1]);
                }
            }
            batches.lemma_flatten_push(batch);
            assert(first + more.flatten() =~= (first + batches.flatten()) + batch);
            assert(lanes.take(n - 1) + pre.pending() =~= lanes.take(n - 1));
            assert(lanes.take(n) + post.pending() =~= lanes.take(n - 1) + batch);
            (longer, more)
        }
    }
}

/// Whether `lanes` are what a feed hands out while it turns from `pre` into `post`: its generator
/// goes through `generators` and supplies `batches`, and the lanes are the values of those, each once
/// and in order. What is left of the last batch before comes first, and what is left of the last one
/// comes next.
pub open spec fn hands_out<L: Copy, T: SIMDVoiceGenerator<Lane = L>>(
    pre: Feed<L, T>,
    lanes: Seq<L>,
    generators: Seq<T>,
    batches: Seq<Seq<L>>,
    post: Feed<L, T>,
) -> bool {
    &&& is_supply(generators, batches)
    &&& generators[0] == pre.generator
    &&& generators.last() == post.generator
    &&& is_split(pre.pending(), batches, lanes, post.pending())
}

/// Whether the left parts of `lanes` are added at the even places of a buffer, and the right parts
/// at the odd ones.
pub open spec fn adds_pairs<S: Add<Output = S>>(
    before: Seq<S>,
    lanes: Seq<(S, S)>,
    after: Seq<S>,
) -> bool {
    &&& after.len() == before.len() == 2 * lanes.len()
    &&& forall|k: int|
        #![trigger lanes[k]]
        0 <= k < lanes.len() ==> {
            &&& call_ensures(S::add, (before[2 * k], lanes[k].0), after[2 * k])
            &&& call_ensures(S::add, (before[2 * k + 1], lanes[k].1), after[2 * k + 1])
        }
}

/// A stereo voice plays both sides of what its generator supplies. To the values of the buffer at
/// the even places the left parts are added, to those at the odd places the right parts, pair by
/// pair and each pair once.
pub proof fn lemma_stereo_plays_both_sides<
    S: Copy + Add<Output = S>,
    T: SIMDVoiceGenerator<Lane = (S, S)>,
>(pre: SIMDStereoVoice<S, T>, before: Seq<S>, post: SIMDStereoVoice<S, T>, after: Seq<S>)
    requires
        SIMDStereoVoice::renders(pre, before, post, after),
    ensures
        exists|lanes: Seq<(S, S)>, generators: Seq<T>, batches: Seq<Seq<(S, S)>>|
            #![trigger hands_out(pre.feed, lanes, generators, batches, post.feed)]
            hands_out(pre.feed, lanes, generators, batches, post.feed) && adds_pairs(
                before,
                lanes,
                after,
            ),
{
    let lanes = choose|lanes: Seq<(S, S)>| #[trigger]
        Feed::takes(pre.feed, lanes, post.feed) && 2 * lanes.len() == before.len()
            && helpers::all_added(before, interleaved(lanes), after);
    assert forall|k: int| #![trigger lanes[k]] 0 <= k < lanes.len() implies {
        &&& call_ensures(S::add, (before[2 * k], lanes[k].0), after[2 * k])
        &&& call_ensures(S::add, (before[2 * k + 1], lanes[k].1), after[2 * k + 1])
    } by {
        assert(helpers::is_added(before[2 * k], interleaved(lanes)[2 * k], after[2 * k]));
        assert(helpers::is_added(
            before[2 * k + 1],
            interleaved(lanes)[2 * k + 1],
            after[2 * k + 1],
        ));
    }
    assert(adds_pairs(before, lanes, after));
    lemma_takes_in_order(pre.feed, lanes, post.feed);
}

/// A mono voice plays what its generator supplies: to each value of the buffer the next one is added,
/// each once.
pub proof fn lemma_mono_plays_in_order<
    S: Copy + Add<Output = S>,
    T: SIMDVoiceGenerator<Lane = S>,
>(pre: SIMDMonoVoice<S, T>, before: Seq<S>, post: SIMDMonoVoice<S, T>, after: Seq<S>)
    requires
        SIMDMonoVoice::renders(pre, before, post, after),
    ensures
        after.len() == before.len(),
        exists|lanes: Seq<S>, generators: Seq<T>, batches: Seq<Seq<S>>|
            #![trigger hands_out(pre.feed, lanes, generators, batches, post.feed)]
            hands_out(pre.feed, lanes, generators, batches, post.feed) && lanes.len()
                == before.len() && forall|k: int|
                0 <= k < lanes.len() ==> call_ensures(
                    S::add,
                    (before[k], #[trigger] lanes[k]),
                    after[k],
                ),
{
    let lanes = choose|lanes: Seq<S>| #[trigger]
        Feed::takes(pre.feed, lanes, post.feed) && lanes.len() == before.len()
            && helpers::all_added(before, lanes, after);
    assert forall|k: int| 0 <= k < lanes.len() implies call_ensures(
        S::add,
        (before[k], #[trigger] lanes[k]),
        after[k],
    ) by {
        assert(helpers::is_added(before[k], lanes[k], after[k]));
    }
    lemma_takes_in_order(pre.feed, lanes, post.feed);
}

/// A stereo voice ends when its generator does. It hands every release and the controls on to it, as
/// they came; what was computed before is still played.
pub proof fn lemma_stereo_hands_on<
    S: Copy + Add<Output = S>,
    T: SIMDVoiceGenerator<Lane = (S, S)>,
>(
    pre: SIMDStereoVoice<S, T>,
    rel_type: ReleaseType,
    released: SIMDStereoVoice<S, T>,
    control: T::Control,
    steered: SIMDStereoVoice<S, T>,
)
    requires
        SIMDStereoVoice::releases(pre, rel_type, released),
        SIMDStereoVoice::follows(pre, control, steered),
    ensures
        pre.has_ended() == pre.feed.generator.has_ended(),
        T::releases(pre.feed.generator, rel_type, released.feed.generator),
        released.feed.rest == pre.feed.rest,
        T::follows(pre.feed.generator, control, steered.feed.generator),
        steered.feed.rest == pre.feed.rest,
{
}

/// A mono voice ends when its generator does. It hands every release and the controls on to it, as
/// they came; what was computed before is still played.
pub proof fn lemma_mono_hands_on<
    S: Copy + Add<Output = S>,
    T: SIMDVoiceGenerator<Lane = S>,
>(
    pre: SIMDMonoVoice<S, T>,
    rel_type: ReleaseType,
    released: SIMDMonoVoice<S, T>,
    control: T::Control,
    steered: SIMDMonoVoice<S, T>,
)
    requires
        SIMDMonoVoice::releases(pre, rel_type, released),
        SIMDMonoVoice::follows(pre, control, steered),
    ensures
        pre.has_ended() == pre.feed.generator.has_ended(),
        T::releases(pre.feed.generator, rel_type, released.feed.generator),
        released.feed.rest == pre.feed.rest,
        T::follows(pre.feed.generator, control, steered.feed.generator),
        steered.feed.rest == pre.feed.rest,
{
}

/// A new voice plays the generator that it was given, of which nothing has been taken.
pub proof fn lemma_new_voices<
    S: Copy + Add<Output = S>,
    T: SIMDVoiceGenerator<Lane = S>,
    U: SIMDVoiceGenerator<Lane = (S, S)>,
>(
    generator: T,
    pairs: U,
    mono: SIMDMonoVoice<S, T>,
    stereo: SIMDStereoVoice<S, U>,
)
    requires
        call_ensures(SIMDMonoVoice::<S, T>::new, (generator,), mono),
        call_ensures(SIMDStereoVoice::<S, U>::new, (pairs,), stereo),
    ensures
        mono.feed.generator == generator,
        mono.feed.pending().len() == 0,
        stereo.feed.generator == pairs,
        stereo.feed.pending().len() == 0,
{
}

} // verus!
