//! A value that a voice takes from the controls of its channel.

use vstd::prelude::*;
use crate::scalar::Scalar;
use crate::voice::simd_voice::SIMDVoiceGenerator;
use crate::voice::{ReleaseType, VoiceControlData, VoiceGeneratorBase};

verus! {

/// What is taken from the controls.
pub trait ControlPick<V: Scalar>: Sized {
    /// Picks a value out of the controls.
    fn update(&self, control: &VoiceControlData<V>) -> V;
}

/// A value that follows the controls.
pub struct SIMDVoiceControl<V: Scalar, U: ControlPick<V>> {
    value: V,
    pick: U,
    width: u32,
}

impl<V: Scalar, U: ControlPick<V>> SIMDVoiceControl<V, U> {
    #[verifier::type_invariant]
    spec fn inv(self) -> bool {
        self.width > 0
    }

    /// The present value.
    pub closed spec fn current(self) -> V {
        self.value
    }

    /// What is taken from the controls.
    pub closed spec fn picker(self) -> U {
        self.pick
    }

    /// The number of samples that are computed together.
    pub closed spec fn lanes(self) -> nat {
        self.width as nat
    }

    /// Whether `value` is what the controls say.
    pub open spec fn picks(self, control: VoiceControlData<V>, value: V) -> bool {
        call_ensures(U::update, (&self.picker(), &control), value)
    }

    /// The value that the controls say.
    pub fn new(control: &VoiceControlData<V>, pick: U, width: u32) -> (this: Self)
        requires
            width > 0,
        ensures
            this.picker() == pick,
            this.lanes() == width,
            this.picks(*control, this.current()),
    {
        let value = pick.update(control);
        SIMDVoiceControl { value, pick, width }
    }
}

impl<V: Scalar, U: ControlPick<V>> VoiceGeneratorBase for SIMDVoiceControl<V, U> {
    type Control = VoiceControlData<V>;

    open spec fn has_ended(&self) -> bool {
        false
    }

    open spec fn releases(pre: Self, rel_type: ReleaseType, post: Self) -> bool {
        post == pre
    }

    open spec fn follows(pre: Self, control: Self::Control, post: Self) -> bool {
        &&& post.picker() == pre.picker()
        &&& post.lanes() == pre.lanes()
        &&& pre.picks(control, post.current())
    }

    fn ended(&self) -> (ended: bool) {
        false
    }

    fn signal_release(&mut self, rel_type: ReleaseType) {
    }

    fn process_controls(&mut self, control: &Self::Control) {
        proof {
            use_type_invariant(&*self);
        }
        let value = self.pick.update(control);
        self.value = value;
    }
}

impl<V: Scalar, U: ControlPick<V>> SIMDVoiceGenerator for SIMDVoiceControl<V, U> {
    type Lane = V;

    open spec fn yields(pre: Self, values: Seq<V>, post: Self) -> bool {
        &&& post == pre
        &&& values == Seq::new(pre.lanes(), |i: int| pre.current())
    }

    fn next_sample(&mut self) -> (values: Vec<V>) {
        proof {
            use_type_invariant(&*self);
        }
        let mut values: Vec<V> = Vec::new();
        let mut i: u32 = 0;
        while i < self.width
            invariant
                i <= self.width,
                *self == *old(self),
                values@ == Seq::new(i as nat, |i: int| self.current()),
            decreases self.width - i,
        {
            values.push(self.value);
            i += 1;
            assert(values@ =~= Seq::new(i as nat, |i: int| self.current()));
        }
        values
    }
}

/// A value of the controls is taken up at once, at the start and whenever the controls change, and is
/// the same in every lane; a release does nothing to it.
pub proof fn lemma_control_is_followed<V: Scalar, U: ControlPick<V>>(
    control: VoiceControlData<V>,
    pick: U,
    width: u32,
    fresh: SIMDVoiceControl<V, U>,
    pre: SIMDVoiceControl<V, U>,
    post: SIMDVoiceControl<V, U>,
    values: Seq<V>,
    next: SIMDVoiceControl<V, U>,
    rel_type: ReleaseType,
    released: SIMDVoiceControl<V, U>,
)
    requires
        call_ensures(SIMDVoiceControl::<V, U>::new, (&control, pick, width), fresh),
        SIMDVoiceControl::<V, U>::follows(pre, control, post),
        SIMDVoiceControl::<V, U>::yields(post, values, next),
        SIMDVoiceControl::<V, U>::releases(next, rel_type, released),
    ensures
        call_ensures(U::update, (&pick, &control), fresh.current()),
        fresh.lanes() == width,
        call_ensures(U::update, (&pre.picker(), &control), post.current()),
        post.picker() == pre.picker(),
        post.lanes() == pre.lanes(),
        values.len() == pre.lanes(),
        forall|i: int| 0 <= i < values.len() ==> #[trigger] values[i] == post.current(),
        next.current() == post.current(),
        released.current() == post.current(),
        !released.has_ended(),
{
}

} // verus!
