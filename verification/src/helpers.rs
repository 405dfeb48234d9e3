//! Buffers and how they are added up.

use crate::scalar;
use crate::scalar::Scalar;
use core::ops::Add;
use std::sync::Arc;
use vstd::prelude::*;
use vstd::std_specs::ops::AddSpec;

verus! {

/// Whether any two samples can be added.
pub open spec fn can_add<S: Add<Output = S>>() -> bool {
    forall|a: S, b: S| #[trigger] a.add_req(b)
}

/// Whether `sum` is what adding `b` to `a` gives.
pub open spec fn is_added<S: Add<Output = S>>(a: S, b: S, sum: S) -> bool {
    call_ensures(S::add, (a, b), sum)
}

/// Adds two samples.
pub(crate) fn add_samples<S: Copy + Add<Output = S>>(a: S, b: S) -> (sum: S)
    requires
        can_add::<S>(),
    ensures
        is_added(a, b, sum),
{
    assert(a.add_req(b));
    a + b
}

/// Whether `after` is `before` with `source` added to it, sample by sample.
pub open spec fn all_added<S: Add<Output = S>>(
    before: Seq<S>,
    source: Seq<S>,
    after: Seq<S>,
) -> bool {
    &&& after.len() == before.len()
    &&& forall|i: int|
        0 <= i < before.len() ==> is_added(before[i], source[i], #[trigger] after[i])
}

/// Take any vec, set its length and fill it with the default value.
pub fn prepapre_cache_vec<T: Copy>(vec: &mut Vec<T>, len: usize, default: T)
    ensures
        final(vec)@ == Seq::new(len as nat, |i: int| default),
{
    vec.clear();
    let mut i: usize = 0;
    while i < len
        invariant
            i <= len,
            vec@ == Seq::new(i as nat, |i: int| default),
        decreases len - i,
    {
        vec.push(default);
        assert(vec@ =~= Seq::new((i + 1) as nat, |i: int| default));
        i += 1;
    }
}

/// Sets the length of a buffer and fills it with silence.
pub fn fast_zero_fill<S: Copy + Default>(vec: &mut Vec<S>, len: usize)
    ensures
        is_silence(final(vec)@, len as nat),
{
    let zero = S::default();
    prepapre_cache_vec(vec, len, zero);
    assert(is_zero(zero));
}

/// Whether a sample is silent.
pub open spec fn is_zero<S: Default>(zero: S) -> bool {
    call_ensures(S::default, (), zero)
}

/// Whether a buffer holds `len` times one silent sample.
pub open spec fn is_silence<S: Default>(buffer: Seq<S>, len: nat) -> bool {
    exists|zero: S| #[trigger] is_zero(zero) && buffer == Seq::new(len, |i: int| zero)
}

/// Sum the values of `source` to the values of `target`, writing to `target`.
pub fn sum_simd<S: Copy + Add<Output = S>>(source: &[S], target: &mut [S])
    requires
        can_add::<S>(),
        source@.len() == old(target)@.len(),
    ensures
        all_added(old(target)@, source@, final(target)@),
{
    let ghost before = target@;
    let len: usize = source.len();
    let mut i: usize = 0;
    while i < len
        invariant
            i <= len,
            len == source@.len(),
            target@.len() == len,
            before.len() == len,
            can_add::<S>(),
            forall|j: int|
                0 <= j < i ==> is_added(before[j], source@[j], #[trigger] target@[j]),
            forall|j: int| i <= j < len ==> #[trigger] target@[j] == before[j],
        decreases len - i,
    {
        target[i] = add_samples(target[i], source[i]);
        i += 1;
    }
}

/// Whether `trace` holds a buffer before and after each of `sources` is added to it.
pub open spec fn is_adding<S: Add<Output = S>>(
    sources: Seq<Vec<S>>,
    trace: Seq<Seq<S>>,
) -> bool {
    &&& trace.len() == sources.len() + 1
    &&& forall|k: int|
        0 <= k < sources.len() ==> all_added(#[trigger] trace[k], sources[k]@, trace[k + 1])
}

/// Whether `after` is `before` with every one of `sources` added to it, in order.
pub open spec fn adds_up<S: Add<Output = S>>(
    before: Seq<S>,
    sources: Seq<Vec<S>>,
    after: Seq<S>,
) -> bool {
    exists|trace: Seq<Seq<S>>| #[trigger]
        is_adding(sources, trace) && trace[0] == before && trace.last() == after
}

/// Sums multiple buffers into target
pub fn sum_buffers_to_target<S: Copy + Add<Output = S>>(sources: &[Vec<S>], target: &mut [S])
    requires
        can_add::<S>(),
        forall|k: int|
            0 <= k < sources@.len() ==> (#[trigger] sources@[k])@.len() == old(target)@.len(),
    ensures
        adds_up(old(target)@, sources@, final(target)@),
{
    let ghost mut trace = seq![target@];
    let mut k: usize = 0;
    while k < sources.len()
        invariant
            k <= sources@.len(),
            target@.len() == old(target)@.len(),
            can_add::<S>(),
            forall|j: int|
                0 <= j < sources@.len() ==> (#[trigger] sources@[j])@.len() == old(target)@.len(),
            trace.len() == k + 1,
            trace[0] == old(target)@,
            trace[k as int] == target@,
            forall|j: int|
                0 <= j < k ==> all_added(#[trigger] trace[j], sources@[j]@, trace[j + 1]),
        decreases sources@.len() - k,
    {
        assert(sources@[k as int]@.len() == old(target)@.len());
        let ghost before = target@;
        sum_simd(sources[k].as_slice(), target);
        proof {
            assert(all_added(before, sources@[k as int]@, target@));
            let longer = trace.push(target@);
            assert forall|j: int| 0 <= j < k + 1 implies all_added(
                #[trigger] longer[j],
                sources@[j]@,
                longer[j + 1],
            ) by {
                assert(longer[j] == trace[j]);
                if j < k {
                    assert(longer[j + 1] == trace[j + 1]);
                }
            }
            trace = longer;
        }
        k += 1;
    }
    assert(is_adding(sources@, trace));
}

/// Buffers that are kept for reuse.
pub struct RenderBufferPool<S> {
    buffers: Vec<Vec<S>>,
}

impl<S: Copy + Default> RenderBufferPool<S> {
    /// The number of buffers that are kept.
    pub closed spec fn size(&self) -> nat {
        self.buffers@.len()
    }

    /// An empty pool.
    pub fn new() -> (pool: Self)
        ensures
            pool.size() == 0,
    {
        RenderBufferPool { buffers: Vec::new() }
    }

    /// Get a silent buffer from the pool or create a new one
    pub fn get_render_buffer(&mut self, size: usize) -> (buf: Vec<S>)
        ensures
            is_silence(buf@, size as nat),
            final(self).size() == if old(self).size() > 0 {
                old(self).size() - 1
            } else {
                0
            },
    {
        let mut buf: Vec<S> = match self.buffers.pop() {
            Some(buf) => buf,
            None => Vec::new(),
        };
        fast_zero_fill(&mut buf, size);
        buf
    }

    /// Return a buffer to the pool, which keeps at most 16 to limit memory usage
    pub fn return_render_buffer(&mut self, buf: Vec<S>)
        ensures
            final(self).size() == if old(self).size() < 16 {
                old(self).size() + 1
            } else {
                old(self).size()
            },
    {
        if self.buffers.len() < 16 {
            self.buffers.push(buf);
        }
    }
}

/// `Arc::ptr_eq`: tells whether two `Arc`s point to the same allocation. Two that do hold the same
/// value. Nothing is claimed of two that do not: equal values may lie in two places.
#[verifier::external_body]
fn same_allocation<T: ?Sized>(a: &Arc<T>, b: &Arc<T>) -> (same: bool)
    ensures
        same ==> *a == *b,
{
    Arc::ptr_eq(a, b)
}

/// Whether every answer is yes.
pub open spec fn all_hold(same: Seq<bool>) -> bool {
    forall|i: int| 0 <= i < same.len() ==> #[trigger] same[i]
}

/// Whether two lists are equal: they are equally long and `same` holds of each pair of items.
pub fn all_pairs_same(old_len: usize, new_len: usize, same: &[bool]) -> (equal: bool)
    ensures
        equal == (old_len == new_len && all_hold(same@)),
{
    if old_len != new_len {
        return false;
    }
    let mut i: usize = 0;
    while i < same.len()
        invariant
            i <= same@.len(),
            forall|j: int| 0 <= j < i ==> #[trigger] same@[j],
        decreases same@.len() - i,
    {
        if !same[i] {
            return false;
        }
        i += 1;
    }
    true
}

/// Whether `same` holds the answers of `Arc::ptr_eq` on each pair of items.
pub closed spec fn compared<T: ?Sized>(
    old_items: Seq<Arc<T>>,
    new_items: Seq<Arc<T>>,
    same: Seq<bool>,
) -> bool {
    &&& same.len() == old_items.len()
    &&& forall|i: int|
        0 <= i < same.len() ==> call_ensures(
            same_allocation::<T>,
            (&old_items[i], &new_items[i]),
            #[trigger] same[i],
        )
}

/// Checks if two `Arc<T>` vecs are equal based on `Arc::ptr_eq`.
pub fn are_arc_vecs_equal<T: ?Sized>(old_items: &[Arc<T>], new_items: &[Arc<T>]) -> (equal: bool)
    ensures
        old_items@.len() != new_items@.len() ==> !equal,
        old_items@.len() == 0 && new_items@.len() == 0 ==> equal,
        equal ==> old_items@ == new_items@,
        old_items@.len() == new_items@.len() ==> exists|same: Seq<bool>| #[trigger]
            compared(old_items@, new_items@, same) && equal == (forall|i: int|
                0 <= i < same.len() ==> #[trigger] same[i]),
{
    let mut same: Vec<bool> = Vec::new();
    if old_items.len() == new_items.len() {
        let mut i: usize = 0;
        while i < old_items.len()
            invariant
                i <= old_items@.len(),
                old_items@.len() == new_items@.len(),
                same@.len() == i,
                forall|j: int| 0 <= j < i && #[trigger] same@[j] ==> old_items@[j] == new_items@[j],
                forall|j: int|
                    0 <= j < i ==> call_ensures(
                        same_allocation::<T>,
                        (&old_items@[j], &new_items@[j]),
                        #[trigger] same@[j],
                    ),
            decreases old_items@.len() - i,
        {
            let answer: bool = same_allocation(&old_items[i], &new_items[i]);
            assert(call_ensures(
                same_allocation::<T>,
                (&old_items@[i as int], &new_items@[i as int]),
                answer,
            ));
            same.push(answer);
            i += 1;
        }
        assert(compared(old_items@, new_items@, same@));
    }
    let equal: bool = all_pairs_same(old_items.len(), new_items.len(), same.as_slice());
    assert(equal ==> old_items@ =~= new_items@) by {
        if equal {
            assert forall|j: int| 0 <= j < old_items@.len() implies old_items@[j]
                == new_items@[j] by {
                assert(same@[j]);
            }
        }
    }
    equal
}

/// Whether `amp` is the amplitude of a level in decibels: `10^(db / 20)`.
pub open spec fn is_db_amp<V: Scalar>(db: V, amp: V) -> bool {
    exists|ten: V, twenty: V, exponent: V| #[trigger] is_db_amp_by(db, amp, ten, twenty, exponent)
}

/// As above, by way of the values in between.
pub open spec fn is_db_amp_by<V: Scalar>(db: V, amp: V, ten: V, twenty: V, exponent: V) -> bool {
    &&& scalar::is_ratio(10, 1, ten)
    &&& scalar::is_ratio(20, 1, twenty)
    &&& scalar::is_quotient(db, twenty, exponent)
    &&& call_ensures(V::raised, (ten, exponent), amp)
}

/// The amplitude of a level in decibels.
pub fn db_to_amp<V: Scalar>(db: V) -> (amp: V)
    ensures
        is_db_amp(db, amp),
{
    let ten: V = scalar::ratio(10, 1);
    let twenty: V = scalar::ratio(20, 1);
    let exponent = scalar::quotient(db, twenty);
    let amp: V = ten.raised(exponent);
    assert(is_db_amp_by(db, amp, ten, twenty, exponent));
    amp
}

/// A cache vector has the length that is asked for, and holds one value throughout.
pub proof fn lemma_prepared<T: Copy>(vec: &mut Vec<T>, len: usize, default: T)
    requires
        call_ensures(prepapre_cache_vec::<T>, (vec, len, default), ()),
    ensures
        final(vec)@.len() == len,
        forall|i: int| 0 <= i < len ==> #[trigger] final(vec)@[i] == default,
{
}

/// A zeroed buffer has the length that is asked for and is silent throughout.
pub proof fn lemma_zeroed<S: Copy + Default>(vec: &mut Vec<S>, len: usize)
    requires
        call_ensures(fast_zero_fill::<S>, (vec, len), ()),
    ensures
        final(vec)@.len() == len,
        forall|i: int|
            0 <= i < len ==> call_ensures(S::default, (), #[trigger] final(vec)@[i]),
{
}

/// Summing adds to each sample of the target the sample of the source that stands in its place.
pub proof fn lemma_sums_each<S: Copy + Add<Output = S>>(source: &[S], target: &mut [S])
    requires
        call_ensures(sum_simd::<S>, (source, target), ()),
    ensures
        final(target)@.len() == old(target)@.len(),
        forall|i: int|
            0 <= i < old(target)@.len() ==> call_ensures(
                S::add,
                (old(target)@[i], source@[i]),
                #[trigger] final(target)@[i],
            ),
{
    assert forall|i: int| 0 <= i < old(target)@.len() implies call_ensures(
        S::add,
        (old(target)@[i], source@[i]),
        #[trigger] final(target)@[i],
    ) by {
        assert(is_added(old(target)@[i], source@[i], final(target)@[i]));
    }
}

/// Whether each row is the one before it with the next source added, sample by sample.
pub open spec fn adds_row_by_row<S: Add<Output = S>>(
    sources: Seq<Vec<S>>,
    rows: Seq<Seq<S>>,
) -> bool {
    &&& rows.len() == sources.len() + 1
    &&& forall|k: int, i: int|
        0 <= k < sources.len() && 0 <= i < rows[0].len() ==> call_ensures(
            S::add,
            (rows[k][i], sources[k]@[i]),
            #[trigger] rows[k + 1][i],
        )
    &&& forall|k: int| 0 <= k < rows.len() ==> (#[trigger] rows[k]).len() == rows[0].len()
}

/// Every buffer is added to the target, once and in order.
pub proof fn lemma_sums_all<S: Copy + Add<Output = S>>(sources: &[Vec<S>], target: &mut [S])
    requires
        call_ensures(sum_buffers_to_target::<S>, (sources, target), ()),
    ensures
        exists|rows: Seq<Seq<S>>| #[trigger]
            adds_row_by_row(sources@, rows) && rows[0] == old(target)@ && rows[rows.len() - 1]
                == final(target)@,
{
    let trace = choose|trace: Seq<Seq<S>>| #[trigger]
        is_adding(sources@, trace) && trace[0] == old(target)@ && trace.last() == final(target)@;
    assert forall|k: int| 0 <= k < trace.len() implies (#[trigger] trace[k]).len()
        == trace[0].len() by {
        lemma_rows(sources@, trace, k);
    }
    assert forall|k: int, i: int| 0 <= k < sources@.len() && 0 <= i < trace[0].len() implies
        call_ensures(S::add, (trace[k][i], sources@[k]@[i]), #[trigger] trace[k + 1][i]) by {
        assert(trace[k].len() == trace[0].len());
        assert(all_added(trace[k], sources@[k]@, trace[k + 1]));
        assert(is_added(trace[k][i], sources@[k]@[i], trace[k + 1][i]));
    }
    assert(adds_row_by_row(sources@, trace));
}

/// Adding keeps the length.
proof fn lemma_rows<S: Add<Output = S>>(sources: Seq<Vec<S>>, trace: Seq<Seq<S>>, k: int)
    requires
        is_adding(sources, trace),
        0 <= k < trace.len(),
    ensures
        trace[k].len() == trace[0].len(),
    decreases k,
{
    if k > 0 {
        lemma_rows(sources, trace, k - 1);
        assert(all_added(trace[k - 1], sources[k - 1]@, trace[k - 1 + 1]));
    }
}

/// A buffer of the pool is silent and as long as is asked for, whatever was in it before. Taking one
/// leaves one fewer, giving one back leaves one more, up to sixteen.
pub proof fn lemma_pool<S: Copy + Default>(
    pool: &mut RenderBufferPool<S>,
    size: usize,
    buf: Vec<S>,
    other: &mut RenderBufferPool<S>,
    back: Vec<S>,
    empty: RenderBufferPool<S>,
)
    requires
        call_ensures(RenderBufferPool::<S>::get_render_buffer, (pool, size), buf),
        call_ensures(RenderBufferPool::<S>::return_render_buffer, (other, back), ()),
        call_ensures(RenderBufferPool::<S>::new, (), empty),
    ensures
        buf@.len() == size,
        forall|i: int| 0 <= i < size ==> call_ensures(S::default, (), #[trigger] buf@[i]),
        old(pool).size() > 0 ==> final(pool).size() + 1 == old(pool).size(),
        old(pool).size() == 0 ==> final(pool).size() == 0,
        old(other).size() < 16 ==> final(other).size() == old(other).size() + 1,
        old(other).size() >= 16 ==> final(other).size() == old(other).size(),
        empty.size() == 0,
{
}

/// Two lists are equal just when they are equally long and no pair differs.
pub proof fn lemma_pairs(old_len: usize, new_len: usize, same: &[bool], equal: bool)
    requires
        call_ensures(all_pairs_same, (old_len, new_len, same), equal),
    ensures
        old_len != new_len ==> !equal,
        (exists|i: int| 0 <= i < same@.len() && !(#[trigger] same@[i])) ==> !equal,
        !equal && old_len == new_len ==> exists|i: int| 0 <= i < same@.len() && !(
        #[trigger] same@[i]),
{
}

/// Whether `amp` is ten to the power of a twentieth of `db`.
pub open spec fn is_ten_to_twentieth<V: Scalar>(db: V, amp: V) -> bool {
    exists|ten: V, twenty: V, exponent: V|
        #![trigger call_ensures(V::over, (db, twenty), exponent), call_ensures(V::raised, (ten, exponent), amp)]
        call_ensures(V::ratio, (10, 1), ten) && call_ensures(V::ratio, (20, 1), twenty)
            && call_ensures(V::over, (db, twenty), exponent) && call_ensures(
            V::raised,
            (ten, exponent),
            amp,
        )
}

/// Twenty decibels are a factor of ten.
pub proof fn lemma_decibels<V: Scalar>(db: V, amp: V)
    requires
        call_ensures(db_to_amp::<V>, (db,), amp),
    ensures
        is_ten_to_twentieth(db, amp),
{
    let (ten, twenty, exponent) = choose|ten: V, twenty: V, exponent: V| #[trigger]
        is_db_amp_by(db, amp, ten, twenty, exponent);
    assert(call_ensures(V::over, (db, twenty), exponent));
    assert(call_ensures(V::raised, (ten, exponent), amp));
}

/// Lists that are found equal hold the same items; lists of different lengths are not, and empty ones are.
pub proof fn lemma_equal_lists<T: ?Sized>(old_items: &[Arc<T>], new_items: &[Arc<T>], equal: bool)
    requires
        call_ensures(are_arc_vecs_equal::<T>, (old_items, new_items), equal),
    ensures
        equal ==> old_items@.len() == new_items@.len() && forall|i: int|
            0 <= i < old_items@.len() ==> #[trigger] old_items@[i] == new_items@[i],
        old_items@.len() == 0 && new_items@.len() == 0 ==> equal,
{
}

} // verus!
