//! The shared bounded buffer of the producer/consumer demo: a six-slot
//! `heapless` vector protected by a resource cell. The crate's vector is
//! called through trusted wrappers; `buf_contents` names what it holds,
//! and the producer and consumer steps are verified against that name.

use vstd::prelude::*;

verus! {

/// Capacity of the demo buffer.
pub const BUFFER_CAP: usize = 6;

/// The value the producer pushes each cycle.
pub const PRODUCED_VALUE: u8 = 1;

/// The bounded vector of the `heapless` crate, declared so its values can
/// run through verified code; it is opaque, and what it holds is named by
/// `buf_contents`.
#[verifier::external_type_specification]
#[verifier::external_body]
#[verifier::reject_recursive_types(T)]
pub struct ExHeaplessVec<T, const N: usize>(heapless::Vec<T, N>);

/// The six-slot byte buffer the producer and consumer share.
pub type Buffer = heapless::Vec<u8, 6>;

/// What a buffer holds, oldest first.
pub uninterp spec fn buf_contents(v: Buffer) -> Seq<u8>;

/// Relies on heapless::Vec::new: a freshly built vector is empty.
#[verifier::external_body]
fn buf_new_raw() -> (v: Buffer)
    ensures
        buf_contents(v) == Seq::<u8>::empty(),
{
    heapless::Vec::new()
}

/// Relies on heapless::Vec::push: appends the item at the back when the
/// length is below the capacity, else hands the item back and changes
/// nothing.
#[verifier::external_body]
fn buf_push_raw(v: &mut Buffer, x: u8) -> (r: Result<(), u8>)
    ensures
        buf_contents(*old(v)).len() < BUFFER_CAP ==> r is Ok
            && buf_contents(*final(v)) == buf_contents(*old(v)).push(x),
        buf_contents(*old(v)).len() >= BUFFER_CAP ==> r is Err && r->Err_0 == x
            && buf_contents(*final(v)) == buf_contents(*old(v)),
{
    v.push(x)
}

/// Relies on heapless::Vec::pop: removes and returns the last item, or
/// nothing when the vector is empty.
#[verifier::external_body]
fn buf_pop_raw(v: &mut Buffer) -> (r: Option<u8>)
    ensures
        buf_contents(*old(v)).len() > 0 ==> r == Some(buf_contents(*old(v)).last())
            && buf_contents(*final(v)) == buf_contents(*old(v)).drop_last(),
        buf_contents(*old(v)).len() == 0 ==> r is None
            && buf_contents(*final(v)) == buf_contents(*old(v)),
{
    v.pop()
}

/// Relies on heapless::Vec::is_full: whether the length has reached the
/// capacity.
#[verifier::external_body]
fn buf_is_full_raw(v: &Buffer) -> (r: bool)
    ensures
        r == (buf_contents(*v).len() == BUFFER_CAP),
{
    v.is_full()
}

/// Relies on heapless::Vec::len.
#[verifier::external_body]
fn buf_len_raw(v: &Buffer) -> (r: usize)
    ensures
        r == buf_contents(*v).len(),
{
    v.len()
}

/// Relies on heapless::Vec::as_slice: the stored items in order.
#[verifier::external_body]
fn buf_snapshot_raw(v: &Buffer) -> (r: Vec<u8>)
    ensures
        r@ == buf_contents(*v),
{
    v.as_slice().to_vec()
}

/// An empty buffer.
pub fn buf_new() -> (v: Buffer)
    ensures
        buf_contents(v) == Seq::<u8>::empty(),
        buf_contents(v).len() == 0,
{
    buf_new_raw()
}

/// How many items the buffer holds.
pub fn buf_len(v: &Buffer) -> (r: usize)
    ensures
        r == buf_contents(*v).len(),
{
    buf_len_raw(v)
}

/// A copy of the buffer's items, oldest first.
pub fn buf_snapshot(v: &Buffer) -> (r: Vec<u8>)
    ensures
        r@ == buf_contents(*v),
{
    buf_snapshot_raw(v)
}

/// What the consumer did: drained a full buffer (the popped items, newest
/// first, as popping from the back yields them), or left a buffer that
/// still had room and reported what it holds.
pub enum ConsumerReport {
    Drained(Vec<u8>),
    Observed(Vec<u8>),
}

/// The producer's one cycle, run inside its critical section on the
/// buffer cell: push one element; a full buffer drops it, and the result
/// says which happened, for the log. The caller then spawns the consumer.
pub fn producer_step(buf: &mut Buffer) -> (pushed: bool)
    ensures
        buf_contents(*old(buf)).len() < BUFFER_CAP ==> pushed
            && buf_contents(*final(buf)) == buf_contents(*old(buf)).push(PRODUCED_VALUE),
        buf_contents(*old(buf)).len() >= BUFFER_CAP ==> !pushed
            && buf_contents(*final(buf)) == buf_contents(*old(buf)),
{
    match buf_push_raw(buf, PRODUCED_VALUE) {
        Ok(()) => true,
        Err(_) => false,
    }
}

/// The consumer's one cycle, run inside its critical section on the
/// buffer cell: when the buffer is full, pop every item, draining it to
/// empty in one sweep; otherwise leave it untouched and report its
/// contents.
pub fn consumer_step(buf: &mut Buffer) -> (r: ConsumerReport)
    ensures
        buf_contents(*old(buf)).len() == BUFFER_CAP ==> (match r {
            ConsumerReport::Drained(popped) => {
                &&& buf_contents(*final(buf)).len() == 0
                &&& popped@.len() == BUFFER_CAP
                &&& forall|i: int| 0 <= i < popped@.len()
                    ==> popped@[i] == buf_contents(*old(buf))[BUFFER_CAP - 1 - i]
            },
            ConsumerReport::Observed(_) => false,
        }),
        buf_contents(*old(buf)).len() != BUFFER_CAP ==> (match r {
            ConsumerReport::Observed(seen) => {
                &&& buf_contents(*final(buf)) == buf_contents(*old(buf))
                &&& seen@ == buf_contents(*old(buf))
            },
            ConsumerReport::Drained(_) => false,
        }),
{
    if buf_is_full_raw(buf) {
        let ghost orig = buf_contents(*buf);
        let total = buf_len_raw(buf);
        let mut popped: Vec<u8> = Vec::new();
        let mut cnt: usize = 0;
        while cnt < total
            invariant
                total == orig.len(),
                cnt <= total,
                popped@.len() == cnt,
                buf_contents(*buf) == orig.take(total - cnt),
                forall|i: int| 0 <= i < popped@.len()
                    ==> #[trigger] popped@[i] == orig[total - 1 - i],
            decreases total - cnt,
        {
            match buf_pop_raw(buf) {
                Some(x) => {
                    proof {
                        assert(buf_contents(*buf) =~= orig.take(total - cnt).drop_last());
                        assert(orig.take(total - cnt).drop_last() =~= orig.take(total - (cnt + 1)));
                        assert(orig.take(total - cnt).last() == orig[total - 1 - cnt]);
                    }
                    popped.push(x);
                },
                None => {
                    proof {
                        assert(false);
                    }
                },
            }
            cnt = cnt + 1;
        }
        proof {
            assert(buf_contents(*buf) =~= orig.take(0));
        }
        ConsumerReport::Drained(popped)
    } else {
        ConsumerReport::Observed(buf_snapshot_raw(buf))
    }
}

} // verus!
