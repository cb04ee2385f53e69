use vstd::prelude::*;
use vstd::arithmetic::div_mod::{
    lemma_add_mod_noop_right, lemma_mod_division_less_than_divisor, lemma_mod_mod,
    lemma_mod_multiples_vanish, lemma_mod_self_0, lemma_mod_sub_multiples_vanish, lemma_small_mod,
};
use vstd::arithmetic::power::pow;
use vstd::arithmetic::power2::{is_pow2, is_pow2_equiv, lemma_pow2_adds, lemma_pow2_pos, lemma_pow2_strictly_increases, pow2};
use vstd::bits::{lemma_usize_low_bits_mask_is_mod, low_bits_mask};
use vstd::layout::unsigned_int_max_values;
use vstd::wrapping::usize_specs;

use crate::errors::RingBufferError;

verus! {

/// One more than `usize::MAX`: the modulus at which the logical cursors wrap.
pub open spec fn cursor_modulus() -> nat {
    usize::MAX as nat + 1
}

/// The logical cursor `x` advanced by `k` steps, wrapping at the integer width.
pub open spec fn cursor_add(x: usize, k: nat) -> usize {
    (((x as nat + k) % cursor_modulus()) as usize)
}

/// How many steps cursor `from` must advance, wrapping at the integer width,
/// to reach cursor `to`.
pub open spec fn cursor_dist(from: usize, to: usize) -> nat {
    usize_specs::wrapping_sub(to, from) as nat
}

/// The physical slot that backs logical cursor `cursor`, for storage length
/// `cap`: the cursor masked with `cap - 1`.
pub open spec fn slot_of(cap: nat, cursor: usize) -> int {
    if cap == 0 {
        0
    } else {
        (((cap - 1) as usize) & cursor) as int
    }
}

/// Advancing a cursor by one step is the ordinary wrapping increment.
proof fn lemma_cursor_add_one(x: usize)
    ensures
        cursor_add(x, 1) == usize_specs::wrapping_add(x, 1),
{
    if x == usize::MAX {
        lemma_mod_self_0(cursor_modulus() as int);
    } else {
        lemma_small_mod((x + 1) as nat, cursor_modulus());
    }
}

/// Advancing a cursor by nothing leaves it in place.
proof fn lemma_cursor_add_zero(x: usize)
    ensures
        cursor_add(x, 0) == x,
{
    lemma_small_mod(x as nat, cursor_modulus());
}

/// Advancing a cursor twice is advancing it once by the combined step count.
proof fn lemma_cursor_add_assoc(x: usize, a: nat, b: nat)
    ensures
        cursor_add(cursor_add(x, a), b) == cursor_add(x, a + b),
{
    let m = cursor_modulus() as int;
    lemma_mod_division_less_than_divisor((x as nat + a) as int, m);
    lemma_add_mod_noop_right(b as int, (x as nat + a) as int, m);
}

/// Advancing the write cursor by one step grows the distance from the read
/// cursor by one, as long as the distance can still grow.
proof fn lemma_dist_inc(r: usize, w: usize)
    requires
        cursor_dist(r, w) < usize::MAX,
    ensures
        cursor_dist(r, usize_specs::wrapping_add(w, 1)) == cursor_dist(r, w) + 1,
{
}

/// Advancing the read cursor by one step shrinks its distance to the write
/// cursor by one, as long as some distance is left.
proof fn lemma_dist_drop(r: usize, w: usize)
    requires
        cursor_dist(r, w) >= 1,
    ensures
        cursor_dist(usize_specs::wrapping_add(r, 1), w) == cursor_dist(r, w) - 1,
{
}

/// Advancing the read cursor by the whole distance reaches the write cursor.
proof fn lemma_cursor_add_dist(r: usize, w: usize)
    ensures
        cursor_add(r, cursor_dist(r, w)) == w,
{
    let m = cursor_modulus() as int;
    if r <= w {
        lemma_small_mod(w as nat, cursor_modulus());
    } else {
        lemma_mod_multiples_vanish(1, w as int, m);
        lemma_small_mod(w as nat, cursor_modulus());
    }
}

/// The physical slot always lies inside the storage.
proof fn lemma_slot_in_bounds(cap: nat, cursor: usize)
    requires
        0 < cap <= usize::MAX,
    ensures
        0 <= slot_of(cap, cursor) < cap,
{
    let m = (cap - 1) as usize;
    assert(m & cursor <= m) by (bit_vector);
}

/// The exponent of a power-of-two storage length; it fits the integer width.
proof fn pow2_exponent(cap: nat) -> (k: nat)
    requires
        is_pow2(cap as int),
        cap <= usize::MAX,
    ensures
        pow2(k) == cap,
        k < usize::BITS as nat,
{
    is_pow2_equiv(cap as int);
    let k = choose|i: nat| pow(2, i) == cap as int;
    assert(pow2(k) == cap);
    lemma_pow2_pos(k);
    unsigned_int_max_values();
    if k > usize::BITS as nat {
        lemma_pow2_strictly_increases(usize::BITS as nat, k);
    }
    k
}

/// With a power-of-two storage length, masking a cursor is reduction
/// modulo the storage length.
proof fn lemma_slot_is_mod(cap: nat, cursor: usize)
    requires
        is_pow2(cap as int),
        cap <= usize::MAX,
    ensures
        slot_of(cap, cursor) == (cursor as int) % (cap as int),
{
    let k = pow2_exponent(cap);
    lemma_pow2_pos(k);
    assert(low_bits_mask(k) == cap - 1);
    lemma_usize_low_bits_mask_is_mod(cursor, k);
    let m = (cap - 1) as usize;
    assert(m & cursor == cursor & m) by (bit_vector);
}

/// With a power-of-two storage length, the slot of an advanced cursor is the
/// advanced position reduced modulo the storage length: the detour through
/// the cursor's own wrap at the integer width changes nothing.
proof fn lemma_slot_of_add(cap: nat, x: usize, k: nat)
    requires
        is_pow2(cap as int),
        cap <= usize::MAX,
    ensures
        slot_of(cap, cursor_add(x, k)) == (x as int + k as int) % (cap as int),
{
    let e = pow2_exponent(cap);
    lemma_pow2_pos(e);
    lemma_slot_is_mod(cap, cursor_add(x, k));
    lemma_pow2_adds(e, (usize::BITS as nat - e) as nat);
    lemma_pow2_pos((usize::BITS as nat - e) as nat);
    unsigned_int_max_values();
    assert(cursor_modulus() == cap * pow2((usize::BITS as nat - e) as nat));
    lemma_mod_mod((x as nat + k) as int, cap as int, pow2((usize::BITS as nat - e) as nat) as int);
}

/// Two positions strictly less than one storage length apart never share a
/// physical slot.
proof fn lemma_mod_distinct(a: int, d: int, m: int)
    requires
        0 <= a,
        0 < d < m,
    ensures
        (a + d) % m != a % m,
{
    let q = a % m;
    lemma_mod_division_less_than_divisor(a, m);
    lemma_add_mod_noop_right(d, a, m);
    assert((a + d) % m == (d + q) % m);
    if q + d < m {
        lemma_small_mod((q + d) as nat, m as nat);
    } else {
        lemma_mod_sub_multiples_vanish(q + d, m);
        lemma_small_mod((q + d - m) as nat, m as nat);
    }
}

/// A fixed-capacity circular first-in-first-out buffer over caller-supplied
/// storage. The buffer holds an exclusive borrow of the storage for its whole
/// lifetime and never allocates or grows.
///
/// Both cursors are unbounded logical counters that wrap at the integer
/// width; the physical slot of a cursor is the cursor masked with
/// `capacity - 1`, so the buffer behaves as a queue whenever the storage
/// length is a power of two. Construction only checks that the length is
/// even; the view-level queue contracts therefore carry the power-of-two
/// hypothesis explicitly.
pub struct RingBuffer<'a, Word> {
    store: &'a mut [Word],
    read: usize,
    write: usize,
}

impl<'a, Word> View for RingBuffer<'a, Word> {
    type V = Seq<Word>;

    /// The live elements, oldest first.
    closed spec fn view(&self) -> Seq<Word> {
        Seq::new(
            cursor_dist(self.read, self.write),
            |i: int| self.store@[slot_of(self.store@.len(), cursor_add(self.read, i as nat))],
        )
    }
}

impl<'a, Word> RingBuffer<'a, Word> {
    /// Every stored slot, occupied or not.
    pub closed spec fn spec_store(&self) -> Seq<Word> {
        self.store@
    }

    /// The logical read cursor.
    pub closed spec fn spec_read(&self) -> usize {
        self.read
    }

    /// The logical write cursor.
    pub closed spec fn spec_write(&self) -> usize {
        self.write
    }

    /// The number of slots in the storage.
    pub closed spec fn spec_capacity(&self) -> nat {
        self.store@.len()
    }

    /// Well-formedness: the storage length is even and the cursors are at
    /// most one storage length apart. Construction establishes this and
    /// every operation preserves it.
    pub closed spec fn wf(&self) -> bool {
        &&& self.store@.len() % 2 == 0
        &&& self.store@.len() <= usize::MAX
        &&& cursor_dist(self.read, self.write) <= self.store@.len()
    }
}

impl<'a, Word: Copy> RingBuffer<'a, Word> {
    /// Builds a buffer over the given storage, which it borrows exclusively
    /// for its lifetime. Fails with `InvalidCapacity` exactly when the
    /// storage length is odd; succeeds otherwise with both cursors at zero,
    /// so the buffer starts out empty.
    pub fn new(buf: &'a mut [Word]) -> (r: Result<Self, RingBufferError>)
        ensures
            match r {
                Ok(rb) => ({
                    &&& old(buf)@.len() % 2 == 0
                    &&& rb.wf()
                    &&& rb@ == Seq::<Word>::empty()
                    &&& rb.spec_capacity() == old(buf)@.len()
                    &&& rb.spec_store() == old(buf)@
                    &&& rb.spec_read() == 0
                    &&& rb.spec_write() == 0
                }),
                Err(e) => ({
                    &&& old(buf)@.len() % 2 != 0
                    &&& e == RingBufferError::InvalidCapacity
                }),
            },
    {
        if buf.len() % 2 != 0 {
            Err(RingBufferError::InvalidCapacity)
        } else {
            let rb = RingBuffer { store: buf, read: 0, write: 0 };
            proof {
                assert(rb@ =~= Seq::<Word>::empty());
            }
            Ok(rb)
        }
    }

    /// The physical slot of logical cursor `ix`.
    fn mask(&self, ix: usize) -> (s: usize)
        requires
            0 < self.spec_capacity() <= usize::MAX,
        ensures
            s as int == slot_of(self.spec_capacity(), ix),
            s < self.spec_capacity(),
    {
        proof {
            lemma_slot_in_bounds(self.spec_capacity(), ix);
        }
        (self.store.len() - 1) & ix
    }

    /// The number of live elements: the wrapping distance from the read
    /// cursor to the write cursor.
    pub fn len(&self) -> (n: usize)
        ensures
            n as nat == self@.len(),
    {
        self.write.wrapping_sub(self.read)
    }

    /// The number of slots in the storage.
    pub fn capacity(&self) -> (c: usize)
        ensures
            c as nat == self.spec_capacity(),
    {
        self.store.len()
    }

    /// Whether the buffer holds no elements: the cursors coincide.
    pub fn is_empty(&self) -> (b: bool)
        ensures
            b <==> self@.len() == 0,
    {
        self.write == self.read
    }

    /// Whether the buffer holds as many elements as it has slots.
    pub fn is_full(&self) -> (b: bool)
        ensures
            b <==> self@.len() == self.spec_capacity(),
    {
        self.len() == self.store.len()
    }

    /// Discards all content by returning both cursors to zero. The stored
    /// values are left untouched; they are merely no longer reachable, so
    /// the buffer behaves exactly like a freshly built one thereafter.
    pub fn reset(&mut self)
        requires
            old(self).wf(),
        ensures
            final(self).wf(),
            final(self)@ == Seq::<Word>::empty(),
            final(self).spec_store() == old(self).spec_store(),
            final(self).spec_capacity() == old(self).spec_capacity(),
            final(self).spec_read() == 0,
            final(self).spec_write() == 0,
    {
        self.read = 0;
        self.write = 0;
        proof {
            assert(self@ =~= Seq::<Word>::empty());
        }
    }

    /// Appends `item` as the newest element. Fails with `Full`, changing
    /// nothing, exactly when the buffer already holds `capacity()` elements;
    /// otherwise writes `item` into the slot of the write cursor and
    /// advances that cursor one step. With a power-of-two capacity this
    /// makes `item` the last element of the view.
    pub fn push(&mut self, item: Word) -> (r: Result<(), RingBufferError>)
        requires
            old(self).wf(),
        ensures
            final(self).wf(),
            final(self).spec_capacity() == old(self).spec_capacity(),
            old(self)@.len() == old(self).spec_capacity() ==> ({
                &&& r == Err::<(), RingBufferError>(RingBufferError::Full)
                &&& final(self).spec_store() == old(self).spec_store()
                &&& final(self).spec_read() == old(self).spec_read()
                &&& final(self).spec_write() == old(self).spec_write()
                &&& final(self)@ == old(self)@
            }),
            old(self)@.len() < old(self).spec_capacity() ==> ({
                &&& r == Ok::<(), RingBufferError>(())
                &&& final(self).spec_read() == old(self).spec_read()
                &&& final(self).spec_write() == cursor_add(old(self).spec_write(), 1)
                &&& final(self).spec_store() == old(self).spec_store().update(
                    slot_of(old(self).spec_capacity(), old(self).spec_write()),
                    item,
                )
                &&& final(self)@.len() == old(self)@.len() + 1
            }),
            old(self)@.len() < old(self).spec_capacity() && is_pow2(
                old(self).spec_capacity() as int,
            ) ==> final(self)@ == old(self)@.push(item),
    {
        if self.is_full() {
            return Err(RingBufferError::Full);
        }
        let i: usize = self.mask(self.write);
        self.store[i] = item;
        self.write = self.write.wrapping_add(1);
        proof {
            let cap = old(self).spec_capacity();
            let r0 = old(self).spec_read();
            let w0 = old(self).spec_write();
            let n = cursor_dist(r0, w0) as int;
            lemma_dist_inc(r0, w0);
            lemma_cursor_add_one(w0);
            if is_pow2(cap as int) {
                lemma_cursor_add_dist(r0, w0);
                lemma_slot_of_add(cap, r0, n as nat);
                assert forall|j: int| 0 <= j < n implies self@[j] == old(self)@[j] by {
                    lemma_slot_of_add(cap, r0, j as nat);
                    lemma_mod_distinct(r0 as int + j, n - j, cap as int);
                    lemma_slot_in_bounds(cap, cursor_add(r0, j as nat));
                };
                assert(self@[n] == item);
                assert(self@ =~= old(self)@.push(item));
            }
        }
        Ok(())
    }

    /// Removes and returns the oldest element. Fails with `Empty`, changing
    /// nothing, exactly when the buffer holds no elements; otherwise copies
    /// the value in the slot of the read cursor, advances that cursor one
    /// step, and returns the first element of the view, which the rest of
    /// the view outlives in order.
    pub fn pop(&mut self) -> (r: Result<Word, RingBufferError>)
        requires
            old(self).wf(),
        ensures
            final(self).wf(),
            final(self).spec_capacity() == old(self).spec_capacity(),
            final(self).spec_store() == old(self).spec_store(),
            old(self)@.len() == 0 ==> ({
                &&& r == Err::<Word, RingBufferError>(RingBufferError::Empty)
                &&& final(self).spec_read() == old(self).spec_read()
                &&& final(self).spec_write() == old(self).spec_write()
                &&& final(self)@ == old(self)@
            }),
            old(self)@.len() > 0 ==> ({
                &&& r == Ok::<Word, RingBufferError>(old(self)@[0])
                &&& final(self).spec_read() == cursor_add(old(self).spec_read(), 1)
                &&& final(self).spec_write() == old(self).spec_write()
                &&& final(self)@ == old(self)@.drop_first()
            }),
    {
        if self.is_empty() {
            return Err(RingBufferError::Empty);
        }
        let i: usize = self.mask(self.read);
        let item = self.store[i];
        self.read = self.read.wrapping_add(1);
        proof {
            let cap = old(self).spec_capacity();
            let r0 = old(self).spec_read();
            let w0 = old(self).spec_write();
            let n = cursor_dist(r0, w0) as int;
            lemma_cursor_add_zero(r0);
            lemma_dist_drop(r0, w0);
            lemma_cursor_add_one(r0);
            assert forall|j: int| 0 <= j < n - 1 implies self@[j] == old(self)@[j + 1] by {
                lemma_cursor_add_assoc(r0, 1, j as nat);
            };
            assert(self@ =~= old(self)@.drop_first());
        }
        Ok(item)
    }
}

/// The occupancy of a well-formed buffer never exceeds its capacity,
/// whatever sequence of pushes and pops produced its state.
pub proof fn lemma_occupancy_bounded<'a, Word>(b: &RingBuffer<'a, Word>)
    requires
        b.wf(),
    ensures
        0 <= b@.len() <= b.spec_capacity(),
{
}

/// A well-formed buffer with positive capacity is never full and empty at
/// once: the two-cursor representation distinguishes the two states without
/// a separate flag.
pub proof fn lemma_full_empty_disjoint<'a, Word>(b: &RingBuffer<'a, Word>)
    requires
        b.wf(),
        b.spec_capacity() > 0,
    ensures
        !(b@.len() == b.spec_capacity() && b@.len() == 0),
{
}

/// First-in-first-out order: pushing `a`, `b`, `c` onto an empty buffer
/// leaves the view `[a, b, c]`, and since `pop` returns the first element of
/// the view and drops it, three pops yield `a`, then `b`, then `c`, leaving
/// the buffer empty.
pub proof fn lemma_fifo_order<Word>(a: Word, b: Word, c: Word)
    ensures
        ({
            let s = Seq::<Word>::empty().push(a).push(b).push(c);
            &&& s.len() == 3
            &&& s.first() == a
            &&& s.drop_first().first() == b
            &&& s.drop_first().drop_first().first() == c
            &&& s.drop_first().drop_first().drop_first() == Seq::<Word>::empty()
        }),
{
    let s = Seq::<Word>::empty().push(a).push(b).push(c);
    assert(s.drop_first() =~= seq![b, c]);
    assert(s.drop_first().drop_first() =~= seq![c]);
    assert(s.drop_first().drop_first().drop_first() =~= Seq::<Word>::empty());
}

/// Wrap-around: with a power-of-two capacity, a cursor that advances by a
/// whole lap comes back to the same physical slot, so slots are reused
/// consistently once the cursors pass the storage length.
pub proof fn lemma_full_lap_same_slot(cap: nat, cursor: usize)
    requires
        is_pow2(cap as int),
        0 < cap <= usize::MAX,
    ensures
        slot_of(cap, cursor_add(cursor, cap)) == slot_of(cap, cursor),
{
    lemma_slot_is_mod(cap, cursor);
    lemma_slot_of_add(cap, cursor, cap);
    lemma_mod_multiples_vanish(1, cursor as int, cap as int);
}

/// A buffer whose cursors both sit at zero is empty. Together with the
/// contract of `reset` — which yields exactly this cursor state and keeps
/// the storage — a second `reset` finds the state the first one left, so
/// resetting is idempotent, and the state equals the one `new` hands out
/// over the same storage.
pub proof fn lemma_reset_state_is_empty<'a, Word>(b: &RingBuffer<'a, Word>)
    requires
        b.spec_read() == 0,
        b.spec_write() == 0,
    ensures
        b@.len() == 0,
        b@ == Seq::<Word>::empty(),
{
    assert(b@ =~= Seq::<Word>::empty());
}

} // verus!
