//! Fixed-capacity circular sample buffer with independent read and write
//! cursors. The read cursor can be re-seeked to a past offset relative to
//! the write cursor, which is how a freeze replays captured history.

use vstd::prelude::*;
use vstd::arithmetic::div_mod::{lemma_small_mod, lemma_mod_multiples_vanish};

verus! {

/// Mathematical view of a ring buffer: the stored samples and both cursors.
#[verifier::ext_equal]
pub ghost struct RingView {
    pub data: Seq<i32>,
    pub read_position: int,
    pub write_position: int,
}

impl RingView {
    pub open spec fn capacity(self) -> int {
        self.data.len() as int
    }

    pub open spec fn wf(self) -> bool {
        &&& self.data.len() >= 1
        &&& 0 <= self.read_position < self.data.len()
        &&& 0 <= self.write_position < self.data.len()
    }

    /// The buffer after one sample is written: the slot under the write
    /// cursor is overwritten and the write cursor advances by one, wrapping.
    pub open spec fn after_write(self, value: i32) -> RingView {
        RingView {
            data: self.data.update(self.write_position, value),
            write_position: (self.write_position + 1) % self.capacity(),
            ..self
        }
    }

    /// The sample currently under the read cursor.
    pub open spec fn read_sample(self) -> i32 {
        self.data[self.read_position]
    }

    /// The buffer after one sample is read: only the read cursor advances;
    /// the slot is not cleared.
    pub open spec fn after_read(self) -> RingView {
        RingView { read_position: (self.read_position + 1) % self.capacity(), ..self }
    }

    /// The buffer after re-seeking the read cursor `offset` samples behind
    /// the write cursor. An offset beyond the capacity is ignored.
    pub open spec fn after_seek(self, offset: int) -> RingView {
        if offset > self.capacity() {
            self
        } else {
            RingView {
                read_position: (self.write_position - offset + self.capacity()) % self.capacity(),
                ..self
            }
        }
    }
}

/// A fixed-capacity ring of samples; the capacity bounds how much history
/// can be replayed by a freeze.
pub struct Ringbuffer {
    data: Vec<i32>,
    read_position: usize,
    write_position: usize,
}

impl View for Ringbuffer {
    type V = RingView;

    closed spec fn view(&self) -> RingView {
        RingView {
            data: self.data@,
            read_position: self.read_position as int,
            write_position: self.write_position as int,
        }
    }
}

/// `a % m` written without the modulo, for a value less than one wrap.
proof fn lemma_mod_in_range(a: int, m: int)
    requires
        m >= 1,
        0 <= a < 2 * m,
    ensures
        a % m == if a < m { a } else { a - m },
{
    if a < m {
        lemma_small_mod(a as nat, m as nat);
    } else {
        lemma_mod_multiples_vanish(1, a - m, m);
        lemma_small_mod((a - m) as nat, m as nat);
    }
}

impl Ringbuffer {
    pub open spec fn wf(&self) -> bool {
        self@.wf()
    }

    /// A buffer of `len` zeroed samples with both cursors at the start.
    pub fn new(len: usize) -> (r: Ringbuffer)
        requires
            len >= 1,
        ensures
            r.wf(),
            r@.data == Seq::new(len as nat, |i: int| 0i32),
            r@.read_position == 0,
            r@.write_position == 0,
    {
        let data: Vec<i32> = vec![0i32; len];
        Ringbuffer { data, read_position: 0, write_position: 0 }
    }

    /// The number of samples the buffer can hold.
    pub fn capacity(&self) -> (r: usize)
        ensures
            r == self@.capacity(),
    {
        self.data.len()
    }

    /// Stores `value` at the write cursor and advances the cursor by one,
    /// wrapping at the capacity. Always succeeds.
    pub fn write(&mut self, value: i32)
        requires
            old(self).wf(),
        ensures
            final(self).wf(),
            final(self)@ == old(self)@.after_write(value),
    {
        let len: usize = self.data.len();
        self.data[self.write_position] = value;
        proof {
            lemma_mod_in_range(self.write_position + 1, len as int);
        }
        self.write_position = (self.write_position + 1) % len;
        proof {
            assert(self@ =~= old(self)@.after_write(value));
        }
    }

    /// Returns the sample at the read cursor and advances the cursor by
    /// one, wrapping at the capacity. The slot is not cleared.
    pub fn read(&mut self) -> (r: i32)
        requires
            old(self).wf(),
        ensures
            final(self).wf(),
            r == old(self)@.read_sample(),
            final(self)@ == old(self)@.after_read(),
    {
        let value: i32 = self.data[self.read_position];
        let len: usize = self.data.len();
        proof {
            lemma_mod_in_range(self.read_position + 1, len as int);
        }
        self.read_position = (self.read_position + 1) % len;
        proof {
            assert(self@ =~= old(self)@.after_read());
        }
        value
    }

    /// Seeks the read cursor to `offset` samples behind the write cursor,
    /// wrapping by the capacity; an offset beyond the capacity is ignored,
    /// so a seek never wraps past the buffered history.
    pub fn set_read_offset(&mut self, offset: usize)
        requires
            old(self).wf(),
        ensures
            final(self).wf(),
            final(self)@ == old(self)@.after_seek(offset as int),
    {
        let len: usize = self.data.len();
        if offset > len {
            return;
        }
        proof {
            lemma_mod_in_range(
                self.write_position - offset + len,
                len as int,
            );
        }
        if self.write_position >= offset {
            self.read_position = self.write_position - offset;
        } else {
            self.read_position = len - (offset - self.write_position);
        }
        proof {
            assert(self@ =~= old(self)@.after_seek(offset as int));
        }
    }
}

/// The buffer after the samples of `s` are written in order.
pub open spec fn view_after_writes(v: RingView, s: Seq<i32>) -> RingView
    decreases s.len(),
{
    if s.len() == 0 {
        v
    } else {
        view_after_writes(v, s.drop_last()).after_write(s.last())
    }
}

/// The samples produced by `n` consecutive reads.
pub open spec fn reads_from(v: RingView, n: nat) -> Seq<i32>
    decreases n,
{
    if n == 0 {
        Seq::empty()
    } else {
        seq![v.read_sample()] + reads_from(v.after_read(), (n - 1) as nat)
    }
}

/// Writing at most one capacity of samples lands them in consecutive
/// slots after the old write cursor, advances the write cursor by their
/// number, and leaves the read cursor alone.
pub proof fn lemma_writes_effect(v: RingView, s: Seq<i32>)
    requires
        v.wf(),
        s.len() <= v.capacity(),
    ensures
        ({
            let w = view_after_writes(v, s);
            &&& w.wf()
            &&& w.capacity() == v.capacity()
            &&& w.read_position == v.read_position
            &&& w.write_position == (v.write_position + s.len()) % v.capacity()
            &&& forall|i: int|
                0 <= i < s.len() ==> w.data[(v.write_position + i) % v.capacity()] == s[i]
        }),
    decreases s.len(),
{
    let cap = v.capacity();
    if s.len() == 0 {
        lemma_small_mod(v.write_position as nat, cap as nat);
    } else {
        lemma_writes_effect(v, s.drop_last());
        let v1 = view_after_writes(v, s.drop_last());
        let w = view_after_writes(v, s);
        let last_slot = (v.write_position + s.len() - 1) % cap;
        lemma_mod_in_range(v.write_position + s.len() - 1, cap);
        lemma_mod_in_range(v.write_position + s.len(), cap);
        assert(w.write_position == (v.write_position + s.len()) % cap) by {
            lemma_mod_in_range(last_slot + 1, cap);
        }
        assert forall|i: int|
            0 <= i < s.len() implies w.data[(v.write_position + i) % cap] == s[i] by {
            lemma_mod_in_range(v.write_position + i, cap);
            if i < s.len() - 1 {
                assert((v.write_position + i) % cap != last_slot);
                assert(w.data[(v.write_position + i) % cap] == s.drop_last()[i]);
            }
        }
    }
}

/// Consecutive reads walk the slots after the read cursor in order and
/// change nothing but the read cursor.
pub proof fn lemma_reads_effect(v: RingView, n: nat)
    requires
        v.wf(),
        n <= v.capacity(),
    ensures
        reads_from(v, n).len() == n,
        forall|i: int|
            0 <= i < n ==> reads_from(v, n)[i] == v.data[(v.read_position + i) % v.capacity()],
    decreases n,
{
    let cap = v.capacity();
    if n > 0 {
        let v1 = v.after_read();
        lemma_mod_in_range(v.read_position + 1, cap);
        lemma_reads_effect(v1, (n - 1) as nat);
        lemma_small_mod(v.read_position as nat, cap as nat);
        assert forall|i: int|
            0 <= i < n implies reads_from(v, n)[i] == v.data[(v.read_position + i) % cap] by {
            if i >= 1 {
                assert(reads_from(v, n)[i] == reads_from(v1, (n - 1) as nat)[i - 1]);
                lemma_mod_in_range(v.read_position + i, cap);
                if v.read_position + 1 < cap {
                    lemma_mod_in_range(v1.read_position + (i - 1), cap);
                } else {
                    lemma_mod_in_range(i - 1, cap);
                    lemma_mod_multiples_vanish(1, i - 1, cap);
                    lemma_small_mod((i - 1) as nat, cap as nat);
                }
            }
        }
    }
}

/// Round trip: with the read cursor at the write cursor, writing one full
/// capacity of samples and then reading a full capacity returns exactly
/// those samples, in write order.
pub proof fn lemma_ring_round_trip(v: RingView, s: Seq<i32>)
    requires
        v.wf(),
        v.read_position == v.write_position,
        s.len() == v.capacity(),
    ensures
        reads_from(view_after_writes(v, s), s.len()) == s,
{
    lemma_writes_effect(v, s);
    let w = view_after_writes(v, s);
    lemma_reads_effect(w, s.len());
    assert(reads_from(w, s.len()) =~= s);
}

/// Seeking `k` samples behind the write cursor, for `1 <= k <= capacity`,
/// puts the read cursor on the sample written `k` positions before the
/// current write cursor.
pub proof fn lemma_seek_reads_history(v: RingView, s: Seq<i32>, k: int)
    requires
        v.wf(),
        s.len() == v.capacity(),
        1 <= k <= v.capacity(),
    ensures
        view_after_writes(v, s).after_seek(k).read_sample() == s[s.len() - k],
{
    let cap = v.capacity();
    lemma_writes_effect(v, s);
    let w = view_after_writes(v, s);
    lemma_mod_multiples_vanish(1, v.write_position, cap);
    lemma_small_mod(v.write_position as nat, cap as nat);
    assert(w.write_position == v.write_position);
    assert(w.after_seek(k).read_position == (v.write_position + (cap - k)) % cap);
    assert(w.data[(v.write_position + (cap - k)) % cap] == s[cap - k]);
}

} // verus!
