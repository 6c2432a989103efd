//! Byte buffers with a read and a write position.

use vstd::prelude::*;

verus! {

/// `s` with the bytes from `at` on replaced by `data`.
pub open spec fn overwritten(s: Seq<u8>, at: int, data: Seq<u8>) -> Seq<u8> {
    s.take(at) + data + s.skip(at + data.len())
}

/// Replaces the bytes of `dst` from `at` on by `data`.
fn overwrite(dst: &mut [u8], at: usize, data: &[u8])
    requires
        at + data@.len() <= old(dst)@.len(),
    ensures
        final(dst)@ == overwritten(old(dst)@, at as int, data@),
{
    let len: usize = dst.len();
    let mut i: usize = 0;
    while i < data.len()
        invariant
            i <= data@.len(),
            at + data@.len() <= len,
            len == old(dst)@.len(),
            dst@ == overwritten(old(dst)@, at as int, data@.take(i as int)),
        decreases data@.len() - i,
    {
        let ghost before = dst@;
        dst[at + i] = data[i];
        i = i + 1;
        proof {
            assert(data@.take(i as int) =~= data@.take(i - 1).push(data@[i - 1]));
            assert(dst@ =~= overwritten(old(dst)@, at as int, data@.take(i as int)));
        }
    }
    proof {
        assert(data@.take(i as int) =~= data@);
    }
}

/// The smaller one of two numbers.
pub open spec fn min(a: int, b: int) -> int {
    if a < b {
        a
    } else {
        b
    }
}

/// The smaller one of two lengths.
pub fn min_len(a: usize, b: usize) -> (ret: usize)
    ensures
        ret == min(a as int, b as int),
{
    if a < b {
        a
    } else {
        b
    }
}

/// A buffer of a fixed capacity. Data gets written behind the unread bytes, and the unread bytes
/// are moved to the begin of the buffer whenever room is needed.
#[derive(Debug)]
pub struct Buffer {
    inner: Vec<u8>,
    write_pointer: usize,
    read_pointer: usize,
}

impl View for Buffer {
    type V = Seq<u8>;

    /// The bytes which were written but not read yet.
    open spec fn view(&self) -> Seq<u8> {
        self.storage().subrange(self.read_pos() as int, self.write_pos() as int)
    }
}

impl Default for Buffer {
    fn default() -> (buffer: Self)
        ensures
            buffer.is_new(Seq::new(4096, |_i: int| 0)),
    {
        Self::with_capacity(Self::DEFAULT_CAPACITY)
    }
}

impl From<Vec<u8>> for Buffer {
    /// A buffer which is full of unread bytes.
    fn from(buf: Vec<u8>) -> (buffer: Self)
        ensures
            buffer.wf(),
            buffer.storage() == buf@,
            buffer.read_pos() == 0,
            buffer.write_pos() == buf@.len(),
            buffer@ == buf@,
    {
        let write_pointer: usize = buf.len();
        let buffer = Buffer { inner: buf, write_pointer, read_pointer: 0 };
        proof {
            assert(buffer@ =~= buf@);
        }

        buffer
    }
}

impl vstd::std_specs::convert::FromSpecImpl<Vec<u8>> for Buffer {
    open spec fn obeys_from_spec() -> bool {
        false
    }

    open spec fn from_spec(_buf: Vec<u8>) -> Self {
        arbitrary()
    }
}

impl Buffer {
    /// The capacity of a buffer for which no other capacity is asked.
    pub const DEFAULT_CAPACITY: usize = 4096;

    /// All bytes of the buffer, whether they are in use or not.
    pub closed spec fn storage(&self) -> Seq<u8> {
        self.inner@
    }

    /// Where the next byte is read.
    pub closed spec fn read_pos(&self) -> usize {
        self.read_pointer
    }

    /// Where the next byte is written.
    pub closed spec fn write_pos(&self) -> usize {
        self.write_pointer
    }

    /// The positions are in order and inside of the buffer.
    pub open spec fn wf(&self) -> bool {
        self.read_pos() <= self.write_pos() <= self.storage().len()
    }

    /// How many bytes can be written.
    pub open spec fn room(&self) -> int {
        self.storage().len() - self@.len()
    }

    /// An empty buffer over the given bytes.
    pub open spec fn is_new(&self, storage: Seq<u8>) -> bool {
        &&& self.wf()
        &&& self.storage() == storage
        &&& self.read_pos() == 0
        &&& self.write_pos() == 0
        &&& self@ == Seq::<u8>::empty()
    }

    /// The bytes of the buffer after its unread bytes got moved to the begin.
    pub open spec fn rotated_storage(&self) -> Seq<u8> {
        if self.read_pos() == 0 || self.read_pos() >= self.write_pos() {
            self.storage()
        } else {
            overwritten(self.storage(), 0, self@)
        }
    }

    /// A buffer with the default capacity.
    pub fn new() -> (buffer: Self)
        ensures
            buffer.is_new(Seq::new(4096, |_i: int| 0)),
    {
        Self::default()
    }

    /// A buffer which can hold `capacity` bytes.
    pub fn with_capacity(capacity: usize) -> (buffer: Self)
        ensures
            buffer.is_new(Seq::new(capacity as nat, |_i: int| 0)),
    {
        let inner: Vec<u8> = vec![0u8; capacity];
        let buffer = Buffer { inner, write_pointer: 0, read_pointer: 0 };
        proof {
            assert(buffer.storage() =~= Seq::new(capacity as nat, |_i: int| 0u8));
            assert(buffer@ =~= Seq::empty());
        }

        buffer
    }

    /// Empties the buffer and changes how many bytes it can hold.
    pub fn set_capacity(&mut self, capacity: usize)
        ensures
            final(self).is_new(
                if old(self).storage().len() == capacity {
                    old(self).storage()
                } else {
                    Seq::new(capacity as nat, |_i: int| 0)
                },
            ),
    {
        if capacity != self.inner.len() {
            self.inner = vec![0u8; capacity];
            proof {
                assert(self.storage() =~= Seq::new(capacity as nat, |_i: int| 0u8));
            }
        }
        self.reset()
    }

    /// The bytes of the buffer, whether they are in use or not.
    pub fn into_inner(self) -> (inner: Vec<u8>)
        ensures
            inner@ == self.storage(),
    {
        self.inner
    }

    /// Empties the buffer.
    pub fn reset(&mut self)
        ensures
            final(self).is_new(old(self).storage()),
    {
        self.write_pointer = 0;
        self.read_pointer = 0;
        proof {
            assert(self@ =~= Seq::empty());
        }
    }

    /// Sets all bytes of the buffer to zero, so that nothing of its data is left in memory.
    pub fn wipe(&mut self)
        ensures
            final(self).storage() == Seq::new(old(self).storage().len(), |_i: int| 0u8),
            final(self).read_pos() == old(self).read_pos(),
            final(self).write_pos() == old(self).write_pos(),
    {
        let len: usize = self.inner.len();
        let mut i: usize = 0;
        while i < len
            invariant
                i <= len,
                len == self.inner@.len(),
                len == old(self).inner@.len(),
                self.read_pointer == old(self).read_pointer,
                self.write_pointer == old(self).write_pointer,
                forall|j: int| 0 <= j < i ==> self.inner@[j] == 0,
            decreases len - i,
        {
            self.inner[i] = 0;
            i = i + 1;
        }
        proof {
            assert(self.storage() =~= Seq::new(old(self).storage().len(), |_i: int| 0u8));
        }
    }

    /// The bytes of the buffer, whether they are in use or not.
    pub fn inner(&self) -> (inner: &Vec<u8>)
        ensures
            inner@ == self.storage(),
    {
        &self.inner
    }

    /// Grants access to all bytes of the buffer. The positions stay as they are.
    pub fn inner_mut(&mut self) -> (inner: &mut Vec<u8>)
        ensures
            inner@ == old(self).storage(),
            final(self).storage() == final(inner)@,
            final(self).read_pos() == old(self).read_pos(),
            final(self).write_pos() == old(self).write_pos(),
    {
        &mut self.inner
    }

    /// The unread bytes.
    pub fn as_ref(&self) -> (unread: &[u8])
        requires
            self.wf(),
        ensures
            unread@ == self@,
    {
        vstd::slice::slice_subrange(self.inner.as_slice(), self.read_pointer, self.write_pointer)
    }

    /// The room behind the unread bytes, which get moved to the begin of the buffer first.
    /// What was put there becomes readable with [`Self::progress_write`].
    pub fn as_mut(&mut self) -> (tail: &mut [u8])
        requires
            old(self).wf(),
        ensures
            tail@ == old(self).rotated_storage().skip(old(self)@.len() as int),
            final(tail)@.len() == tail@.len() ==> final(self).wf(),
            final(self).storage() == old(self).rotated_storage().take(old(self)@.len() as int)
                + final(tail)@,
            final(self).read_pos() == 0,
            final(self).write_pos() == old(self)@.len(),
            final(self)@ == old(self)@,
    {
        self.rotate_buffer();
        let ghost rotated = *self;
        let begin: usize = self.write_pointer;
        let (_front, tail) = self.inner.as_mut_slice().split_at_mut(begin);
        proof {
            assert(rotated.storage().take(begin as int) =~= rotated@);
            assert forall|t: Seq<u8>|
                #![trigger rotated.storage().take(begin as int) + t]
                (rotated.storage().take(begin as int) + t).subrange(0, begin as int) == old(
                    self,
                )@ by {
                assert((rotated.storage().take(begin as int) + t).subrange(0, begin as int)
                    =~= rotated@);
            }
        }

        tail
    }

    /// Moves the unread bytes to the begin of the buffer.
    pub fn rotate_buffer(&mut self)
        requires
            old(self).wf(),
        ensures
            final(self).wf(),
            final(self).storage() == old(self).rotated_storage(),
            final(self).storage().len() == old(self).storage().len(),
            final(self).read_pos() == 0,
            final(self).write_pos() == old(self)@.len(),
            final(self)@ == old(self)@,
    {
        // If there are no read bytes we can abort early.
        if self.read_pointer == 0 {
            return ;
        }
        // If there are no unread bytes we can simply empty the buffer.
        if self.read_pointer >= self.write_pointer {
            self.read_pointer = 0;
            self.write_pointer = 0;
            proof {
                assert(self@ =~= old(self)@);
            }
            return ;
        }
        // Perform the rotation and update the pointers accordingly.
        let begin: usize = self.read_pointer;
        let len: usize = self.write_pointer - self.read_pointer;
        let mut i: usize = 0;
        while i < len
            invariant
                i <= len,
                0 < begin,
                begin + len <= old(self).inner@.len(),
                begin == old(self).read_pointer,
                begin + len == old(self).write_pointer,
                self.inner@.len() == old(self).inner@.len(),
                forall|j: int| 0 <= j < i ==> self.inner@[j] == old(self).inner@[begin + j],
                forall|j: int| i <= j < self.inner@.len() ==> self.inner@[j] == old(self).inner@[j],
            decreases len - i,
        {
            self.inner[i] = self.inner[begin + i];
            i = i + 1;
        }
        self.write_pointer = len;
        self.read_pointer = 0;
        proof {
            assert(self@ =~= old(self)@);
            assert(self.storage() =~= old(self).rotated_storage());
        }
    }

    /// Marks up to `amount` unread bytes as read.
    pub fn progress(&mut self, amount: usize)
        requires
            old(self).wf(),
            old(self).read_pos() + amount <= usize::MAX,
        ensures
            final(self).wf(),
            final(self).storage() == old(self).storage(),
            final(self).write_pos() == old(self).write_pos(),
            final(self).read_pos() == old(self).read_pos() + min(
                amount as int,
                old(self)@.len() as int,
            ),
            final(self)@ == old(self)@.skip(min(amount as int, old(self)@.len() as int)),
    {
        let new_read_pointer: usize = self.read_pointer + amount;
        if new_read_pointer > self.write_pointer {
            self.read_pointer = self.write_pointer;
        } else {
            self.read_pointer = new_read_pointer;
        }
        proof {
            assert(self@ =~= old(self)@.skip(min(amount as int, old(self)@.len() as int)));
        }
    }

    /// Makes up to `amount` bytes behind the write position readable.
    pub fn progress_write(&mut self, amount: usize)
        requires
            old(self).wf(),
            old(self).write_pos() + amount <= usize::MAX,
        ensures
            final(self).wf(),
            final(self).storage() == old(self).storage(),
            final(self).read_pos() == old(self).read_pos(),
            final(self).write_pos() == min(
                old(self).write_pos() + amount,
                old(self).storage().len() as int,
            ),
            final(self)@ == old(self)@ + old(self).storage().subrange(
                old(self).write_pos() as int,
                final(self).write_pos() as int,
            ),
    {
        let new_write_pointer: usize = self.write_pointer + amount;
        if new_write_pointer > self.inner.len() {
            self.write_pointer = self.inner.len();
        } else {
            self.write_pointer = new_write_pointer;
        }
        proof {
            assert(self@ =~= old(self)@ + old(self).storage().subrange(
                old(self).write_pos() as int,
                self.write_pos() as int,
            ));
        }
    }

    /// How many bytes can be read.
    pub fn available_for_read(&self) -> (len: usize)
        requires
            self.wf(),
        ensures
            len == self@.len(),
    {
        self.write_pointer - self.read_pointer
    }

    /// How many bytes can be written.
    pub fn available_for_write(&self) -> (len: usize)
        requires
            self.wf(),
        ensures
            len == self.room(),
    {
        self.inner.len() - self.write_pointer + self.read_pointer
    }

    /// Reads as many bytes as there are and as fit in `buf`.
    pub fn read(&mut self, buf: &mut [u8]) -> (amount: usize)
        requires
            old(self).wf(),
        ensures
            amount == min(old(self)@.len() as int, old(buf)@.len() as int),
            final(buf)@ == overwritten(old(buf)@, 0, old(self)@.take(amount as int)),
            final(self).wf(),
            final(self).storage() == old(self).storage(),
            final(self).read_pos() == old(self).read_pos() + amount,
            final(self).write_pos() == old(self).write_pos(),
            final(self)@ == old(self)@.skip(amount as int),
    {
        let available: usize = self.available_for_read();
        let amount: usize = min_len(available, buf.len());
        let begin: usize = self.read_pointer;
        let data: &[u8] = vstd::slice::slice_subrange(self.inner.as_slice(), begin, begin + amount);
        proof {
            assert(data@ =~= old(self)@.take(amount as int));
        }
        overwrite(buf, 0, data);
        self.read_pointer = self.read_pointer + amount;
        proof {
            assert(self@ =~= old(self)@.skip(amount as int));
        }

        amount
    }

    /// Writes as many bytes of `buf` as there is room for.
    pub fn write(&mut self, buf: &[u8]) -> (amount: usize)
        requires
            old(self).wf(),
        ensures
            amount == min(old(self).room(), buf@.len() as int),
            final(self).wf(),
            final(self).storage() == overwritten(
                old(self).rotated_storage(),
                old(self)@.len() as int,
                buf@.take(amount as int),
            ),
            final(self).storage().len() == old(self).storage().len(),
            final(self).read_pos() == 0,
            final(self)@ == old(self)@ + buf@.take(amount as int),
    {
        self.rotate_buffer();
        let ghost rotated = *self;
        let available: usize = self.available_for_write();
        let amount: usize = min_len(available, buf.len());
        let begin: usize = self.write_pointer;
        let len: usize = self.inner.len();
        let data: &[u8] = vstd::slice::slice_subrange(buf, 0, amount);
        proof {
            assert(data@ =~= buf@.take(amount as int));
            assert(begin + amount <= len);
        }
        overwrite(self.inner.as_mut_slice(), begin, data);
        self.write_pointer = begin + amount;
        proof {
            assert(self@ =~= rotated@ + buf@.take(amount as int));
        }

        amount
    }
}

/// What is written is what is read: writing `data` into an empty buffer with enough room and then
/// reading into a place of the same length gives `data` back and leaves the buffer empty. Two
/// writes are read in the order in which they were written.
pub proof fn law_buffer_write_read(unread: Seq<u8>, data: Seq<u8>, place: Seq<u8>)
    requires
        place.len() == unread.len() + data.len(),
    ensures
        overwritten(place, 0, (unread + data).take(place.len() as int)) == unread + data,
        (unread + data).skip(place.len() as int) == Seq::<u8>::empty(),
{
    assert((unread + data).take(place.len() as int) =~= unread + data);
    assert(overwritten(place, 0, unread + data) =~= unread + data);
    assert((unread + data).skip(place.len() as int) =~= Seq::empty());
}

/// A buffer which wraps around at its end. A ring whose positions meet counts as empty.
#[derive(Debug)]
pub struct RingBuffer {
    inner: Vec<u8>,
    write_pointer: usize,
    read_pointer: usize,
}

impl View for RingBuffer {
    type V = Seq<u8>;

    /// The bytes which were written but not read yet.
    open spec fn view(&self) -> Seq<u8> {
        let storage = self.storage();
        let read = self.read_pos() as int;
        let write = self.write_pos() as int;
        if write >= read {
            storage.subrange(read, write)
        } else {
            storage.skip(read) + storage.take(write)
        }
    }
}

impl From<Vec<u8>> for RingBuffer {
    /// An empty ring over the given bytes.
    fn from(buf: Vec<u8>) -> (ring: Self)
        ensures
            ring.is_new(buf@),
    {
        let ring = RingBuffer { inner: buf, write_pointer: 0, read_pointer: 0 };
        proof {
            assert(ring@ =~= Seq::empty());
        }

        ring
    }
}

impl vstd::std_specs::convert::FromSpecImpl<Vec<u8>> for RingBuffer {
    open spec fn obeys_from_spec() -> bool {
        false
    }

    open spec fn from_spec(_buf: Vec<u8>) -> Self {
        arbitrary()
    }
}

/// Where a position ends up after moving it by `amount` in a ring of the given length.
pub open spec fn moved(position: int, amount: int, len: int) -> int {
    (position + amount) % len
}

/// Moves a position in a ring forward.
fn move_position(position: usize, amount: usize, len: usize) -> (ret: usize)
    requires
        position < len,
    ensures
        ret == moved(position as int, amount as int, len as int),
        ret < len,
        position + amount < len ==> ret == position + amount,
        len <= position + amount < 2 * len ==> ret == position + amount - len,
{
    let rest: usize = len - position;
    proof {
        let end = position + amount;
        if end < len {
            vstd::arithmetic::div_mod::lemma_small_mod(end as nat, len as nat);
        } else {
            vstd::arithmetic::div_mod::lemma_mod_sub_multiples_vanish(end, len as int);
            if end < 2 * len {
                vstd::arithmetic::div_mod::lemma_small_mod((end - len) as nat, len as nat);
            }
        }
    }
    if amount < rest {
        position + amount
    } else {
        (amount - rest) % len
    }
}

impl RingBuffer {
    /// All bytes of the ring, whether they are in use or not.
    pub closed spec fn storage(&self) -> Seq<u8> {
        self.inner@
    }

    /// Where the next byte is read.
    pub closed spec fn read_pos(&self) -> usize {
        self.read_pointer
    }

    /// Where the next byte is written.
    pub closed spec fn write_pos(&self) -> usize {
        self.write_pointer
    }

    /// The positions are inside of the ring.
    pub open spec fn wf(&self) -> bool {
        if self.storage().len() == 0 {
            self.read_pos() == 0 && self.write_pos() == 0
        } else {
            self.read_pos() < self.storage().len() && self.write_pos() < self.storage().len()
        }
    }

    /// An empty ring over the given bytes.
    pub open spec fn is_new(&self, storage: Seq<u8>) -> bool {
        &&& self.wf()
        &&& self.storage() == storage
        &&& self.read_pos() == 0
        &&& self.write_pos() == 0
        &&& self@ == Seq::<u8>::empty()
    }

    /// How many bytes can be read without wrapping around.
    pub open spec fn unbroken(&self) -> int {
        if self.write_pos() >= self.read_pos() {
            self.write_pos() - self.read_pos()
        } else {
            self.storage().len() - self.read_pos()
        }
    }

    /// How many bytes can be written without wrapping around.
    pub open spec fn unbroken_room(&self) -> int {
        if self.write_pos() >= self.read_pos() {
            self.storage().len() - self.write_pos()
        } else {
            self.read_pos() - self.write_pos()
        }
    }

    /// A ring of the given length.
    pub fn with_len(len: usize) -> (ring: Self)
        ensures
            ring.is_new(Seq::new(len as nat, |_i: int| 0)),
    {
        let inner: Vec<u8> = vec![0u8; len];
        let ring = RingBuffer { inner, write_pointer: 0, read_pointer: 0 };
        proof {
            assert(ring.storage() =~= Seq::new(len as nat, |_i: int| 0u8));
            assert(ring@ =~= Seq::empty());
        }

        ring
    }

    /// Changes the length of the ring and empties it.
    pub fn resize(&mut self, len: usize)
        ensures
            final(self).is_new(
                Seq::new(
                    len as nat,
                    |i: int|
                        if i < old(self).storage().len() {
                            old(self).storage()[i]
                        } else {
                            0
                        },
                ),
            ),
    {
        self.inner.resize(len, 0u8);
        proof {
            assert(self.storage() =~= Seq::new(
                len as nat,
                |i: int|
                    if i < old(self).storage().len() {
                        old(self).storage()[i]
                    } else {
                        0u8
                    },
            ));
        }
        self.reset()
    }

    /// The bytes of the ring, whether they are in use or not.
    pub fn into_inner(self) -> (inner: Vec<u8>)
        ensures
            inner@ == self.storage(),
    {
        self.inner
    }

    /// The bytes of the ring, whether they are in use or not.
    pub fn inner(&self) -> (inner: &Vec<u8>)
        ensures
            inner@ == self.storage(),
    {
        &self.inner
    }

    /// Walks over the unread bytes.
    pub fn iter(&self) -> (iter: Iter<'_>)
        requires
            self.wf(),
        ensures
            iter.wf(),
            iter.remaining() == self@,
    {
        Iter::new(self)
    }

    /// The part of the ring from the unread byte `begin` up to the unread byte `end`.
    pub fn get_slice(&self, begin: usize, end: usize) -> (slice: RingBufferSlice<'_>)
        requires
            begin < self.storage().len(),
            end <= self.storage().len(),
        ensures
            slice.ring() == *self,
            slice.first() == begin,
            slice.limit() == end,
    {
        RingBufferSlice::new(self, begin, end)
    }

    /// Empties the ring.
    pub fn reset(&mut self)
        ensures
            final(self).is_new(old(self).storage()),
    {
        self.write_pointer = 0;
        self.read_pointer = 0;
        proof {
            assert(self@ =~= Seq::empty());
        }
    }

    /// The unread byte with the given index.
    pub fn get(&self, idx: usize) -> (byte: Option<&u8>)
        requires
            self.wf(),
        ensures
            byte == if idx < self@.len() {
                Some(&self@[idx as int])
            } else {
                None
            },
    {
        let idx: usize = if self.write_pointer >= self.read_pointer {
            if idx >= self.write_pointer - self.read_pointer {
                return None;
            }
            self.read_pointer + idx
        } else {
            let available1: usize = self.inner.len() - self.read_pointer;
            if available1 > idx {
                self.read_pointer + idx
            } else if self.write_pointer > idx - available1 {
                idx - available1
            } else {
                return None;
            }
        };

        Some(&self.inner[idx])
    }

    /// The unread byte with the given index, which has to exist.
    pub fn index(&self, idx: usize) -> (byte: &u8)
        requires
            self.wf(),
            idx < self@.len(),
        ensures
            *byte == self@[idx as int],
    {
        self.get(idx).unwrap()
    }

    /// How many unread bytes there are.
    pub fn len(&self) -> (len: usize)
        requires
            self.wf(),
        ensures
            len == self@.len(),
    {
        self.available_for_read()
    }

    /// The same as [`Self::get_slice`].
    pub fn slice(&self, begin: usize, end: usize) -> (slice: RingBufferSlice<'_>)
        requires
            begin < self.storage().len(),
            end <= self.storage().len(),
        ensures
            slice.ring() == *self,
            slice.first() == begin,
            slice.limit() == end,
    {
        self.get_slice(begin, end)
    }

    /// Copies all unread bytes.
    pub fn to_vec(&self) -> (store: Vec<u8>)
        requires
            self.wf(),
        ensures
            store@ == self@,
    {
        if self.write_pointer >= self.read_pointer {
            vstd::slice::slice_to_vec(
                vstd::slice::slice_subrange(
                    self.inner.as_slice(),
                    self.read_pointer,
                    self.write_pointer,
                ),
            )
        } else {
            let mut store: Vec<u8> = vstd::slice::slice_to_vec(
                vstd::slice::slice_subrange(
                    self.inner.as_slice(),
                    self.read_pointer,
                    self.inner.len(),
                ),
            );
            store.extend_from_slice(
                vstd::slice::slice_subrange(self.inner.as_slice(), 0, self.write_pointer),
            );
            proof {
                assert(store@ =~= self@);
            }

            store
        }
    }

    /// Reads the unread bytes up to the place where the ring wraps around.
    fn write_to_buf(&mut self, buf: &mut [u8]) -> (amount: usize)
        requires
            old(self).wf(),
            old(self).storage().len() > 0,
        ensures
            amount == min(old(self).unbroken(), old(buf)@.len() as int),
            final(buf)@ == overwritten(old(buf)@, 0, old(self)@.take(amount as int)),
            final(self).wf(),
            final(self).storage() == old(self).storage(),
            final(self).write_pos() == old(self).write_pos(),
            final(self).read_pos() == moved(
                old(self).read_pos() as int,
                amount as int,
                old(self).storage().len() as int,
            ),
            final(self)@ == old(self)@.skip(amount as int),
    {
        let available: usize = if self.write_pointer >= self.read_pointer {
            self.write_pointer - self.read_pointer
        } else {
            self.inner.len() - self.read_pointer
        };
        let amount: usize = min_len(available, buf.len());
        let begin: usize = self.read_pointer;
        let data: &[u8] = vstd::slice::slice_subrange(self.inner.as_slice(), begin, begin + amount);
        proof {
            assert(data@ =~= old(self)@.take(amount as int));
        }
        overwrite(buf, 0, data);
        self.progress_read(amount);

        amount
    }

    /// Puts as much of `buf` in the room behind the write position as fits without wrapping
    /// around. The write position does not move.
    fn write_from_buf(&mut self, buf: &[u8]) -> (amount: usize)
        requires
            old(self).wf(),
        ensures
            amount == min(old(self).unbroken_room(), buf@.len() as int),
            final(self).wf(),
            final(self).storage() == overwritten(
                old(self).storage(),
                old(self).write_pos() as int,
                buf@.take(amount as int),
            ),
            final(self).storage().len() == old(self).storage().len(),
            final(self).write_pos() == old(self).write_pos(),
            final(self).read_pos() == old(self).read_pos(),
            final(self)@ == old(self)@,
    {
        let room: usize = if self.write_pointer >= self.read_pointer {
            self.inner.len() - self.write_pointer
        } else {
            self.read_pointer - self.write_pointer
        };
        let amount: usize = min_len(room, buf.len());
        let begin: usize = self.write_pointer;
        let data: &[u8] = vstd::slice::slice_subrange(buf, 0, amount);
        proof {
            assert(data@ =~= buf@.take(amount as int));
        }
        overwrite(self.inner.as_mut_slice(), begin, data);
        proof {
            assert(self@ =~= old(self)@);
        }

        amount
    }

    /// The room behind the write position up to the place where the ring wraps around.
    /// What was put there becomes readable with [`Self::progress_write`].
    pub fn get_write_buf(&mut self) -> (room: &mut [u8])
        requires
            old(self).wf(),
        ensures
            room@ == old(self).storage().subrange(
                old(self).write_pos() as int,
                old(self).write_pos() + old(self).unbroken_room(),
            ),
            final(self).storage() == old(self).storage().take(old(self).write_pos() as int)
                + final(room)@ + old(self).storage().skip(
                old(self).write_pos() + old(self).unbroken_room(),
            ),
            final(self).read_pos() == old(self).read_pos(),
            final(self).write_pos() == old(self).write_pos(),
    {
        let begin: usize = self.write_pointer;
        let len: usize = if self.write_pointer >= self.read_pointer {
            self.inner.len() - begin
        } else {
            self.read_pointer - begin
        };
        let (_front, tail) = self.inner.as_mut_slice().split_at_mut(begin);
        let (room, _back) = tail.split_at_mut(len);

        room
    }

    /// Marks `amount` bytes as read.
    pub fn progress_read(&mut self, amount: usize)
        requires
            old(self).wf(),
            old(self).storage().len() > 0,
        ensures
            final(self).wf(),
            final(self).storage() == old(self).storage(),
            final(self).write_pos() == old(self).write_pos(),
            final(self).read_pos() == moved(
                old(self).read_pos() as int,
                amount as int,
                old(self).storage().len() as int,
            ),
            amount <= old(self)@.len() ==> final(self)@ == old(self)@.skip(amount as int),
    {
        self.read_pointer = move_position(self.read_pointer, amount, self.inner.len());
        proof {
            if amount <= old(self)@.len() {
                assert(self@ =~= old(self)@.skip(amount as int));
            }
        }
    }

    /// Makes `amount` bytes behind the write position readable.
    pub fn progress_write(&mut self, amount: usize)
        requires
            old(self).wf(),
            old(self).storage().len() > 0,
        ensures
            final(self).wf(),
            final(self).storage() == old(self).storage(),
            final(self).read_pos() == old(self).read_pos(),
            final(self).write_pos() == moved(
                old(self).write_pos() as int,
                amount as int,
                old(self).storage().len() as int,
            ),
            amount <= old(self).unbroken_room() && amount + old(self)@.len() < old(
                self,
            ).storage().len() ==> final(self)@ == old(self)@ + old(self).storage().subrange(
                old(self).write_pos() as int,
                old(self).write_pos() + amount,
            ),
    {
        self.write_pointer = move_position(self.write_pointer, amount, self.inner.len());
        proof {
            let len = self.inner@.len() as int;
            if amount <= old(self).unbroken_room() && amount + old(self)@.len() < len {
                assert(self@ =~= old(self)@ + old(self).storage().subrange(
                    old(self).write_pos() as int,
                    old(self).write_pos() + amount,
                ));
            }
        }
    }

    /// How many bytes can be read.
    pub fn available_for_read(&self) -> (len: usize)
        requires
            self.wf(),
        ensures
            len == self@.len(),
    {
        if self.write_pointer >= self.read_pointer {
            self.write_pointer - self.read_pointer
        } else {
            self.inner.len() - self.read_pointer + self.write_pointer
        }
    }

    /// How many bytes of the ring are not in use.
    pub fn available_for_write(&self) -> (len: usize)
        requires
            self.wf(),
        ensures
            len == self.storage().len() - self@.len(),
    {
        if self.write_pointer >= self.read_pointer {
            self.inner.len() - self.write_pointer + self.read_pointer
        } else {
            self.read_pointer - self.write_pointer
        }
    }

    /// Reads as many bytes as there are and as fit in `buf`.
    pub fn read(&mut self, buf: &mut [u8]) -> (amount: usize)
        requires
            old(self).wf(),
            old(self).storage().len() > 0,
        ensures
            amount == min(old(self)@.len() as int, old(buf)@.len() as int),
            final(buf)@ == overwritten(old(buf)@, 0, old(self)@.take(amount as int)),
            final(self).wf(),
            final(self).storage() == old(self).storage(),
            final(self).write_pos() == old(self).write_pos(),
            final(self)@ == old(self)@.skip(amount as int),
    {
        let first: usize = self.write_to_buf(buf);
        let ghost middle = buf@;
        let mut total: usize = first;
        proof {
            let len = self.inner@.len() as int;
            let end = old(self).read_pointer + first;
            if end < len {
                vstd::arithmetic::div_mod::lemma_small_mod(end as nat, len as nat);
            } else {
                vstd::arithmetic::div_mod::lemma_mod_self_0(len);
            }
        }
        if first > 0 && buf.len() > first {
            let (_front, tail) = buf.split_at_mut(first);
            let second: usize = self.write_to_buf(tail);
            total = total + second;
        }
        proof {
            assert(self@ =~= old(self)@.skip(total as int));
            assert(buf@ =~= overwritten(old(buf)@, 0, old(self)@.take(total as int)));
        }

        total
    }

    /// Puts `buf` in the room behind the write position. Neither the write position nor the unread
    /// bytes change. A part of `buf` which does not fit in the room is put there in a second go,
    /// over the first part.
    pub fn write(&mut self, buf: &[u8]) -> (amount: usize)
        requires
            old(self).wf(),
        ensures
            ({
                let room = old(self).unbroken_room();
                let at = old(self).write_pos() as int;
                let first = min(room, buf@.len() as int);
                let second = min(room, buf@.len() - first);
                &&& amount == first + second
                &&& final(self).storage() == overwritten(
                    overwritten(old(self).storage(), at, buf@.take(first)),
                    at,
                    buf@.subrange(first, first + second),
                )
            }),
            final(self).wf(),
            final(self).storage().len() == old(self).storage().len(),
            final(self).write_pos() == old(self).write_pos(),
            final(self).read_pos() == old(self).read_pos(),
            final(self)@ == old(self)@,
    {
        let first: usize = self.write_from_buf(buf);
        let ghost middle = self.storage();
        let mut total: usize = first;
        if first > 0 && buf.len() > first {
            let rest: &[u8] = vstd::slice::slice_subrange(buf, first, buf.len());
            let second: usize = self.write_from_buf(rest);
            proof {
                assert(rest@.take(second as int) =~= buf@.subrange(first as int, first + second));
            }
            total = total + second;
        } else {
            proof {
                assert(buf@.subrange(first as int, first as int) =~= Seq::empty());
                assert(overwritten(middle, self.write_pos() as int, Seq::empty()) =~= middle);
            }
        }

        total
    }
}

/// Bytes which were put in the room of a ring and made readable come out behind the bytes which
/// were unread before, as long as the ring does not become full.
pub proof fn law_ring_read_back(unread: Seq<u8>, data: Seq<u8>, n: int)
    requires
        0 <= n <= unread.len(),
    ensures
        (unread + data).skip(n) == unread.skip(n) + data,
        (unread + data).take(unread.len() as int) == unread,
        (unread + data).skip(unread.len() as int) == data,
{
    assert((unread + data).skip(n) =~= unread.skip(n) + data);
    assert((unread + data).take(unread.len() as int) =~= unread);
    assert((unread + data).skip(unread.len() as int) =~= data);
}

/// A part of the unread bytes of a [`RingBuffer`].
pub struct RingBufferSlice<'a> {
    buffer: &'a RingBuffer,
    begin: usize,
    end: usize,
}

impl<'a> RingBufferSlice<'a> {
    /// The ring which the slice belongs to.
    pub closed spec fn ring(&self) -> RingBuffer {
        *self.buffer
    }

    /// The index of the first unread byte of the slice.
    pub closed spec fn first(&self) -> usize {
        self.begin
    }

    /// The index of the first unread byte behind the slice.
    pub closed spec fn limit(&self) -> usize {
        self.end
    }

    /// Whether [`Self::to_vec`] can copy the slice. In a ring which wraps around, only a slice
    /// which holds the last byte in front of the wrapping, or which is empty there, can be copied.
    pub open spec fn can_copy(&self) -> bool {
        let ring = self.ring();
        let front = ring.storage().len() - ring.read_pos();
        &&& ring.wf()
        &&& self.first() <= self.limit()
        &&& if ring.write_pos() >= ring.read_pos() {
            ring.read_pos() + self.limit() <= ring.storage().len()
        } else {
            &&& self.first() < front ==> front <= self.limit()
            &&& front < self.limit() ==> self.first() <= front
            &&& self.limit() - front <= ring.storage().len()
        }
    }

    fn new(buffer: &'a RingBuffer, begin: usize, end: usize) -> (slice: Self)
        ensures
            slice.ring() == *buffer,
            slice.first() == begin,
            slice.limit() == end,
    {
        RingBufferSlice { buffer, begin, end }
    }

    /// The length of the slice.
    pub fn len(&self) -> (len: usize)
        requires
            self.first() <= self.limit(),
        ensures
            len == self.limit() - self.first(),
    {
        self.end - self.begin
    }

    /// The byte with the given index in the slice, which has to be unread.
    pub fn index(&self, idx: usize) -> (byte: &u8)
        requires
            self.ring().wf(),
            idx + self.first() < self.limit(),
            idx + self.first() < self.ring()@.len(),
        ensures
            *byte == self.ring()@[idx + self.first()],
    {
        self.buffer.index(idx + self.begin)
    }

    /// The slice from `begin`, counted from the begin of this slice, up to `end`, counted from the
    /// begin of the ring.
    pub fn get_slice(&self, begin: usize, end: usize) -> (slice: RingBufferSlice<'_>)
        requires
            self.first() + begin <= usize::MAX,
            end <= self.limit(),
        ensures
            slice.ring() == self.ring(),
            slice.first() == self.first() + begin,
            slice.limit() == end,
    {
        let begin: usize = self.begin + begin;

        RingBufferSlice::new(self.buffer, begin, end)
    }

    /// The same as [`Self::get_slice`].
    pub fn slice(&self, begin: usize, end: usize) -> (slice: RingBufferSlice<'_>)
        requires
            self.first() + begin <= usize::MAX,
            end <= self.limit(),
        ensures
            slice.ring() == self.ring(),
            slice.first() == self.first() + begin,
            slice.limit() == end,
    {
        self.get_slice(begin, end)
    }

    /// Copies the bytes of the slice.
    pub fn to_vec(&self) -> (store: Vec<u8>)
        requires
            self.can_copy(),
        ensures
            store@.len() == self.limit() - self.first(),
            self.limit() <= self.ring()@.len() ==> store@ == self.ring()@.subrange(
                self.first() as int,
                self.limit() as int,
            ),
            self.ring().write_pos() >= self.ring().read_pos() ==> store@
                == self.ring().storage().subrange(
                self.ring().read_pos() + self.first(),
                self.ring().read_pos() + self.limit(),
            ),
            self.ring().write_pos() < self.ring().read_pos() && self.first() < self.limit()
                ==> store@ == self.ring().storage().skip(self.ring().read_pos() + self.first())
                + self.ring().storage().take(
                self.limit() - (self.ring().storage().len() - self.ring().read_pos()),
            ),
    {
        let ring: &RingBuffer = self.buffer;
        let len: usize = ring.inner.len();
        if ring.write_pointer >= ring.read_pointer {
            let store: Vec<u8> = vstd::slice::slice_to_vec(
                vstd::slice::slice_subrange(
                    ring.inner.as_slice(),
                    ring.read_pointer + self.begin,
                    ring.read_pointer + self.end,
                ),
            );
            proof {
                if self.end <= ring@.len() {
                    assert(store@ =~= ring@.subrange(self.begin as int, self.end as int));
                }
            }

            store
        } else if self.begin == self.end {
            let store: Vec<u8> = Vec::new();
            proof {
                if self.end <= ring@.len() {
                    assert(store@ =~= ring@.subrange(self.begin as int, self.end as int));
                }
            }

            store
        } else {
            let front: usize = len - ring.read_pointer;
            let mut store: Vec<u8> = vstd::slice::slice_to_vec(
                vstd::slice::slice_subrange(
                    ring.inner.as_slice(),
                    ring.read_pointer + self.begin,
                    len,
                ),
            );
            store.extend_from_slice(
                vstd::slice::slice_subrange(ring.inner.as_slice(), 0, self.end - front),
            );
            proof {
                assert(store@ =~= ring.storage().skip(ring.read_pos() + self.begin)
                    + ring.storage().take(self.end - front));
                if self.end <= ring@.len() {
                    assert(store@ =~= ring@.subrange(self.begin as int, self.end as int));
                }
            }

            store
        }
    }
}

/// Walks over the unread bytes of a [`RingBuffer`].
pub struct Iter<'a> {
    buffer: &'a RingBuffer,
    counter: usize,
    available: usize,
}

impl<'a> Iter<'a> {
    /// The walk is over an intact ring and knows its end.
    pub closed spec fn wf(&self) -> bool {
        &&& self.buffer.wf()
        &&& self.available == self.buffer@.len()
        &&& self.counter <= self.available
    }

    /// The bytes which were not walked over yet.
    pub closed spec fn remaining(&self) -> Seq<u8> {
        self.buffer@.skip(self.counter as int)
    }

    fn new(buffer: &'a RingBuffer) -> (iter: Self)
        requires
            buffer.wf(),
        ensures
            iter.wf(),
            iter.remaining() == buffer@,
    {
        let available: usize = buffer.available_for_read();
        let iter = Iter { buffer, counter: 0, available };
        proof {
            assert(iter.remaining() =~= buffer@);
        }

        iter
    }

    /// The next byte, if any.
    pub fn next(&mut self) -> (item: Option<u8>)
        requires
            old(self).wf(),
        ensures
            final(self).wf(),
            if old(self).remaining().len() == 0 {
                &&& item is None
                &&& final(self).remaining() == old(self).remaining()
            } else {
                &&& item == Some(old(self).remaining()[0])
                &&& final(self).remaining() == old(self).remaining().skip(1)
            },
    {
        if self.counter >= self.available {
            return None;
        }
        let item: u8 = *self.buffer.index(self.counter);
        self.counter = self.counter + 1;
        proof {
            assert(self.remaining() =~= old(self).remaining().skip(1));
        }

        Some(item)
    }
}

/// The smaller one of two numbers is one of them, and not bigger than either.
pub proof fn law_smaller_number(a: int, b: int)
    ensures
        min(a, b) <= a,
        min(a, b) <= b,
        min(a, b) == a || min(a, b) == b,
{
}

/// All bytes of a buffer are either unread or room for new ones.
pub proof fn law_no_room_is_lost(buffer: Buffer)
    ensures
        buffer@.len() + buffer.room() == buffer.storage().len(),
{
}

/// What can be read or written in one go is all there is, unless the end of the ring comes before.
pub proof fn law_ring_wraps_at_its_end(ring: RingBuffer)
    requires
        ring.wf(),
    ensures
        0 <= ring.unbroken() <= ring@.len(),
        ring.unbroken() == ring@.len() || ring.read_pos() + ring.unbroken() == ring.storage().len(),
        0 <= ring.unbroken_room() <= ring.storage().len() - ring@.len(),
        ring.unbroken_room() == ring.storage().len() - ring@.len() || ring.write_pos()
            + ring.unbroken_room() == ring.storage().len(),
{
}

} // verus!
