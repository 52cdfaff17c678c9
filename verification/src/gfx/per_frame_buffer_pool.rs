use vstd::prelude::*;

verus! {

/// Size in bytes of the buffers the pool makes (64 MiB), unless a request is larger.
pub const SINGLE_BUFFER_SIZE: u64 = 67108864;

/// How much of one buffer is handed out this frame: slices are bumped from
/// offset 0 up to the buffer's size.
#[derive(Debug, Clone, Copy, PartialEq, Eq, Hash)]
pub struct SingleBufferSpace {
    pub size: u64,
    pub offset: u64,
}

impl SingleBufferSpace {
    pub open spec fn well_formed(self) -> bool {
        self.offset <= self.size
    }

    /// Whether a slice of `size` bytes fits in what is left.
    pub open spec fn has_room(self, size: u64) -> bool {
        self.offset + size <= self.size
    }

    pub fn new(size: u64) -> (r: SingleBufferSpace)
        ensures
            r.size == size && r.offset == 0,
            r.well_formed(),
    {
        SingleBufferSpace { size, offset: 0 }
    }

    /// Hands out the next `size` bytes, giving their offset, or `None` when they
    /// do not fit.
    pub fn allocate(&mut self, size: u64) -> (r: Option<u64>)
        requires
            old(self).well_formed(),
        ensures
            final(self).well_formed(),
            final(self).size == old(self).size,
            old(self).has_room(size) ==> r == Some(old(self).offset) && final(self).offset
                == old(self).offset + size,
            !old(self).has_room(size) ==> r is None && *final(self) == *old(self),
    {
        if self.size - self.offset < size {
            return None;
        }
        let offset = self.offset;
        self.offset = self.offset + size;
        Some(offset)
    }

    /// Starts a new frame: the whole buffer is free again.
    pub fn reset(&mut self)
        ensures
            final(self).size == old(self).size,
            final(self).offset == 0,
    {
        self.offset = 0;
    }
}

/// The buffers of a frame and what is handed out of each.
pub struct PerFrameBufferSpace {
    buffers: Vec<SingleBufferSpace>,
}

/// Where a slice was handed out: which buffer, at which offset, and whether
/// that buffer had to be made for it (then it is the last one).
#[derive(Debug, Clone, Copy, PartialEq, Eq, Hash)]
pub struct BufferSliceSpan {
    pub buffer_index: usize,
    pub offset: u64,
    pub new_buffer_size: Option<u64>,
}

/// The index of the first buffer with room for `size` bytes, if any.
pub open spec fn first_with_room(buffers: Seq<SingleBufferSpace>, size: u64) -> Option<int>
    decreases buffers.len(),
{
    if buffers.len() == 0 {
        None
    } else {
        match first_with_room(buffers.drop_last(), size) {
            Some(i) => Some(i),
            None => if buffers.last().has_room(size) {
                Some(buffers.len() - 1)
            } else {
                None
            },
        }
    }
}

proof fn lemma_first_with_room(buffers: Seq<SingleBufferSpace>, size: u64, n: int)
    requires
        0 <= n <= buffers.len(),
        forall|j: int| 0 <= j < n ==> !#[trigger] buffers[j].has_room(size),
    ensures
        first_with_room(buffers.take(n), size) is None,
    decreases n,
{
    if n > 0 {
        assert(buffers.take(n).drop_last() =~= buffers.take(n - 1));
        lemma_first_with_room(buffers, size, n - 1);
    }
}

impl PerFrameBufferSpace {
    pub closed spec fn spec_buffers(&self) -> Seq<SingleBufferSpace> {
        self.buffers@
    }

    pub open spec fn well_formed(&self) -> bool {
        forall|i: int| 0 <= i < self.spec_buffers().len() ==> #[trigger] self.spec_buffers()[i].well_formed()
    }

    pub fn new() -> (r: PerFrameBufferSpace)
        ensures
            r.spec_buffers() == Seq::<SingleBufferSpace>::empty(),
    {
        PerFrameBufferSpace { buffers: Vec::with_capacity(4) }
    }

    pub fn buffers(&self) -> (r: &[SingleBufferSpace])
        ensures
            r@ == self.spec_buffers(),
    {
        self.buffers.as_slice()
    }

    /// Hands out `size` bytes from the first buffer with room; when none has
    /// room, a buffer of 64 MiB (or of `size` bytes, if larger) is added and the
    /// slice comes from its start.
    pub fn allocate(&mut self, size: u64) -> (r: BufferSliceSpan)
        requires
            old(self).well_formed(),
            size > 0,
        ensures
            final(self).well_formed(),
            match first_with_room(old(self).spec_buffers(), size) {
                Some(i) => {
                    &&& r.buffer_index == i
                    &&& r.offset == old(self).spec_buffers()[i].offset
                    &&& r.new_buffer_size is None
                    &&& final(self).spec_buffers() == old(self).spec_buffers().update(
                        i,
                        SingleBufferSpace {
                            size: old(self).spec_buffers()[i].size,
                            offset: (old(self).spec_buffers()[i].offset + size) as u64,
                        },
                    )
                },
                None => {
                    let new_size = if SINGLE_BUFFER_SIZE < size {
                        size
                    } else {
                        SINGLE_BUFFER_SIZE
                    };
                    &&& r.buffer_index == old(self).spec_buffers().len()
                    &&& r.offset == 0
                    &&& r.new_buffer_size == Some(new_size)
                    &&& final(self).spec_buffers() == old(self).spec_buffers().push(
                        SingleBufferSpace { size: new_size, offset: size },
                    )
                },
            },
    {
        let mut i: usize = 0;
        while i < self.buffers.len()
            invariant
                0 <= i <= self.buffers.len(),
                self.buffers@ == old(self).buffers@,
                old(self).well_formed(),
                forall|j: int| 0 <= j < i ==> !#[trigger] self.buffers@[j].has_room(size),
            decreases self.buffers.len() - i,
        {
            let mut buffer = self.buffers[i];
            match buffer.allocate(size) {
                Some(offset) => {
                    proof {
                        lemma_first_with_room(self.buffers@, size, i as int);
                        let t = self.buffers@.take(i as int + 1);
                        assert(t.drop_last() =~= self.buffers@.take(i as int));
                        assert(self.buffers@.take(self.buffers@.len() as int) =~= self.buffers@);
                        lemma_first_with_room_prefix(self.buffers@, size, i as int + 1);
                    }
                    self.buffers.set(i, buffer);
                    return BufferSliceSpan { buffer_index: i, offset, new_buffer_size: None };
                },
                None => {},
            }
            i = i + 1;
        }
        proof {
            lemma_first_with_room(self.buffers@, size, self.buffers@.len() as int);
            assert(self.buffers@.take(self.buffers@.len() as int) =~= self.buffers@);
        }
        let buffer_size = if SINGLE_BUFFER_SIZE < size {
            size
        } else {
            SINGLE_BUFFER_SIZE
        };
        let mut buffer = SingleBufferSpace::new(buffer_size);
        let offset = buffer.allocate(size);
        self.buffers.push(buffer);
        BufferSliceSpan {
            buffer_index: self.buffers.len() - 1,
            offset: 0,
            new_buffer_size: Some(buffer_size),
        }
    }

    /// Starts a new frame: every buffer is free again.
    pub fn reset(&mut self)
        ensures
            final(self).spec_buffers().len() == old(self).spec_buffers().len(),
            forall|i: int|
                0 <= i < old(self).spec_buffers().len() ==> #[trigger] final(self).spec_buffers()[i]
                    == (SingleBufferSpace { size: old(self).spec_buffers()[i].size, offset: 0 }),
            final(self).well_formed(),
    {
        let mut i: usize = 0;
        while i < self.buffers.len()
            invariant
                0 <= i <= self.buffers.len(),
                self.buffers@.len() == old(self).buffers@.len(),
                forall|j: int|
                    0 <= j < i ==> #[trigger] self.buffers@[j] == (SingleBufferSpace {
                        size: old(self).buffers@[j].size,
                        offset: 0,
                    }),
                forall|j: int| i <= j < self.buffers@.len() ==> #[trigger] self.buffers@[j] == old(self).buffers@[j],
            decreases self.buffers.len() - i,
        {
            let mut buffer = self.buffers[i];
            buffer.reset();
            self.buffers.set(i, buffer);
            i = i + 1;
        }
    }
}

/// When the first `n` buffers include one with room, the first such buffer of
/// the whole list is the first such buffer among those `n`.
proof fn lemma_first_with_room_prefix(buffers: Seq<SingleBufferSpace>, size: u64, n: int)
    requires
        0 < n <= buffers.len(),
        first_with_room(buffers.take(n), size) is Some,
    ensures
        first_with_room(buffers, size) == first_with_room(buffers.take(n), size),
    decreases buffers.len() - n,
{
    if n < buffers.len() {
        assert(buffers.take(n + 1).drop_last() =~= buffers.take(n));
        lemma_first_with_room_prefix(buffers, size, n + 1);
    } else {
        assert(buffers.take(n) =~= buffers);
    }
}

/// The buffer an allocation goes to is the first one with room for it: the
/// slice it gets ends within that buffer, and no earlier buffer had room.
pub proof fn lemma_first_fit(buffers: Seq<SingleBufferSpace>, size: u64)
    ensures
        first_with_room(buffers, size) matches Some(i) ==> {
            &&& 0 <= i < buffers.len()
            &&& buffers[i].offset + size <= buffers[i].size
            &&& forall|j: int| 0 <= j < i ==> !(#[trigger] buffers[j]).has_room(size)
        },
        first_with_room(buffers, size) is None ==> forall|j: int|
            0 <= j < buffers.len() ==> !(#[trigger] buffers[j]).has_room(size),
    decreases buffers.len(),
{
    if buffers.len() > 0 {
        let rest = buffers.drop_last();
        let n = buffers.len() - 1;
        lemma_first_fit(rest, size);
        match first_with_room(rest, size) {
            Some(i) => {
                assert(rest[i] == buffers[i]);
                assert forall|j: int| 0 <= j < i implies !(#[trigger] buffers[j]).has_room(size) by {
                    assert(rest[j] == buffers[j]);
                }
            },
            None => {
                assert forall|j: int| 0 <= j < n implies !(#[trigger] buffers[j]).has_room(size) by {
                    assert(rest[j] == buffers[j]);
                }
            },
        }
    }
}

} // verus!
