use vstd::prelude::*;
use vstd::layout::size_of;
use crate::buffer_helper::Bound;

verus! {

/// What writing `source` into `target` at `offset` leaves in `result`: the
/// items before `offset` and past the written ones stay, the written ones are
/// clones of the source's, and the vector grows where the source reaches past it.
pub open spec fn written_into<T: Clone>(target: Seq<T>, offset: int, source: Seq<T>, result: Seq<
    T,
>) -> bool {
    &&& result.len() == if offset + source.len() > target.len() {
        offset + source.len()
    } else {
        target.len() as int
    }
    &&& forall|k: int| 0 <= k < offset ==> #[trigger] result[k] == target[k]
    &&& forall|k: int|
        offset <= k < offset + source.len() ==> cloned::<T>(source[k - offset], #[trigger] result[k])
    &&& forall|k: int| offset + source.len() <= k < target.len() ==> #[trigger] result[k] == target[k]
}

/// Writes `source` into `target` from `offset` on: overwrites what is there and
/// appends the rest.
pub fn write_into_vec<T: Clone>(target: &mut Vec<T>, offset: usize, source: &[T])
    requires
        offset <= old(target)@.len(),
    ensures
        written_into(old(target)@, offset as int, source@, final(target)@),
{
    let target_len = target.len();
    if offset < target_len {
        let source_len = source.len();
        let overwrite_len = if target_len - offset < source_len {
            target_len - offset
        } else {
            source_len
        };
        let mut i: usize = 0;
        while i < overwrite_len
            invariant
                overwrite_len <= source@.len(),
                offset + overwrite_len <= target_len,
                target_len == old(target)@.len(),
                i <= overwrite_len,
                target@.len() == target_len,
                forall|k: int| 0 <= k < offset ==> #[trigger] target@[k] == old(target)@[k],
                forall|k: int|
                    offset <= k < offset + i ==> cloned::<T>(
                        source@[k - offset],
                        #[trigger] target@[k],
                    ),
                forall|k: int|
                    offset + i <= k < target_len ==> #[trigger] target@[k] == old(target)@[k],
            decreases overwrite_len - i,
        {
            let item = source[i].clone();
            target.set(offset + i, item);
            i = i + 1;
        }
        let mut j: usize = overwrite_len;
        while j < source_len
            invariant
                overwrite_len <= j <= source_len,
                source_len == source@.len(),
                overwrite_len == source_len || offset + overwrite_len == target_len,
                offset + overwrite_len <= target_len,
                target_len == old(target)@.len(),
                target@.len() == if j == overwrite_len {
                    target_len as int
                } else {
                    offset + j
                },
                j > overwrite_len ==> offset + overwrite_len == target_len,
                forall|k: int| 0 <= k < offset ==> #[trigger] target@[k] == old(target)@[k],
                forall|k: int|
                    offset <= k < offset + j ==> cloned::<T>(
                        source@[k - offset],
                        #[trigger] target@[k],
                    ),
                forall|k: int|
                    offset + j <= k < target_len ==> #[trigger] target@[k] == old(target)@[k],
            decreases source_len - j,
        {
            let item = source[j].clone();
            target.push(item);
            j = j + 1;
        }
    } else {
        let mut j: usize = 0;
        while j < source.len()
            invariant
                offset == target_len,
                target_len == old(target)@.len(),
                j <= source@.len(),
                target@.len() == target_len + j,
                forall|k: int| 0 <= k < offset ==> #[trigger] target@[k] == old(target)@[k],
                forall|k: int|
                    offset <= k < offset + j ==> cloned::<T>(
                        source@[k - offset],
                        #[trigger] target@[k],
                    ),
            decreases source@.len() - j,
        {
            let item = source[j].clone();
            target.push(item);
            j = j + 1;
        }
    }
}

/// Byte offset in the GPU buffer where the items of a range starting at `start`
/// go when they are written to the GPU buffer.
pub open spec fn start_byte_offset<T>(start: Bound<usize>) -> int {
    match start {
        Bound::Included(s) => s * size_of::<T>(),
        Bound::Excluded(s) => (s + 1) * size_of::<T>(),
        Bound::Unbounded => 0,
    }
}

pub fn buffer_write_offset<T>(start: Bound<usize>) -> (o: usize)
    requires
        0 <= start_byte_offset::<T>(start) <= usize::MAX,
        start matches Bound::Excluded(s) ==> s < usize::MAX,
    ensures
        o == start_byte_offset::<T>(start),
{
    let size = core::mem::size_of::<T>();
    match start {
        Bound::Included(s) => s * size,
        Bound::Excluded(s) => (s + 1) * size,
        Bound::Unbounded => 0,
    }
}

/// Consecutive items lie `size_of::<T>()` bytes apart in the GPU buffer: a range
/// from item `s + 1` starts that many bytes after one from item `s`, a range that
/// starts after item `s` starts where one from item `s + 1` does, and an
/// unbounded start or one from item 0 is the buffer's start.
pub proof fn law_write_offsets_step_by_item_size<T>(s: usize)
    requires
        s < usize::MAX,
    ensures
        start_byte_offset::<T>(Bound::Included((s + 1) as usize)) - start_byte_offset::<T>(
            Bound::Included(s),
        ) == size_of::<T>(),
        start_byte_offset::<T>(Bound::Excluded(s)) == start_byte_offset::<T>(
            Bound::Included((s + 1) as usize),
        ),
        start_byte_offset::<T>(Bound::Included(0)) == 0,
        start_byte_offset::<T>(Bound::Unbounded) == 0,
{
    let z = size_of::<T>() as int;
    assert((s + 1) * z - s * z == z) by (nonlinear_arith);
}

/// Items kept in memory beside the GPU buffer `B` they are uploaded to.
#[derive(Debug)]
pub struct VecBuffer<T: Clone, B> {
    data: Vec<T>,
    buffer: B,
    size: usize,
}

impl<T: Clone, B> VecBuffer<T, B> {
    /// The items held.
    pub closed spec fn items(&self) -> Seq<T> {
        self.data@
    }

    /// The number of items the GPU buffer was made for.
    pub closed spec fn capacity(&self) -> usize {
        self.size
    }

    pub closed spec fn gpu_buffer(&self) -> B {
        self.buffer
    }

    /// An empty buffer for `size` items, over a GPU buffer made for them.
    pub fn new(buffer: B, size: usize) -> (b: Self)
        ensures
            b.items() == Seq::<T>::empty(),
            b.capacity() == size,
            b.gpu_buffer() == buffer,
    {
        VecBuffer { data: Vec::with_capacity(size), buffer, size }
    }

    /// Writes one item at `index` (overwriting, or appending at the end), or
    /// appends it when `index` is `None`.
    pub fn write_vertex(&mut self, index: Option<usize>, vertex: &T)
        requires
            index matches Some(i) ==> i <= old(self).items().len(),
        ensures
            final(self).capacity() == old(self).capacity(),
            final(self).gpu_buffer() == old(self).gpu_buffer(),
            ({
                let i = match index {
                    Some(i) => i as int,
                    None => old(self).items().len() as int,
                };
                written_into(old(self).items(), i, seq![*vertex], final(self).items())
            }),
    {
        let len = self.data.len();
        match index {
            Some(index) => {
                if index < len {
                    self.data.set(index, vertex.clone());
                } else {
                    self.data.push(vertex.clone());
                }
            },
            None => {
                self.data.push(vertex.clone());
            },
        }
    }

    /// Writes items from `offset` on (or appends them when `offset` is `None`);
    /// returns their number.
    pub fn write_vertices(&mut self, offset: Option<usize>, vertices: &[T]) -> (n: usize)
        requires
            offset matches Some(o) ==> o <= old(self).items().len(),
        ensures
            n == vertices@.len(),
            final(self).capacity() == old(self).capacity(),
            final(self).gpu_buffer() == old(self).gpu_buffer(),
            ({
                let o = match offset {
                    Some(o) => o as int,
                    None => old(self).items().len() as int,
                };
                written_into(old(self).items(), o, vertices@, final(self).items())
            }),
    {
        match offset {
            Some(offset) => write_into_vec(&mut self.data, offset, vertices),
            None => {
                let len = self.data.len();
                write_into_vec(&mut self.data, len, vertices)
            },
        }
        vertices.len()
    }

    /// Keeps the first `retain` items (all of them where fewer), or none.
    pub fn clear(&mut self, retain: Option<usize>)
        ensures
            final(self).capacity() == old(self).capacity(),
            final(self).gpu_buffer() == old(self).gpu_buffer(),
            final(self).items() == match retain {
                Some(n) => if n < old(self).items().len() {
                    old(self).items().take(n as int)
                } else {
                    old(self).items()
                },
                None => Seq::<T>::empty(),
            },
    {
        match retain {
            Some(size) => self.data.truncate(size),
            None => self.data.clear(),
        }
    }

    pub fn size(&self) -> (s: usize)
        ensures
            s == self.capacity(),
    {
        self.size
    }

    pub fn data(&self) -> (d: &Vec<T>)
        ensures
            d@ == self.items(),
    {
        &self.data
    }

    pub fn len(&self) -> (n: usize)
        ensures
            n == self.items().len(),
    {
        self.data.len()
    }

    pub fn buffer(&self) -> (b: &B)
        ensures
            *b == self.gpu_buffer(),
    {
        &self.buffer
    }
}

} // verus!
