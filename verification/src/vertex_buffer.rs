use vstd::prelude::*;
use crate::vec_buffer::written_into;

verus! {

/// Writes `source` into `target` from `offset` on, item by item: overwriting
/// while inside the vector, appending past its end.
pub fn write_into_vec<T: Clone>(target: &mut Vec<T>, offset: usize, source: &[T])
    requires
        offset <= old(target)@.len(),
    ensures
        written_into(old(target)@, offset as int, source@, final(target)@),
{
    let target_len = target.len();
    let source_len = source.len();
    let mut i: usize = 0;
    while i < source_len
        invariant
            source_len == source@.len(),
            offset <= target_len,
            target_len == old(target)@.len(),
            i <= source_len,
            target@.len() == if offset + i > target_len {
                offset + i
            } else {
                target_len as int
            },
            forall|k: int| 0 <= k < offset ==> #[trigger] target@[k] == old(target)@[k],
            forall|k: int|
                offset <= k < offset + i ==> cloned::<T>(source@[k - offset], #[trigger] target@[k]),
            forall|k: int| offset + i <= k < target_len ==> #[trigger] target@[k] == old(target)@[k],
        decreases source_len - i,
    {
        let item = source[i].clone();
        if i < target_len - offset {
            target.set(offset + i, item);
        } else {
            target.push(item);
        }
        i = i + 1;
    }
}

/// Vertices kept in memory beside the GPU vertex buffer `B` they are uploaded to.
#[derive(Debug)]
pub struct VertexBuffer<T: Clone, B> {
    data: Vec<T>,
    buffer: B,
    max_size: usize,
}

impl<T: Clone, B> VertexBuffer<T, B> {
    /// The vertices held.
    pub closed spec fn items(&self) -> Seq<T> {
        self.data@
    }

    /// The number of vertices the GPU buffer was made for.
    pub closed spec fn capacity(&self) -> usize {
        self.max_size
    }

    pub closed spec fn gpu_buffer(&self) -> B {
        self.buffer
    }

    /// An empty buffer for `max_size` vertices, over a GPU buffer made for them.
    pub fn new(buffer: B, max_size: usize) -> (b: Self)
        ensures
            b.items() == Seq::<T>::empty(),
            b.capacity() == max_size,
            b.gpu_buffer() == buffer,
    {
        VertexBuffer { data: Vec::with_capacity(max_size), buffer, max_size }
    }

    /// Writes vertices from `offset` on (or appends them when `offset` is
    /// `None`); returns their number.
    pub fn write_vertices(&mut self, offset: Option<usize>, vertices: &[T]) -> (n: usize)
        requires
            offset matches Some(o) ==> o <= old(self).items().len(),
        ensures
            n == vertices@.len(),
            final(self).capacity() == old(self).capacity(),
            final(self).gpu_buffer() == old(self).gpu_buffer(),
            ({
                let o = match offset {
                    Some(o) => o as int,
                    None => old(self).items().len() as int,
                };
                written_into(old(self).items(), o, vertices@, final(self).items())
            }),
    {
        match offset {
            Some(offset) => write_into_vec(&mut self.data, offset, vertices),
            None => {
                let len = self.data.len();
                write_into_vec(&mut self.data, len, vertices)
            },
        }
        vertices.len()
    }

    /// Keeps the first `retain` vertices (all of them where fewer), or none.
    pub fn clear(&mut self, retain: Option<usize>)
        ensures
            final(self).capacity() == old(self).capacity(),
            final(self).gpu_buffer() == old(self).gpu_buffer(),
            final(self).items() == match retain {
                Some(n) => if n < old(self).items().len() {
                    old(self).items().take(n as int)
                } else {
                    old(self).items()
                },
                None => Seq::<T>::empty(),
            },
    {
        match retain {
            Some(size) => self.data.truncate(size),
            None => self.data.clear(),
        }
    }

    pub fn max_size(&self) -> (s: usize)
        ensures
            s == self.capacity(),
    {
        self.max_size
    }

    pub fn data(&self) -> (d: &Vec<T>)
        ensures
            d@ == self.items(),
    {
        &self.data
    }

    pub fn len(&self) -> (n: usize)
        ensures
            n == self.items().len(),
    {
        self.data.len()
    }

    pub fn buffer(&self) -> (b: &B)
        ensures
            *b == self.gpu_buffer(),
    {
        &self.buffer
    }
}

} // verus!
