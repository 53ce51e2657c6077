use vstd::prelude::*;
use vstd::layout::size_of;
use std::ops::Range;
use core::num::TryFromIntError;
use crate::byte_slice::{decimal, decimal_text_u64};

verus! {

// range helpers

/// Converts both ends of a range to another integer type.
pub trait TryToRange<O, E>: Sized {
    /// Whether both ends fit into the target type.
    spec fn fits(&self) -> bool;

    /// Whether `o` holds the same ends as `self`.
    spec fn same_ends(&self, o: Range<O>) -> bool;

    fn try_to(self) -> (r: Result<Range<O>, E>)
        ensures
            r is Ok <==> self.fits(),
            r matches Ok(o) ==> self.same_ends(o),
    ;
}

impl TryToRange<u32, TryFromIntError> for Range<u64> {
    open spec fn fits(&self) -> bool {
        self.start <= u32::MAX && self.end <= u32::MAX
    }

    open spec fn same_ends(&self, o: Range<u32>) -> bool {
        o.start == self.start && o.end == self.end
    }

    fn try_to(self) -> (r: Result<Range<u32>, TryFromIntError>) {
        let start = match u32::try_from(self.start) {
            Ok(s) => s,
            Err(e) => return Err(e),
        };
        let end = match u32::try_from(self.end) {
            Ok(e) => e,
            Err(e) => return Err(e),
        };
        Ok(Range { start, end })
    }
}

impl TryToRange<u32, TryFromIntError> for Range<usize> {
    open spec fn fits(&self) -> bool {
        self.start <= u32::MAX && self.end <= u32::MAX
    }

    open spec fn same_ends(&self, o: Range<u32>) -> bool {
        o.start == self.start && o.end == self.end
    }

    fn try_to(self) -> (r: Result<Range<u32>, TryFromIntError>) {
        let start = match u32::try_from(self.start) {
            Ok(s) => s,
            Err(e) => return Err(e),
        };
        let end = match u32::try_from(self.end) {
            Ok(e) => e,
            Err(e) => return Err(e),
        };
        Ok(Range { start, end })
    }
}

impl TryToRange<usize, TryFromIntError> for Range<u64> {
    open spec fn fits(&self) -> bool {
        self.start <= usize::MAX && self.end <= usize::MAX
    }

    open spec fn same_ends(&self, o: Range<usize>) -> bool {
        o.start == self.start && o.end == self.end
    }

    fn try_to(self) -> (r: Result<Range<usize>, TryFromIntError>) {
        let start = match usize::try_from(self.start) {
            Ok(s) => s,
            Err(e) => return Err(e),
        };
        let end = match usize::try_from(self.end) {
            Ok(e) => e,
            Err(e) => return Err(e),
        };
        Ok(Range { start, end })
    }
}

impl TryToRange<u64, TryFromIntError> for Range<usize> {
    open spec fn fits(&self) -> bool {
        self.start <= u64::MAX && self.end <= u64::MAX
    }

    open spec fn same_ends(&self, o: Range<u64>) -> bool {
        o.start == self.start && o.end == self.end
    }

    fn try_to(self) -> (r: Result<Range<u64>, TryFromIntError>) {
        let start = match u64::try_from(self.start) {
            Ok(s) => s,
            Err(e) => return Err(e),
        };
        let end = match u64::try_from(self.end) {
            Ok(e) => e,
            Err(e) => return Err(e),
        };
        Ok(Range { start, end })
    }
}

/// Maps both ends of a range.
pub trait MapRange<T>: Sized {
    spec fn first(&self) -> T;

    spec fn last(&self) -> T;

    fn map_range<U, F: Fn(T) -> U>(self, map_fn: F) -> (r: Range<U>)
        requires
            call_requires(map_fn, (self.first(),)),
            call_requires(map_fn, (self.last(),)),
        ensures
            call_ensures(map_fn, (self.first(),), r.start),
            call_ensures(map_fn, (self.last(),), r.end),
    ;
}

impl<T> MapRange<T> for Range<T> {
    open spec fn first(&self) -> T {
        self.start
    }

    open spec fn last(&self) -> T {
        self.end
    }

    fn map_range<U, F: Fn(T) -> U>(self, map_fn: F) -> (r: Range<U>) {
        let start = map_fn(self.start);
        let end = map_fn(self.end);
        Range { start, end }
    }
}

/// A bound of a range: what `std::ops::Bound` holds.
#[derive(Debug, Clone, Copy, PartialEq, Eq, Structural)]
pub enum Bound<T> {
    Included(T),
    Excluded(T),
    Unbounded,
}

/// Why `map_into` refused a range: which bound lies outside the outer range
/// `start..end`.
#[derive(Debug, Clone, Copy, PartialEq, Eq, Structural)]
pub enum RangeError<T> {
    /// The start bound lies before the outer range.
    StartOutOfRange { bound: Bound<T>, start: T, end: T },
    /// The end bound lies after the outer range.
    EndOutOfRange { bound: Bound<T>, start: T, end: T },
}

/// Resolves a pair of bounds within an outer range.
pub trait MapIntoRange<T> {
    /// Whether the bounds can be resolved without overflow.
    spec fn admissible(&self) -> bool;

    /// What resolving the bounds within `range` gives.
    spec fn resolved(&self, range: Range<T>) -> Result<Range<T>, RangeError<T>>;

    fn map_into(&self, range: Range<T>) -> (r: Result<Range<T>, RangeError<T>>)
        requires
            self.admissible(),
        ensures
            r == self.resolved(range),
    ;
}

/// The first index that a start bound admits, where `dflt` stands for no bound.
pub open spec fn start_of(b: Bound<u64>, dflt: u64) -> int {
    match b {
        Bound::Unbounded => dflt as int,
        Bound::Included(s) => s as int,
        Bound::Excluded(s) => s + 1,
    }
}

/// The end (exclusive) that an end bound admits, where `dflt` stands for no bound.
pub open spec fn end_of(b: Bound<u64>, dflt: u64) -> int {
    match b {
        Bound::Unbounded => dflt as int,
        Bound::Included(e) => e + 1,
        Bound::Excluded(e) => e as int,
    }
}

/// Whether an end bound lies within a range ending at `end` (an included
/// last index must lie before it).
pub open spec fn end_fits(b: Bound<u64>, end: u64) -> bool {
    match b {
        Bound::Unbounded => true,
        Bound::Included(e) => e < end,
        Bound::Excluded(e) => e <= end,
    }
}

impl MapIntoRange<u64> for (Bound<u64>, Bound<u64>) {
    open spec fn admissible(&self) -> bool {
        self.0 matches Bound::Excluded(s) ==> s < u64::MAX
    }

    open spec fn resolved(&self, range: Range<u64>) -> Result<Range<u64>, RangeError<u64>> {
        let start = start_of(self.0, range.start);
        if start < range.start {
            Err(RangeError::StartOutOfRange { bound: self.0, start: range.start, end: range.end })
        } else if !end_fits(self.1, range.end) {
            Err(RangeError::EndOutOfRange { bound: self.1, start: range.start, end: range.end })
        } else {
            Ok(Range { start: start as u64, end: end_of(self.1, range.end) as u64 })
        }
    }

    fn map_into(&self, range: Range<u64>) -> (r: Result<Range<u64>, RangeError<u64>>) {
        let start = match self.0 {
            Bound::Unbounded => range.start,
            Bound::Included(s) => {
                if range.start <= s {
                    s
                } else {
                    return Err(
                        RangeError::StartOutOfRange {
                            bound: self.0,
                            start: range.start,
                            end: range.end,
                        },
                    );
                }
            },
            Bound::Excluded(border) => {
                let s = border + 1;
                if range.start <= s {
                    s
                } else {
                    return Err(
                        RangeError::StartOutOfRange {
                            bound: self.0,
                            start: range.start,
                            end: range.end,
                        },
                    );
                }
            },
        };
        let end = match self.1 {
            Bound::Unbounded => range.end,
            Bound::Included(last) => {
                if last < range.end {
                    last + 1
                } else {
                    return Err(
                        RangeError::EndOutOfRange { bound: self.1, start: range.start, end: range.end },
                    );
                }
            },
            Bound::Excluded(e) => {
                if e <= range.end {
                    e
                } else {
                    return Err(
                        RangeError::EndOutOfRange { bound: self.1, start: range.start, end: range.end },
                    );
                }
            },
        };
        Ok(Range { start, end })
    }
}

/// A bound over `usize`s as one over `u64`s.
pub open spec fn widen(b: Bound<usize>) -> Bound<u64> {
    match b {
        Bound::Included(v) => Bound::Included(v as u64),
        Bound::Excluded(v) => Bound::Excluded(v as u64),
        Bound::Unbounded => Bound::Unbounded,
    }
}

fn widen_bound(b: Bound<usize>) -> (w: Bound<u64>)
    ensures
        w == widen(b),
{
    match b {
        Bound::Included(v) => Bound::Included(v as u64),
        Bound::Excluded(v) => Bound::Excluded(v as u64),
        Bound::Unbounded => Bound::Unbounded,
    }
}

impl MapIntoRange<usize> for (Bound<usize>, Bound<usize>) {
    open spec fn admissible(&self) -> bool {
        self.0 matches Bound::Excluded(s) ==> s < usize::MAX
    }

    open spec fn resolved(&self, range: Range<usize>) -> Result<Range<usize>, RangeError<usize>> {
        let start = start_of(widen(self.0), range.start as u64);
        if start < range.start {
            Err(RangeError::StartOutOfRange { bound: self.0, start: range.start, end: range.end })
        } else if !end_fits(widen(self.1), range.end as u64) {
            Err(RangeError::EndOutOfRange { bound: self.1, start: range.start, end: range.end })
        } else {
            Ok(Range { start: start as usize, end: end_of(widen(self.1), range.end as u64) as usize })
        }
    }

    fn map_into(&self, range: Range<usize>) -> (r: Result<Range<usize>, RangeError<usize>>) {
        let wide = (widen_bound(self.0), widen_bound(self.1));
        match wide.map_into(Range { start: range.start as u64, end: range.end as u64 }) {
            Ok(o) => Ok(Range { start: o.start as usize, end: o.end as usize }),
            Err(RangeError::StartOutOfRange { .. }) => Err(
                RangeError::StartOutOfRange { bound: self.0, start: range.start, end: range.end },
            ),
            Err(RangeError::EndOutOfRange { .. }) => Err(
                RangeError::EndOutOfRange { bound: self.1, start: range.start, end: range.end },
            ),
        }
    }
}

/// How `{:?}` writes a bound of a range.
pub open spec fn bound_text(b: Bound<u64>) -> Seq<char> {
    match b {
        Bound::Included(v) => "Included("@ + decimal(v as nat) + ")"@,
        Bound::Excluded(v) => "Excluded("@ + decimal(v as nat) + ")"@,
        Bound::Unbounded => "Unbounded"@,
    }
}

/// The message of a range error: the bound and the outer range, as `{:?}` writes
/// them.
pub open spec fn range_error_message(e: RangeError<u64>) -> Seq<char> {
    match e {
        RangeError::StartOutOfRange { bound, start, end } => "start "@ + bound_text(bound)
            + " is out of range "@ + decimal(start as nat) + ".."@ + decimal(end as nat),
        RangeError::EndOutOfRange { bound, start, end } => "end "@ + bound_text(bound)
            + " is out of range "@ + decimal(start as nat) + ".."@ + decimal(end as nat),
    }
}

fn append_bound(m: &mut String, b: Bound<u64>)
    ensures
        final(m)@ == old(m)@ + bound_text(b),
{
    match b {
        Bound::Included(v) => {
            m.append("Included(");
            m.append(decimal_text_u64(v).as_str());
            m.append(")");
        },
        Bound::Excluded(v) => {
            m.append("Excluded(");
            m.append(decimal_text_u64(v).as_str());
            m.append(")");
        },
        Bound::Unbounded => {
            m.append("Unbounded");
        },
    }
    proof {
        assert(final(m)@ =~= old(m)@ + bound_text(b));
    }
}

impl RangeError<u64> {
    /// The message of the error.
    pub fn message(&self) -> (m: String)
        ensures
            m@ == range_error_message(*self),
    {
        let mut m = String::new();
        match self {
            RangeError::StartOutOfRange { bound, start, end } => {
                m.append("start ");
                append_bound(&mut m, *bound);
                m.append(" is out of range ");
                m.append(decimal_text_u64(*start).as_str());
                m.append("..");
                m.append(decimal_text_u64(*end).as_str());
            },
            RangeError::EndOutOfRange { bound, start, end } => {
                m.append("end ");
                append_bound(&mut m, *bound);
                m.append(" is out of range ");
                m.append(decimal_text_u64(*start).as_str());
                m.append("..");
                m.append(decimal_text_u64(*end).as_str());
            },
        }
        proof {
            assert(m@ =~= range_error_message(*self));
        }
        m
    }
}

/// A range error over `usize`s as one over `u64`s.
pub open spec fn widen_error(e: RangeError<usize>) -> RangeError<u64> {
    match e {
        RangeError::StartOutOfRange { bound, start, end } => RangeError::StartOutOfRange {
            bound: widen(bound),
            start: start as u64,
            end: end as u64,
        },
        RangeError::EndOutOfRange { bound, start, end } => RangeError::EndOutOfRange {
            bound: widen(bound),
            start: start as u64,
            end: end as u64,
        },
    }
}

impl RangeError<usize> {
    /// The message of the error, which reads as that of the same error over
    /// `u64`s.
    pub fn message(&self) -> (m: String)
        ensures
            m@ == range_error_message(widen_error(*self)),
    {
        let wide = match *self {
            RangeError::StartOutOfRange { bound, start, end } => RangeError::StartOutOfRange {
                bound: widen_bound(bound),
                start: start as u64,
                end: end as u64,
            },
            RangeError::EndOutOfRange { bound, start, end } => RangeError::EndOutOfRange {
                bound: widen_bound(bound),
                start: start as u64,
                end: end as u64,
            },
        };
        wide.message()
    }
}

// byte ranges

/// The byte range of a range of `T`s.
pub fn byte_range<T>(data_range: Range<usize>) -> (r: Range<usize>)
    requires
        data_range.start * size_of::<T>() <= usize::MAX,
        data_range.end * size_of::<T>() <= usize::MAX,
    ensures
        r.start == data_range.start * size_of::<T>(),
        r.end == data_range.end * size_of::<T>(),
{
    let size = core::mem::size_of::<T>();
    Range { start: data_range.start * size, end: data_range.end * size }
}

/// The byte range of a range of `T`s, as buffer addresses.
pub fn buffer_range<T>(data_range: Range<usize>) -> (r: Range<u64>)
    requires
        data_range.start * size_of::<T>() <= usize::MAX,
        data_range.end * size_of::<T>() <= usize::MAX,
    ensures
        r.start == data_range.start * size_of::<T>(),
        r.end == data_range.end * size_of::<T>(),
{
    let byte_range = byte_range::<T>(data_range);
    Range { start: byte_range.start as u64, end: byte_range.end as u64 }
}

// vec helper

/// What `copy_extend` leaves: `source` written over `v` from `offset` on.
pub open spec fn spec_copy_extend<T>(v: Seq<T>, source: Seq<T>, offset: int) -> Seq<T> {
    v.take(offset) + source + if offset + source.len() < v.len() {
        v.skip(offset + source.len())
    } else {
        Seq::empty()
    }
}

/// The offset that `copy_extend` writes at: the one given, else the end.
pub open spec fn offset_or_end(offset: Option<usize>, len: nat) -> int {
    match offset {
        Some(o) => o as int,
        None => len as int,
    }
}

/// Copies a slice into a vector at an offset: with the offset at the end (or
/// `None`) the source is appended; before the end it overwrites, and must then
/// fit within the vector.
pub trait CopyExtend<T: Copy> {
    spec fn items(&self) -> Seq<T>;

    fn copy_extend(&mut self, source: &[T], offset: Option<usize>) -> (r: Range<usize>)
        requires
            offset_or_end(offset, old(self).items().len()) <= old(self).items().len(),
            offset_or_end(offset, old(self).items().len()) < old(self).items().len()
                ==> offset_or_end(offset, old(self).items().len()) + source@.len() <= old(
                self,
            ).items().len(),
            old(self).items().len() + source@.len() <= isize::MAX,
        ensures
            final(self).items() == spec_copy_extend(
                old(self).items(),
                source@,
                offset_or_end(offset, old(self).items().len()),
            ),
            r.start == offset_or_end(offset, old(self).items().len()),
            r.end == offset_or_end(offset, old(self).items().len()) + source@.len(),
    ;
}

impl<T: Copy> CopyExtend<T> for Vec<T> {
    open spec fn items(&self) -> Seq<T> {
        self@
    }

    fn copy_extend(&mut self, source: &[T], offset: Option<usize>) -> (r: Range<usize>) {
        let start_len = self.len();
        let offset = match offset {
            Some(o) => o,
            None => start_len,
        };
        if offset < start_len {
            let end = offset + source.len();
            let mut i: usize = 0;
            while i < source.len()
                invariant
                    offset + source@.len() <= old(self)@.len(),
                    end == offset + source@.len(),
                    i <= source@.len(),
                    self@.len() == old(self)@.len(),
                    forall|j: int| 0 <= j < offset ==> self@[j] == old(self)@[j],
                    forall|j: int| end <= j < self@.len() ==> self@[j] == old(self)@[j],
                    forall|j: int| 0 <= j < i ==> self@[offset + j] == source@[j],
                    forall|j: int|
                        offset + i <= j < end ==> #[trigger] self@[j] == old(self)@[j],
                decreases source@.len() - i,
            {
                self.set(offset + i, source[i]);
                i = i + 1;
            }
            proof {
                let sp = spec_copy_extend(old(self)@, source@, offset as int);
                assert forall|j: int| 0 <= j < self@.len() implies self@[j] == sp[j] by {
                    if offset <= j < end {
                        assert(self@[offset + (j - offset)] == source@[j - offset]);
                    }
                }
                assert(self@ =~= sp);
            }
            offset..end
        } else {
            let mut i: usize = 0;
            while i < source.len()
                invariant
                    i <= source@.len(),
                    self@ == old(self)@ + source@.take(i as int),
                decreases source@.len() - i,
            {
                self.push(source[i]);
                i = i + 1;
                proof {
                    assert(source@.take(i as int) =~= source@.take(i - 1).push(source@[i - 1]));
                }
            }
            proof {
                assert(source@.take(source@.len() as int) =~= source@);
                assert(self@ =~= spec_copy_extend(old(self)@, source@, offset as int));
            }
            start_len..self.len()
        }
    }
}

// draw indirect helpers

/// The arguments of an indirect draw call (what `wgpu::util::DrawIndirectArgs` holds).
#[derive(Debug, Clone, Copy, PartialEq, Eq, Structural)]
pub struct DrawIndirectArgs {
    pub vertex_count: u32,
    pub instance_count: u32,
    pub first_vertex: u32,
    pub first_instance: u32,
}

/// The arguments of an indexed indirect draw call (what
/// `wgpu::util::DrawIndexedIndirectArgs` holds).
#[derive(Debug, Clone, Copy, PartialEq, Eq, Structural)]
pub struct DrawIndexedIndirectArgs {
    pub index_count: u32,
    pub instance_count: u32,
    pub first_index: u32,
    pub base_vertex: i32,
    pub first_instance: u32,
}

/// Which value of the draw arguments did not fit.
#[derive(Debug, Clone, Copy, PartialEq, Eq, Structural)]
pub enum DrawArgsError {
    FirstVertexOverflow,
    VertexCountOverflow,
    FirstInstanceOverflow,
    InstanceCountOverflow,
    VertexRangeOverflow,
    InstanceRangeOverflow,
    IndexedBaseVertexOverflow,
    IndexedFirstIndexOverflow,
    IndexedIndexCountOverflow,
    IndexedFirstInstanceOverflow,
    IndexedInstanceCountOverflow,
    IndexedIndexRangeOverflow,
    IndexedInstanceRangeOverflow,
}

/// The message of each draw arguments error.
pub open spec fn draw_error_message(e: DrawArgsError) -> Seq<char> {
    match e {
        DrawArgsError::FirstVertexOverflow => "DrawIndirect first_vertex overflow"@,
        DrawArgsError::VertexCountOverflow => "DrawIndirect vertex_count overflow"@,
        DrawArgsError::FirstInstanceOverflow => "DrawIndirect first_instance overflow"@,
        DrawArgsError::InstanceCountOverflow => "DrawIndirect instance_count overflow"@,
        DrawArgsError::VertexRangeOverflow => "DrawIndirect vertex range overflow"@,
        DrawArgsError::InstanceRangeOverflow => "DrawIndirect instance range overflow"@,
        DrawArgsError::IndexedBaseVertexOverflow => "DrawIndexedIndirect base_vertex overflow"@,
        DrawArgsError::IndexedFirstIndexOverflow => "DrawIndexedIndirect first_index overflow"@,
        DrawArgsError::IndexedIndexCountOverflow => "DrawIndexedIndirect index_count overflow"@,
        DrawArgsError::IndexedFirstInstanceOverflow =>
            "DrawIndexedIndirect first_instance overflow"@,
        DrawArgsError::IndexedInstanceCountOverflow =>
            "DrawIndexedIndirect instance_count overflow"@,
        DrawArgsError::IndexedIndexRangeOverflow => "DrawIndexedIndirect index range overflow"@,
        DrawArgsError::IndexedInstanceRangeOverflow =>
            "DrawIndexedIndirect instance range overflow"@,
    }
}

impl DrawArgsError {
    /// The message of the error.
    pub fn message(&self) -> (m: &'static str)
        ensures
            m@ == draw_error_message(*self),
    {
        match self {
            DrawArgsError::FirstVertexOverflow => "DrawIndirect first_vertex overflow",
            DrawArgsError::VertexCountOverflow => "DrawIndirect vertex_count overflow",
            DrawArgsError::FirstInstanceOverflow => "DrawIndirect first_instance overflow",
            DrawArgsError::InstanceCountOverflow => "DrawIndirect instance_count overflow",
            DrawArgsError::VertexRangeOverflow => "DrawIndirect vertex range overflow",
            DrawArgsError::InstanceRangeOverflow => "DrawIndirect instance range overflow",
            DrawArgsError::IndexedBaseVertexOverflow => "DrawIndexedIndirect base_vertex overflow",
            DrawArgsError::IndexedFirstIndexOverflow => "DrawIndexedIndirect first_index overflow",
            DrawArgsError::IndexedIndexCountOverflow => "DrawIndexedIndirect index_count overflow",
            DrawArgsError::IndexedFirstInstanceOverflow =>
                "DrawIndexedIndirect first_instance overflow",
            DrawArgsError::IndexedInstanceCountOverflow =>
                "DrawIndexedIndirect instance_count overflow",
            DrawArgsError::IndexedIndexRangeOverflow => "DrawIndexedIndirect index range overflow",
            DrawArgsError::IndexedInstanceRangeOverflow =>
                "DrawIndexedIndirect instance range overflow",
        }
    }
}

/// The number of items of a range (zero for an empty or reversed one).
pub open spec fn range_len(r: Range<usize>) -> int {
    if r.start < r.end { r.end - r.start } else { 0 }
}

fn range_len_exec(r: &Range<usize>) -> (n: usize)
    ensures
        n == range_len(*r),
{
    if r.start < r.end { r.end - r.start } else { 0 }
}

fn to_u32(v: usize, err: DrawArgsError) -> (r: Result<u32, DrawArgsError>)
    ensures
        v <= u32::MAX ==> r == Ok::<u32, DrawArgsError>(v as u32),
        v > u32::MAX ==> r == Err::<u32, DrawArgsError>(err),
{
    if v <= 0xffff_ffffusize {
        Ok(v as u32)
    } else {
        Err(err)
    }
}

/// Draw arguments from and to ranges of vertices and instances.
pub trait DrawIndirectRanges: Sized {
    fn try_from_ranges(vertex_range: Range<usize>, instance_range: Range<usize>) -> Result<
        Self,
        DrawArgsError,
    >;

    fn vertex_range(&self) -> Result<Range<u32>, DrawArgsError>;

    fn instance_range(&self) -> Result<Range<u32>, DrawArgsError>;
}

impl DrawIndirectRanges for DrawIndirectArgs {
    fn try_from_ranges(vertex_range: Range<usize>, instance_range: Range<usize>) -> (r: Result<
        Self,
        DrawArgsError,
    >)
        ensures
            vertex_range.start > u32::MAX ==> r == Err::<Self, DrawArgsError>(
                DrawArgsError::FirstVertexOverflow,
            ),
            vertex_range.start <= u32::MAX && range_len(vertex_range) > u32::MAX ==> r == Err::<
                Self,
                DrawArgsError,
            >(DrawArgsError::VertexCountOverflow),
            vertex_range.start <= u32::MAX && range_len(vertex_range) <= u32::MAX
                && instance_range.start > u32::MAX ==> r == Err::<Self, DrawArgsError>(
                DrawArgsError::FirstInstanceOverflow,
            ),
            vertex_range.start <= u32::MAX && range_len(vertex_range) <= u32::MAX
                && instance_range.start <= u32::MAX && range_len(instance_range) > u32::MAX ==> r
                == Err::<Self, DrawArgsError>(DrawArgsError::InstanceCountOverflow),
            r matches Ok(a) ==> {
                &&& a.first_vertex == vertex_range.start
                &&& a.vertex_count == range_len(vertex_range)
                &&& a.first_instance == instance_range.start
                &&& a.instance_count == range_len(instance_range)
            },
            r is Ok <==> (vertex_range.start <= u32::MAX && range_len(vertex_range) <= u32::MAX
                && instance_range.start <= u32::MAX && range_len(instance_range) <= u32::MAX),
    {
        let first_vertex = to_u32(vertex_range.start, DrawArgsError::FirstVertexOverflow)?;
        let vertex_count = to_u32(
            range_len_exec(&vertex_range),
            DrawArgsError::VertexCountOverflow,
        )?;
        let first_instance = to_u32(instance_range.start, DrawArgsError::FirstInstanceOverflow)?;
        let instance_count = to_u32(
            range_len_exec(&instance_range),
            DrawArgsError::InstanceCountOverflow,
        )?;
        Ok(DrawIndirectArgs { first_vertex, vertex_count, first_instance, instance_count })
    }

    fn vertex_range(&self) -> (r: Result<Range<u32>, DrawArgsError>)
        ensures
            self.first_vertex + self.vertex_count <= u32::MAX ==> (r matches Ok(o) && o.start
                == self.first_vertex && o.end == self.first_vertex + self.vertex_count),
            self.first_vertex + self.vertex_count > u32::MAX ==> r == Err::<
                Range<u32>,
                DrawArgsError,
            >(DrawArgsError::VertexRangeOverflow),
    {
        match self.first_vertex.checked_add(self.vertex_count) {
            Some(end) => Ok(self.first_vertex..end),
            None => Err(DrawArgsError::VertexRangeOverflow),
        }
    }

    fn instance_range(&self) -> (r: Result<Range<u32>, DrawArgsError>)
        ensures
            self.first_instance + self.instance_count <= u32::MAX ==> (r matches Ok(o) && o.start
                == self.first_instance && o.end == self.first_instance + self.instance_count),
            self.first_instance + self.instance_count > u32::MAX ==> r == Err::<
                Range<u32>,
                DrawArgsError,
            >(DrawArgsError::InstanceRangeOverflow),
    {
        match self.first_instance.checked_add(self.instance_count) {
            Some(end) => Ok(self.first_instance..end),
            None => Err(DrawArgsError::InstanceRangeOverflow),
        }
    }
}

/// Indexed draw arguments from and to a vertex offset and ranges of indices and instances.
pub trait DrawIndexedIndirectRanges: Sized {
    fn try_from_offset_ranges(
        vertex_offset: isize,
        index_range: Range<usize>,
        instance_range: Range<usize>,
    ) -> Result<Self, DrawArgsError>;

    fn index_range(&self) -> Result<Range<u32>, DrawArgsError>;

    fn instance_range(&self) -> Result<Range<u32>, DrawArgsError>;
}

impl DrawIndexedIndirectRanges for DrawIndexedIndirectArgs {
    fn try_from_offset_ranges(
        vertex_offset: isize,
        index_range: Range<usize>,
        instance_range: Range<usize>,
    ) -> (r: Result<Self, DrawArgsError>)
        ensures
            (vertex_offset < i32::MIN || vertex_offset > i32::MAX) ==> r == Err::<
                Self,
                DrawArgsError,
            >(DrawArgsError::IndexedBaseVertexOverflow),
            i32::MIN <= vertex_offset <= i32::MAX && index_range.start > u32::MAX ==> r == Err::<
                Self,
                DrawArgsError,
            >(DrawArgsError::IndexedFirstIndexOverflow),
            i32::MIN <= vertex_offset <= i32::MAX && index_range.start <= u32::MAX && range_len(
                index_range,
            ) > u32::MAX ==> r == Err::<Self, DrawArgsError>(
                DrawArgsError::IndexedIndexCountOverflow,
            ),
            i32::MIN <= vertex_offset <= i32::MAX && index_range.start <= u32::MAX && range_len(
                index_range,
            ) <= u32::MAX && instance_range.start > u32::MAX ==> r == Err::<Self, DrawArgsError>(
                DrawArgsError::IndexedFirstInstanceOverflow,
            ),
            i32::MIN <= vertex_offset <= i32::MAX && index_range.start <= u32::MAX && range_len(
                index_range,
            ) <= u32::MAX && instance_range.start <= u32::MAX && range_len(instance_range)
                > u32::MAX ==> r == Err::<Self, DrawArgsError>(
                DrawArgsError::IndexedInstanceCountOverflow,
            ),
            r matches Ok(a) ==> {
                &&& a.base_vertex == vertex_offset
                &&& a.first_index == index_range.start
                &&& a.index_count == range_len(index_range)
                &&& a.first_instance == instance_range.start
                &&& a.instance_count == range_len(instance_range)
            },
            r is Ok <==> (i32::MIN <= vertex_offset <= i32::MAX && index_range.start <= u32::MAX
                && range_len(index_range) <= u32::MAX && instance_range.start <= u32::MAX
                && range_len(instance_range) <= u32::MAX),
    {
        if vertex_offset < -0x8000_0000isize || vertex_offset > 0x7fff_ffffisize {
            return Err(DrawArgsError::IndexedBaseVertexOverflow);
        }
        let base_vertex = vertex_offset as i32;
        let first_index = to_u32(index_range.start, DrawArgsError::IndexedFirstIndexOverflow)?;
        let index_count = to_u32(
            range_len_exec(&index_range),
            DrawArgsError::IndexedIndexCountOverflow,
        )?;
        let first_instance = to_u32(
            instance_range.start,
            DrawArgsError::IndexedFirstInstanceOverflow,
        )?;
        let instance_count = to_u32(
            range_len_exec(&instance_range),
            DrawArgsError::IndexedInstanceCountOverflow,
        )?;
        Ok(
            DrawIndexedIndirectArgs {
                base_vertex,
                first_index,
                index_count,
                first_instance,
                instance_count,
            },
        )
    }

    fn index_range(&self) -> (r: Result<Range<u32>, DrawArgsError>)
        ensures
            self.first_index + self.index_count <= u32::MAX ==> (r matches Ok(o) && o.start
                == self.first_index && o.end == self.first_index + self.index_count),
            self.first_index + self.index_count > u32::MAX ==> r == Err::<
                Range<u32>,
                DrawArgsError,
            >(DrawArgsError::IndexedIndexRangeOverflow),
    {
        match self.first_index.checked_add(self.index_count) {
            Some(end) => Ok(self.first_index..end),
            None => Err(DrawArgsError::IndexedIndexRangeOverflow),
        }
    }

    fn instance_range(&self) -> (r: Result<Range<u32>, DrawArgsError>)
        ensures
            self.first_instance + self.instance_count <= u32::MAX ==> (r matches Ok(o) && o.start
                == self.first_instance && o.end == self.first_instance + self.instance_count),
            self.first_instance + self.instance_count > u32::MAX ==> r == Err::<
                Range<u32>,
                DrawArgsError,
            >(DrawArgsError::IndexedInstanceRangeOverflow),
    {
        match self.first_instance.checked_add(self.instance_count) {
            Some(end) => Ok(self.first_instance..end),
            None => Err(DrawArgsError::IndexedInstanceRangeOverflow),
        }
    }
}

// laws

/// Resolved bounds lie within the outer range.
pub proof fn law_map_into_within(bounds: (Bound<u64>, Bound<u64>), range: Range<u64>)
    requires
        bounds.admissible(),
    ensures
        bounds.resolved(range) matches Ok(o) ==> range.start <= o.start && o.end <= range.end,
{
}

/// Resolved bounds lie within the outer range (over `usize`s).
pub proof fn law_map_into_within_usize(bounds: (Bound<usize>, Bound<usize>), range: Range<usize>)
    requires
        bounds.admissible(),
    ensures
        bounds.resolved(range) matches Ok(o) ==> range.start <= o.start && o.end <= range.end,
{
}

/// An excluded end bound up to the outer range's end, with a start bound that
/// lies in the outer range, resolves to a range ending there; the start is the
/// bound's first index.
pub proof fn law_map_into_excluded_end(bounds: (Bound<u64>, Bound<u64>), range: Range<u64>, e: u64)
    requires
        bounds.admissible(),
        bounds.1 == Bound::Excluded(e),
        e <= range.end,
        (match bounds.0 {
            Bound::Included(s) => range.start <= s,
            Bound::Excluded(s) => range.start <= s + 1,
            Bound::Unbounded => true,
        }),
    ensures
        bounds.resolved(range) matches Ok(o) && o.end == e && o.start == (match bounds.0 {
            Bound::Included(s) => s as int,
            Bound::Excluded(s) => s + 1,
            Bound::Unbounded => range.start as int,
        }),
{
}

/// A range resolved within itself is itself.
pub proof fn law_map_into_whole_range(a: u64, b: u64)
    ensures
        (Bound::Included(a), Bound::Excluded(b)).resolved(Range { start: a, end: b }) == Ok::<
            Range<u64>,
            RangeError<u64>,
        >(Range { start: a, end: b }),
{
}

/// An excluded end bound up to the outer range's end, with a start bound that
/// lies in the outer range, resolves to a range ending there (over `usize`s).
pub proof fn law_map_into_excluded_end_usize(
    bounds: (Bound<usize>, Bound<usize>),
    range: Range<usize>,
    e: usize,
)
    requires
        bounds.admissible(),
        bounds.1 == Bound::Excluded(e),
        e <= range.end,
        (match bounds.0 {
            Bound::Included(s) => range.start <= s,
            Bound::Excluded(s) => range.start <= s + 1,
            Bound::Unbounded => true,
        }),
    ensures
        bounds.resolved(range) matches Ok(o) && o.end == e && o.start == (match bounds.0 {
            Bound::Included(s) => s as int,
            Bound::Excluded(s) => s + 1,
            Bound::Unbounded => range.start as int,
        }),
{
}

/// A range of `usize`s resolved within itself is itself.
pub proof fn law_map_into_whole_range_usize(a: usize, b: usize)
    ensures
        (Bound::Included(a), Bound::Excluded(b)).resolved(Range { start: a, end: b }) == Ok::<
            Range<usize>,
            RangeError<usize>,
        >(Range { start: a, end: b }),
{
}

/// A start bound whose first index lies before the outer range is refused with
/// that bound and the outer range; else an end bound past the outer range's end
/// (an included last index at or after it, an excluded end after it) is refused
/// with that bound and the outer range; else an included last index `e` resolves
/// to a range ending at `e + 1`.
pub proof fn law_map_into_refusals(bounds: (Bound<u64>, Bound<u64>), range: Range<u64>)
    requires
        bounds.admissible(),
    ensures
        (match bounds.0 {
            Bound::Included(s) => s < range.start,
            Bound::Excluded(s) => s + 1 < range.start,
            Bound::Unbounded => false,
        }) ==> bounds.resolved(range) == Err::<Range<u64>, RangeError<u64>>(
            RangeError::StartOutOfRange { bound: bounds.0, start: range.start, end: range.end },
        ),
        (match bounds.0 {
            Bound::Included(s) => range.start <= s,
            Bound::Excluded(s) => range.start <= s + 1,
            Bound::Unbounded => true,
        }) ==> {
            &&& (match bounds.1 {
                Bound::Included(e) => range.end <= e,
                Bound::Excluded(e) => range.end < e,
                Bound::Unbounded => false,
            }) ==> bounds.resolved(range) == Err::<Range<u64>, RangeError<u64>>(
                RangeError::EndOutOfRange { bound: bounds.1, start: range.start, end: range.end },
            )
            &&& bounds.1 matches Bound::Included(e) ==> (e < range.end ==> (bounds.resolved(
                range,
            ) matches Ok(o) && o.end == e + 1))
            &&& bounds.1 is Unbounded ==> (bounds.resolved(range) matches Ok(o) && o.end
                == range.end)
        },
{
}

/// A start bound whose first index lies before the outer range is refused with
/// that bound and the outer range; else an end bound past the outer range's end
/// (an included last index at or after it, an excluded end after it) is refused
/// with that bound and the outer range; else an included last index `e` resolves
/// to a range ending at `e + 1`.
pub proof fn law_map_into_refusals_usize(bounds: (Bound<usize>, Bound<usize>), range: Range<usize>)
    requires
        bounds.admissible(),
    ensures
        (match bounds.0 {
            Bound::Included(s) => s < range.start,
            Bound::Excluded(s) => s + 1 < range.start,
            Bound::Unbounded => false,
        }) ==> bounds.resolved(range) == Err::<Range<usize>, RangeError<usize>>(
            RangeError::StartOutOfRange { bound: bounds.0, start: range.start, end: range.end },
        ),
        (match bounds.0 {
            Bound::Included(s) => range.start <= s,
            Bound::Excluded(s) => range.start <= s + 1,
            Bound::Unbounded => true,
        }) ==> {
            &&& (match bounds.1 {
                Bound::Included(e) => range.end <= e,
                Bound::Excluded(e) => range.end < e,
                Bound::Unbounded => false,
            }) ==> bounds.resolved(range) == Err::<Range<usize>, RangeError<usize>>(
                RangeError::EndOutOfRange { bound: bounds.1, start: range.start, end: range.end },
            )
            &&& bounds.1 matches Bound::Included(e) ==> (e < range.end ==> (bounds.resolved(
                range,
            ) matches Ok(o) && o.end == e + 1))
            &&& bounds.1 is Unbounded ==> (bounds.resolved(range) matches Ok(o) && o.end
                == range.end)
        },
{
}

/// What `copy_extend` wrote reads back as the source, and what lay before the
/// offset stays.
pub proof fn law_copy_extend_reads_back<T>(v: Seq<T>, source: Seq<T>, offset: int)
    requires
        0 <= offset <= v.len(),
        offset < v.len() ==> offset + source.len() <= v.len(),
    ensures
        spec_copy_extend(v, source, offset).subrange(offset, offset + source.len()) == source,
        spec_copy_extend(v, source, offset).take(offset) == v.take(offset),
        spec_copy_extend(v, source, offset).len() == if offset + source.len() < v.len() {
            v.len() as int
        } else {
            offset + source.len()
        },
{
    let w = spec_copy_extend(v, source, offset);
    assert(w.subrange(offset, offset + source.len()) =~= source);
    assert(w.take(offset) =~= v.take(offset));
}

/// Draw arguments made from a range give that range back.
pub proof fn law_draw_range_round_trip(r: Range<usize>)
    requires
        r.start <= r.end,
    ensures
        r.start + range_len(r) == r.end,
{
}

} // verus!
