use wgx::buffer_helper::{
    buffer_range, byte_range, Bound, CopyExtend, DrawArgsError, DrawIndexedIndirectArgs,
    DrawIndexedIndirectRanges, DrawIndirectArgs, DrawIndirectRanges, MapIntoRange, MapRange,
    RangeError, TryToRange,
};
use wgx::byte_slice::{check_alignment, check_constraints, check_length, Error};
use wgx::vec_buffer::{buffer_write_offset, write_into_vec, VecBuffer};
use wgx::vertex_buffer::VertexBuffer;

#[test]
fn ranges_convert_when_they_fit() {
    let r: Result<std::ops::Range<u32>, _> = (3u64..7u64).try_to();
    assert_eq!(r.unwrap(), 3..7);
    let r: Result<std::ops::Range<u32>, _> = (3u64..(u32::MAX as u64 + 1)).try_to();
    assert!(r.is_err());
    let r: Result<std::ops::Range<u32>, _> = (1usize..2usize).try_to();
    assert_eq!(r.unwrap(), 1..2);
    let r: Result<std::ops::Range<usize>, _> = (4u64..9u64).try_to();
    assert_eq!(r.unwrap(), 4..9);
    let r: Result<std::ops::Range<u64>, _> = (4usize..9usize).try_to();
    assert_eq!(r.unwrap(), 4..9);
}

#[test]
fn map_range_maps_both_ends() {
    assert_eq!((2u32..5u32).map_range(|x| x as u64 * 10), 20..50);
}

#[test]
fn map_into_resolves_bounds_within_the_range() {
    let outer = 10u64..20u64;
    assert_eq!((Bound::Unbounded, Bound::Unbounded).map_into(outer.clone()), Ok(10..20));
    assert_eq!((Bound::Included(12), Bound::Excluded(15)).map_into(outer.clone()), Ok(12..15));
    assert_eq!((Bound::Excluded(12), Bound::Included(15)).map_into(outer.clone()), Ok(13..16));
    assert_eq!(
        (Bound::Included(9), Bound::Unbounded).map_into(outer.clone()),
        Err(RangeError::StartOutOfRange { bound: Bound::Included(9), start: 10, end: 20 })
    );
    assert_eq!(
        (Bound::Unbounded, Bound::Included(20)).map_into(outer.clone()),
        Err(RangeError::EndOutOfRange { bound: Bound::Included(20), start: 10, end: 20 })
    );
    assert_eq!(
        (Bound::Unbounded, Bound::Excluded(21)).map_into(outer),
        Err(RangeError::EndOutOfRange { bound: Bound::Excluded(21), start: 10, end: 20 })
    );
}

#[test]
fn map_into_error_messages() {
    // (0..=10).map_into(0..10) and (1..4).map_into(2..10)
    let e = (Bound::Included(0usize), Bound::Included(10usize)).map_into(0usize..10).unwrap_err();
    assert_eq!(e.message(), "end Included(10) is out of range 0..10");
    let e = (Bound::Included(1usize), Bound::Excluded(4usize)).map_into(2usize..10).unwrap_err();
    assert_eq!(e.message(), "start Included(1) is out of range 2..10");
    let e = (Bound::Excluded(1u64), Bound::Unbounded).map_into(3u64..5).unwrap_err();
    assert_eq!(e.message(), "start Excluded(1) is out of range 3..5");
    assert_eq!((Bound::Unbounded, Bound::Excluded(4usize)).map_into(1usize..9), Ok(1..4));
}

#[test]
fn byte_ranges_scale_by_the_item_size() {
    assert_eq!(byte_range::<u32>(2..5), 8..20);
    assert_eq!(buffer_range::<[f32; 3]>(1..3), 12..36);
}

#[test]
fn copy_extend_appends_at_the_end() {
    let mut v = vec![1u8, 2, 3];
    assert_eq!(v.copy_extend(&[4, 5], None), 3..5);
    assert_eq!(v, vec![1, 2, 3, 4, 5]);
    assert_eq!(v.copy_extend(&[6], Some(5)), 5..6);
    assert_eq!(v, vec![1, 2, 3, 4, 5, 6]);
}

#[test]
fn copy_extend_overwrites_inside() {
    let mut v = vec![1u8, 2, 3, 4];
    assert_eq!(v.copy_extend(&[8, 9], Some(1)), 1..3);
    assert_eq!(v, vec![1, 8, 9, 4]);
    assert_eq!(&v[1..3], &[8, 9]);
}

#[test]
fn draw_args_from_ranges_and_back() {
    let args = DrawIndirectArgs::try_from_ranges(3..10, 1..4).unwrap();
    assert_eq!(
        args,
        DrawIndirectArgs { vertex_count: 7, instance_count: 3, first_vertex: 3, first_instance: 1 }
    );
    assert_eq!(args.vertex_range(), Ok(3..10));
    assert_eq!(args.instance_range(), Ok(1..4));

    assert_eq!(
        DrawIndirectArgs::try_from_ranges(0..(u32::MAX as usize + 2), 0..1),
        Err(DrawArgsError::VertexCountOverflow)
    );
    assert_eq!(
        DrawIndirectArgs::try_from_ranges(0..1, (u32::MAX as usize + 1)..(u32::MAX as usize + 2)),
        Err(DrawArgsError::FirstInstanceOverflow)
    );
    let wide = DrawIndirectArgs { vertex_count: 2, instance_count: 1, first_vertex: u32::MAX, first_instance: 0 };
    assert_eq!(wide.vertex_range(), Err(DrawArgsError::VertexRangeOverflow));
    assert_eq!(DrawArgsError::VertexRangeOverflow.message(), "DrawIndirect vertex range overflow");
}

#[test]
fn indexed_draw_args_from_ranges_and_back() {
    let args = DrawIndexedIndirectArgs::try_from_offset_ranges(-5, 2..6, 0..1).unwrap();
    assert_eq!(args.base_vertex, -5);
    assert_eq!(args.index_count, 4);
    assert_eq!(args.index_range(), Ok(2..6));
    assert_eq!(args.instance_range(), Ok(0..1));
    assert_eq!(
        DrawIndexedIndirectArgs::try_from_offset_ranges(i32::MAX as isize + 1, 0..1, 0..1),
        Err(DrawArgsError::IndexedBaseVertexOverflow)
    );
    let reversed = DrawIndexedIndirectArgs::try_from_offset_ranges(0, 5..2, 0..0).unwrap();
    assert_eq!(reversed.index_count, 0);
}

#[test]
fn byte_slice_checks() {
    assert_eq!(check_alignment::<u32>(8, "u32"), Ok(4));
    assert_eq!(
        check_alignment::<u32>(6, "u32"),
        Err(Error::AlignmentMismatch { dst_type: "u32", dst_minimum_alignment: 4 })
    );
    assert_eq!(check_length::<u32>(&[0u8; 8], "u32"), Ok(4));
    assert_eq!(
        check_length::<u32>(&[0u8; 7], "u32"),
        Err(Error::LengthMismatch { dst_type: "u32", src_slice_size: 7, dst_type_size: 4 })
    );
    assert_eq!(check_constraints::<u32>(&[], 3, "u32"), Ok(0));
    assert_eq!(check_constraints::<u32>(&[0u8; 12], 16, "u32"), Ok(3));
    assert!(matches!(
        check_constraints::<u32>(&[0u8; 12], 17, "u32"),
        Err(Error::AlignmentMismatch { .. })
    ));
    assert!(matches!(
        check_constraints::<u32>(&[0u8; 10], 16, "u32"),
        Err(Error::LengthMismatch { .. })
    ));
    assert_eq!(Error::LengthMismatch { dst_type: "u32", src_slice_size: 1, dst_type_size: 4 }.description(), "Length Mismatch");
    let data = &[1u8, 2, 3][..];
    assert_eq!(
        check_constraints::<[u8; 2]>(data, data.as_ptr() as usize, "[u8; 2]"),
        Err(Error::LengthMismatch { dst_type: "[u8; 2]", src_slice_size: 3, dst_type_size: 2 })
    );
    assert_eq!(
        check_constraints::<u32>(&[0u8; 8], 6, "u32"),
        Err(Error::AlignmentMismatch { dst_type: "u32", dst_minimum_alignment: 4 })
    );
}

#[test]
fn write_into_vec_overwrites_and_grows() {
    let mut v = vec![1, 2, 3];
    write_into_vec(&mut v, 2, &[7, 8, 9]);
    assert_eq!(v, vec![1, 2, 7, 8, 9]);
    let mut w = vec![1, 2, 3, 4];
    write_into_vec(&mut w, 1, &[5]);
    assert_eq!(w, vec![1, 5, 3, 4]);
    assert_eq!(buffer_write_offset::<u64>(Bound::Included(3)), 24);
    assert_eq!(buffer_write_offset::<u64>(Bound::Excluded(3)), 32);
    assert_eq!(buffer_write_offset::<u64>(Bound::Unbounded), 0);
}

#[test]
fn vec_buffer_keeps_items() {
    let mut b: VecBuffer<u16, &str> = VecBuffer::new("gpu", 8);
    assert_eq!(b.size(), 8);
    assert_eq!(*b.buffer(), "gpu");
    assert_eq!(b.write_vertices(None, &[1, 2, 3]), 3);
    b.write_vertex(Some(1), &9);
    b.write_vertex(None, &4);
    assert_eq!(b.data(), &vec![1, 9, 3, 4]);
    assert_eq!(b.len(), 4);
    b.clear(Some(2));
    assert_eq!(b.data(), &vec![1, 9]);
    b.clear(None);
    assert_eq!(b.len(), 0);
}

#[test]
fn vertex_buffer_keeps_items() {
    let mut b: VertexBuffer<u8, u32> = VertexBuffer::new(7, 16);
    assert_eq!(b.max_size(), 16);
    assert_eq!(*b.buffer(), 7);
    assert_eq!(b.write_vertices(None, &[1, 2]), 2);
    assert_eq!(b.write_vertices(Some(1), &[5, 6, 7]), 3);
    assert_eq!(b.data(), &vec![1, 5, 6, 7]);
    b.clear(Some(10));
    assert_eq!(b.len(), 4);
    b.clear(Some(1));
    assert_eq!(b.data(), &vec![1]);
}

#[test]
fn byte_slice_error_messages() {
    let e = check_alignment::<u32>(6, "u32").unwrap_err();
    assert_eq!(
        e.message(),
        "cannot cast a &[u8] into a &[u32]: the slice's address is not divisible by the minimum alignment (4) of u32"
    );
    assert_eq!(e.description(), "Alignment Mismatch");
    let e = check_length::<u32>(&[0u8; 7], "u32").unwrap_err();
    assert_eq!(
        e.message(),
        "cannot cast a &[u8] into a &[u32]: the size (7) of the slice is not divisible by the size (4) of u32"
    );
    assert_eq!(wgx::byte_slice::decimal_text(0), "0");
    assert_eq!(wgx::byte_slice::decimal_text(1234567890), "1234567890");
    assert_eq!(wgx::byte_slice::decimal_text(usize::MAX), usize::MAX.to_string());
}
