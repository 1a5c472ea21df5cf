use ber_encode::{
    encode_int, included, select_width, write_int, Bound, IntRange, RangeError, Width,
};

fn closed(start: i128, end: i128) -> IntRange {
    IntRange::closed(start, end)
}

fn half_open(start: i128, end: i128) -> IntRange {
    IntRange::half_open(start, end)
}

fn encoded(value: isize, bounds: IntRange) -> Vec<u8> {
    let mut buffer = Vec::new();
    assert_eq!(encode_int(&mut buffer, value, bounds), Ok(()));
    buffer
}

fn written(value: isize, width: Width) -> Vec<u8> {
    let mut buffer = Vec::new();
    write_int(&mut buffer, value, width);
    buffer
}

#[test]
fn one_byte_for_a_range_up_to_255() {
    assert_eq!(encoded(200, closed(0, 255)), vec![0xC8]);
}

#[test]
fn two_bytes_for_a_range_up_to_65535() {
    assert_eq!(encoded(300, closed(0, 65535)), vec![0x01, 0x2C]);
}

#[test]
fn four_bytes_for_a_range_up_to_4294967295() {
    assert_eq!(encoded(65536, closed(0, 4294967295)), vec![0x00, 0x01, 0x00, 0x00]);
}

#[test]
fn eight_bytes_for_a_range_up_to_18446744073709551615() {
    assert_eq!(
        encoded(0x0102_0304, closed(0, 18446744073709551615)),
        vec![0x00, 0x00, 0x00, 0x00, 0x01, 0x02, 0x03, 0x04]
    );
}

#[test]
fn the_range_decides_the_width_and_the_value_does_not() {
    for value in [0isize, 1, 255, 256, 70000, -1] {
        assert_eq!(encoded(value, closed(0, 255)).len(), 1);
        assert_eq!(encoded(value, closed(0, 256)).len(), 2);
        assert_eq!(encoded(value, closed(0, 65536)).len(), 4);
        assert_eq!(encoded(value, closed(0, 4294967296)).len(), 8);
    }
}

#[test]
fn a_value_beyond_the_width_is_cut_to_its_low_bytes() {
    assert_eq!(encoded(0x1234, closed(0, 255)), vec![0x34]);
    assert_eq!(encoded(0x12345, closed(0, 65535)), vec![0x23, 0x45]);
    assert_eq!(encoded(-1, closed(0, 255)), vec![0xFF]);
}

#[test]
fn unsigned_thresholds() {
    assert_eq!(select_width(closed(0, 0)), Ok(Width::U8));
    assert_eq!(select_width(closed(0, 255)), Ok(Width::U8));
    assert_eq!(select_width(closed(0, 256)), Ok(Width::U16));
    assert_eq!(select_width(closed(0, 65535)), Ok(Width::U16));
    assert_eq!(select_width(closed(0, 65536)), Ok(Width::U32));
    assert_eq!(select_width(closed(0, 4294967295)), Ok(Width::U32));
    assert_eq!(select_width(closed(0, 4294967296)), Ok(Width::U64));
    assert_eq!(select_width(closed(0, 18446744073709551615)), Ok(Width::U64));
    assert_eq!(select_width(closed(0, 18446744073709551616)), Err(RangeError::TooWide));
    assert_eq!(select_width(closed(7, 9)), Ok(Width::U8));
    assert_eq!(select_width(closed(1000, 9)), Ok(Width::U8));
}

#[test]
fn an_exclusive_end_counts_as_one_less() {
    assert_eq!(select_width(half_open(0, 256)), Ok(Width::U8));
    assert_eq!(select_width(half_open(0, 257)), Ok(Width::U16));
    assert_eq!(select_width(half_open(0, 65536)), Ok(Width::U16));
    assert_eq!(select_width(half_open(0, 65537)), Ok(Width::U32));
    assert_eq!(select_width(half_open(0, 4294967296)), Ok(Width::U32));
    assert_eq!(select_width(half_open(0, 4294967297)), Ok(Width::U64));
    assert_eq!(select_width(half_open(0, 18446744073709551616)), Ok(Width::U64));
    assert_eq!(select_width(half_open(0, 18446744073709551617)), Err(RangeError::TooWide));
    assert_eq!(select_width(half_open(0, 0)), Ok(Width::U8));
    assert_eq!(select_width(half_open(0, i128::MIN)), Ok(Width::U8));
    assert_eq!(encoded(200, half_open(0, 256)), vec![0xC8]);
}

#[test]
fn signed_thresholds() {
    assert_eq!(select_width(closed(-1, 0)), Ok(Width::I8));
    assert_eq!(select_width(closed(-128, 127)), Ok(Width::I8));
    assert_eq!(select_width(closed(-129, 127)), Ok(Width::I16));
    assert_eq!(select_width(closed(-128, 128)), Ok(Width::I16));
    assert_eq!(select_width(closed(-1, 255)), Ok(Width::I16));
    assert_eq!(select_width(closed(-32768, 32767)), Ok(Width::I16));
    assert_eq!(select_width(closed(-32769, 0)), Ok(Width::I32));
    assert_eq!(select_width(closed(-1, 32768)), Ok(Width::I32));
    assert_eq!(select_width(closed(-2147483648, 2147483647)), Ok(Width::I32));
    assert_eq!(select_width(closed(-2147483649, 0)), Ok(Width::I64));
    assert_eq!(select_width(closed(-1, 2147483648)), Ok(Width::I64));
    assert_eq!(
        select_width(closed(-9223372036854775808, 9223372036854775807)),
        Ok(Width::I64)
    );
    assert_eq!(select_width(closed(-9223372036854775809, 0)), Err(RangeError::TooWide));
    assert_eq!(select_width(closed(-1, 9223372036854775808)), Err(RangeError::TooWide));
    assert_eq!(select_width(half_open(-1, 128)), Ok(Width::I8));
    assert_eq!(select_width(half_open(-1, 129)), Ok(Width::I16));
}

#[test]
fn an_exclusive_start_counts_as_one_less() {
    let from = |start: i128| IntRange { start: Bound::Excluded(start), end: Bound::Included(100) };
    assert_eq!(select_width(from(1)), Ok(Width::U8));
    assert_eq!(select_width(from(0)), Ok(Width::I8));
    assert_eq!(select_width(from(-127)), Ok(Width::I8));
    assert_eq!(select_width(from(-128)), Ok(Width::I16));
    assert_eq!(select_width(from(i128::MIN)), Err(RangeError::TooWide));
}

#[test]
fn a_range_without_an_end_selects_nothing() {
    let bounds = IntRange { start: Bound::Included(0), end: Bound::Unbounded };
    assert_eq!(select_width(bounds), Err(RangeError::Unbounded));
    let mut buffer = vec![0x55];
    assert_eq!(encode_int(&mut buffer, 7, bounds), Err(RangeError::Unbounded));
    assert_eq!(buffer, vec![0x55]);
    let signed = IntRange { start: Bound::Included(-5), end: Bound::Unbounded };
    assert_eq!(select_width(signed), Err(RangeError::Unbounded));
}

#[test]
fn a_range_without_a_start_selects_nothing() {
    let bounds = IntRange { start: Bound::Unbounded, end: Bound::Included(100) };
    assert_eq!(select_width(bounds), Err(RangeError::Unbounded));
    let open = IntRange { start: Bound::Unbounded, end: Bound::Unbounded };
    assert_eq!(select_width(open), Err(RangeError::Unbounded));
    let wide = IntRange { start: Bound::Unbounded, end: Bound::Included(i128::MAX) };
    assert_eq!(select_width(wide), Err(RangeError::Unbounded));
    let mut buffer = Vec::new();
    assert_eq!(encode_int(&mut buffer, 7, bounds), Err(RangeError::Unbounded));
    assert!(buffer.is_empty());
}

#[test]
fn a_range_too_wide_writes_nothing() {
    let mut buffer = vec![0x55];
    assert_eq!(
        encode_int(&mut buffer, 7, closed(0, i128::MAX)),
        Err(RangeError::TooWide)
    );
    assert_eq!(
        encode_int(&mut buffer, 7, closed(i128::MIN, 0)),
        Err(RangeError::TooWide)
    );
    assert_eq!(buffer, vec![0x55]);
}

#[test]
fn signed_values_are_written_in_twos_complement() {
    assert_eq!(encoded(-1, closed(-128, 127)), vec![0xFF]);
    assert_eq!(encoded(-128, closed(-128, 127)), vec![0x80]);
    assert_eq!(encoded(127, closed(-128, 127)), vec![0x7F]);
    assert_eq!(encoded(-2, closed(-129, 127)), vec![0xFF, 0xFE]);
    assert_eq!(encoded(-32768, closed(-32768, 32767)), vec![0x80, 0x00]);
    assert_eq!(encoded(-65536, closed(-70000, 70000)), vec![0xFF, 0xFF, 0x00, 0x00]);
    assert_eq!(
        encoded(-2, closed(-3000000000, 0)),
        vec![0xFF, 0xFF, 0xFF, 0xFF, 0xFF, 0xFF, 0xFF, 0xFE]
    );
}

#[test]
fn every_layout_writes_its_count_of_bytes() {
    assert_eq!(written(0x12, Width::U8), vec![0x12]);
    assert_eq!(written(0x12, Width::I8), vec![0x12]);
    assert_eq!(written(0x1234, Width::U16), vec![0x12, 0x34]);
    assert_eq!(written(0x1234, Width::I16), vec![0x12, 0x34]);
    assert_eq!(written(0x1234_5678, Width::U32), vec![0x12, 0x34, 0x56, 0x78]);
    assert_eq!(written(0x1234_5678, Width::I32), vec![0x12, 0x34, 0x56, 0x78]);
    assert_eq!(
        written(0x1234_5678, Width::U64),
        vec![0x00, 0x00, 0x00, 0x00, 0x12, 0x34, 0x56, 0x78]
    );
    assert_eq!(written(-1, Width::I64), vec![0xFF; 8]);
    assert_eq!(written(-1, Width::U64), vec![0xFF; 8]);
    assert_eq!(written(-256, Width::I16), vec![0xFF, 0x00]);
    assert_eq!(written(isize::MIN, Width::I8), vec![0x00]);
}

#[test]
fn the_extremes_of_isize_in_eight_bytes() {
    let most = written(isize::MAX, Width::I64);
    let least = written(isize::MIN, Width::I64);
    assert_eq!(most, (isize::MAX as i64).to_be_bytes().to_vec());
    assert_eq!(least, (isize::MIN as i64).to_be_bytes().to_vec());
}

#[test]
fn inclusive_limits() {
    assert_eq!(included(Bound::Included(5)), Some(5));
    assert_eq!(included(Bound::Included(-5)), Some(-5));
    assert_eq!(included(Bound::Excluded(5)), Some(4));
    assert_eq!(included(Bound::Excluded(0)), Some(-1));
    assert_eq!(included(Bound::Excluded(i128::MAX)), Some(i128::MAX - 1));
    assert_eq!(included(Bound::Included(i128::MIN)), Some(i128::MIN));
    assert_eq!(included(Bound::Excluded(i128::MIN + 1)), Some(i128::MIN));
    assert_eq!(included(Bound::Excluded(i128::MIN)), Some(i128::MIN));
    assert_eq!(included(Bound::Unbounded), None);
}

#[test]
fn integer_is_appended_behind_what_is_there() {
    let mut buffer = vec![0x02, 0x02];
    assert_eq!(encode_int(&mut buffer, 300, closed(0, 65535)), Ok(()));
    assert_eq!(encode_int(&mut buffer, 5, closed(0, 10)), Ok(()));
    assert_eq!(buffer, vec![0x02, 0x02, 0x01, 0x2C, 0x05]);
}

#[test]
fn integer_twice_on_fresh_buffers_is_the_same() {
    for (value, bounds) in [(200isize, closed(0, 255)), (-3, closed(-10, 10)), (9, closed(0, 1 << 40))] {
        assert_eq!(encoded(value, bounds), encoded(value, bounds));
    }
}

#[test]
fn ranges_are_built_from_their_limits() {
    assert_eq!(
        IntRange::closed(-3, 7),
        IntRange { start: Bound::Included(-3), end: Bound::Included(7) }
    );
    assert_eq!(
        IntRange::half_open(-3, 7),
        IntRange { start: Bound::Included(-3), end: Bound::Excluded(7) }
    );
}

#[test]
fn a_layout_tells_its_count_of_bytes() {
    let layouts = [
        (Width::U8, 1usize),
        (Width::I8, 1),
        (Width::U16, 2),
        (Width::I16, 2),
        (Width::U32, 4),
        (Width::I32, 4),
        (Width::U64, 8),
        (Width::I64, 8),
    ];
    for (width, count) in layouts {
        assert_eq!(width.bytes(), count);
        assert_eq!(written(-1, width).len(), count);
    }
}
