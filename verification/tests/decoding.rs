use reveng::endianness::Endianness;
use reveng::from_bytes::FromBytes;
use reveng::read::{DecodeError, ReadExt, Readable, Record};
use reveng::readables::{
    FixedString, LengthedString, NullString, Padding, WideFixedString, WideLengthedString,
    WideNullString,
};
use reveng::readers::{MemRead, ToMemReader};

fn mem(bytes: &[u8]) -> MemRead {
    MemRead::new(bytes.to_vec())
}

#[test]
fn unsigned_round_trip_all_widths_little() {
    assert_eq!(u8::from_bytes(&[0xAB], Endianness::Little), 0xAB);
    assert_eq!(u16::from_bytes(&[0x01, 0x02], Endianness::Little), 0x0201);
    assert_eq!(
        u32::from_bytes(&[0xEF, 0xBE, 0xAD, 0xDE], Endianness::Little),
        0xDEADBEEF
    );
    assert_eq!(
        u64::from_bytes(&[1, 2, 3, 4, 5, 6, 7, 8], Endianness::Little),
        0x0807060504030201
    );
    let bytes: Vec<u8> = (1..=16).collect();
    assert_eq!(
        u128::from_bytes(&bytes, Endianness::Little),
        0x100F0E0D0C0B0A090807060504030201
    );
}

#[test]
fn unsigned_round_trip_all_widths_big() {
    assert_eq!(u8::from_bytes(&[0xAB], Endianness::Big), 0xAB);
    assert_eq!(u16::from_bytes(&[0x01, 0x02], Endianness::Big), 0x0102);
    assert_eq!(
        u32::from_bytes(&[0xDE, 0xAD, 0xBE, 0xEF], Endianness::Big),
        0xDEADBEEF
    );
    assert_eq!(
        u64::from_bytes(&[1, 2, 3, 4, 5, 6, 7, 8], Endianness::Big),
        0x0102030405060708
    );
    let bytes: Vec<u8> = (1..=16).collect();
    assert_eq!(
        u128::from_bytes(&bytes, Endianness::Big),
        0x0102030405060708090A0B0C0D0E0F10
    );
}

#[test]
fn signed_round_trip_all_widths() {
    assert_eq!(i8::from_bytes(&[0xFF], Endianness::Little), -1);
    assert_eq!(i8::from_bytes(&[0x7F], Endianness::Big), 127);
    assert_eq!(i16::from_bytes(&[0xFE, 0xFF], Endianness::Little), -2);
    assert_eq!(i16::from_bytes(&[0x80, 0x00], Endianness::Big), i16::MIN);
    assert_eq!(
        i32::from_bytes(&[0xFF, 0xFF, 0xFF, 0xFF], Endianness::Little),
        -1
    );
    assert_eq!(
        i32::from_bytes(&[0x7F, 0xFF, 0xFF, 0xFF], Endianness::Big),
        i32::MAX
    );
    assert_eq!(
        i64::from_bytes(&(-2i64).to_le_bytes(), Endianness::Little),
        -2
    );
    assert_eq!(
        i64::from_bytes(&(-2i64).to_be_bytes(), Endianness::Big),
        -2
    );
    assert_eq!(
        i128::from_bytes(&(-123456789i128).to_le_bytes(), Endianness::Little),
        -123456789
    );
    assert_eq!(
        i128::from_bytes(&i128::MIN.to_be_bytes(), Endianness::Big),
        i128::MIN
    );
}

#[test]
fn native_order_matches_platform() {
    let bytes = [0x01u8, 0x02];
    assert_eq!(
        u16::from_bytes(&bytes, Endianness::Native),
        u16::from_ne_bytes(bytes)
    );
    let wide = [0x11u8, 0x22, 0x33, 0x44];
    assert_eq!(
        u32::from_bytes(&wide, Endianness::Native),
        u32::from_ne_bytes(wide)
    );
}

#[test]
fn one_byte_types_ignore_order() {
    for order in [Endianness::Little, Endianness::Native, Endianness::Big] {
        assert_eq!(u8::from_bytes(&[0x9C], order), 0x9C);
        assert_eq!(i8::from_bytes(&[0x9C], order), -100);
    }
}

#[test]
fn endianness_default_is_native() {
    assert_eq!(Endianness::default(), Endianness::Native);
}

#[test]
fn aggregate_size_is_sum_of_members() {
    assert_eq!(<(u16, u8)>::size(), 3);
    assert_eq!(<(u32, (u16, u8))>::size(), 7);
    assert_eq!(<()>::size(), 0);
    assert_eq!(<(Padding<3>, u8)>::size(), 4);
}

#[test]
fn aggregate_decodes_members_from_their_own_slices() {
    let bytes = [0x01u8, 0x02, 0x03];
    let (a, b): (u16, u8) = <(u16, u8)>::from_bytes(&bytes, Endianness::Little);
    assert_eq!(a, 0x0201);
    assert_eq!(b, 0x03);
    let (x, (y, z)): (u16, (u8, u8)) =
        <(u16, (u8, u8))>::from_bytes(&[0xAA, 0xBB, 0xCC, 0xDD], Endianness::Big);
    assert_eq!(x, 0xAABB);
    assert_eq!(y, 0xCC);
    assert_eq!(z, 0xDD);
}

#[test]
fn empty_record_decodes_from_empty_slice() {
    let bytes: [u8; 0] = [];
    <()>::from_bytes(&bytes, Endianness::Little);
    assert_eq!(<()>::size(), 0);
}

#[test]
fn fixed_size_types_stream_through_bridge() {
    let mut source = mem(&[0xEF, 0xBE, 0xAD, 0xDE, 0x99]);
    let v: u32 = u32::read_from(&mut source, Endianness::Little).unwrap();
    assert_eq!(v, 0xDEADBEEF);
    let tail: u8 = u8::read_from(&mut source, Endianness::Little).unwrap();
    assert_eq!(tail, 0x99);
}

#[test]
fn short_read_is_hard_truncation_error() {
    let mut source = mem(&[0x01, 0x02]);
    let r: Result<u32, DecodeError> = u32::read_from(&mut source, Endianness::Little);
    assert_eq!(r.unwrap_err(), DecodeError::Truncated);
}

#[test]
fn streaming_record_decodes_in_declared_order() {
    let mut source = mem(&[0x07, 0x41, 0x42, 0x00, 0x2A]);
    let Record(first, Record(name, last)): Record<u8, Record<NullString, u8>> =
        Record::read_from(&mut source, Endianness::Little).unwrap();
    assert_eq!(first, 0x07);
    assert_eq!(name.0, "AB");
    assert_eq!(last, 0x2A);
}

#[test]
fn streaming_record_propagates_first_error() {
    let mut source = mem(&[0x01]);
    let r: Result<Record<u16, u8>, DecodeError> =
        Record::read_from(&mut source, Endianness::Little);
    assert_eq!(r.unwrap_err(), DecodeError::Truncated);
}

#[test]
fn null_string_stops_at_zero_byte() {
    let mut source = mem(&[0x41, 0x42, 0x00, 0xFF]);
    let s: NullString = NullString::read_from(&mut source, Endianness::Little).unwrap();
    assert_eq!(s.0, "AB");
    let next: u8 = u8::read_from(&mut source, Endianness::Little).unwrap();
    assert_eq!(next, 0xFF);
}

#[test]
fn null_string_without_terminator_reads_to_end() {
    let mut source = mem(&[0x68, 0x69]);
    let s: NullString = NullString::read_from(&mut source, Endianness::Little).unwrap();
    assert_eq!(s.0, "hi");
    let r: Result<u8, DecodeError> = u8::read_from(&mut source, Endianness::Little);
    assert!(r.is_err());
}

#[test]
fn null_string_bytes_are_their_own_characters() {
    let mut source = mem(&[0xE9, 0x00]);
    let s: NullString = NullString::read_from(&mut source, Endianness::Little).unwrap();
    assert_eq!(s.0, "\u{E9}");
}

#[test]
fn wide_null_string_stops_at_zero_unit() {
    let mut source = mem(&[0x41, 0x00, 0x42, 0x00, 0x00, 0x00, 0x43]);
    let s: WideNullString = WideNullString::read_from(&mut source, Endianness::Little).unwrap();
    assert_eq!(s.0, "AB");
    let next: u8 = u8::read_from(&mut source, Endianness::Little).unwrap();
    assert_eq!(next, 0x43);
}

#[test]
fn wide_null_string_big_endian_units() {
    let mut source = mem(&[0x00, 0x41, 0x00, 0x42, 0x00, 0x00]);
    let s: WideNullString = WideNullString::read_from(&mut source, Endianness::Big).unwrap();
    assert_eq!(s.0, "AB");
}

#[test]
fn wide_null_string_lone_surrogate_is_replaced() {
    let mut source = mem(&[0x00, 0xD8, 0x00, 0x00]);
    let s: WideNullString = WideNullString::read_from(&mut source, Endianness::Little).unwrap();
    assert_eq!(s.0, "\u{FFFD}");
}

#[test]
fn wide_null_string_odd_tail_stops_without_error() {
    let mut source = mem(&[0x41, 0x00, 0x42]);
    let s: WideNullString = WideNullString::read_from(&mut source, Endianness::Little).unwrap();
    assert_eq!(s.0, "A");
}

#[test]
fn fixed_string_keeps_trailing_padding() {
    let s: FixedString<4> = FixedString::from_bytes(&[0x41, 0x42, 0x00, 0x00], Endianness::Little);
    assert_eq!(s.0, "AB\0\0");
}

#[test]
fn fixed_string_replaces_invalid_utf8() {
    let s: FixedString<3> = FixedString::from_bytes(&[0x41, 0xFF, 0x42], Endianness::Little);
    assert_eq!(s.0, "A\u{FFFD}B");
}

#[test]
fn wide_fixed_string_little_endian() {
    let s: WideFixedString<2> =
        WideFixedString::from_bytes(&[0x41, 0x00, 0x42, 0x00], Endianness::Little);
    assert_eq!(s.0, "AB");
}

#[test]
fn wide_fixed_string_combines_surrogate_pairs() {
    // U+1F600 as the UTF-16 pair D83D DE00, little-endian.
    let s: WideFixedString<2> =
        WideFixedString::from_bytes(&[0x3D, 0xD8, 0x00, 0xDE], Endianness::Little);
    assert_eq!(s.0, "\u{1F600}");
}

#[test]
fn wide_fixed_string_size_counts_bytes() {
    assert_eq!(<WideFixedString<5>>::size(), 10);
}

#[test]
fn lengthed_string_reads_declared_count() {
    let mut source = mem(&[0x03, b'x', b'y', b'z', 0x77]);
    let s: LengthedString<u8, 4> =
        LengthedString::read_from(&mut source, Endianness::Little).unwrap();
    assert_eq!(s.0, "xyz");
    let next: u8 = u8::read_from(&mut source, Endianness::Little).unwrap();
    assert_eq!(next, 0x77);
}

#[test]
fn lengthed_string_over_bound_fails_whatever_follows() {
    let mut source = mem(&[0x05, b'a', b'b', b'c', b'd', b'e']);
    let r: Result<LengthedString<u8, 4>, DecodeError> =
        LengthedString::read_from(&mut source, Endianness::Little);
    assert_eq!(
        r.unwrap_err(),
        DecodeError::LengthBound { length: 5, max: 4 }
    );
}

#[test]
fn lengthed_string_truncated_data_fails() {
    let mut source = mem(&[0x04, b'a', b'b']);
    let r: Result<LengthedString<u8, 16>, DecodeError> =
        LengthedString::read_from(&mut source, Endianness::Little);
    assert_eq!(r.unwrap_err(), DecodeError::Truncated);
}

#[test]
fn lengthed_string_wide_prefix_honors_order() {
    let mut source = mem(&[0x00, 0x02, b'o', b'k']);
    let s: LengthedString<u16, 8> =
        LengthedString::read_from(&mut source, Endianness::Big).unwrap();
    assert_eq!(s.0, "ok");
}

#[test]
fn lengthed_string_replaces_invalid_utf8() {
    let mut source = mem(&[0x02, 0xC3, 0x28]);
    let s: LengthedString<u8, 8> =
        LengthedString::read_from(&mut source, Endianness::Little).unwrap();
    assert_eq!(s.0, "\u{FFFD}(");
}

#[test]
fn lengthed_string_negative_prefix_counts_as_zero() {
    let mut source = mem(&[0xFF, b'a', b'b']);
    let s: LengthedString<i8, 8> =
        LengthedString::read_from(&mut source, Endianness::Little).unwrap();
    assert_eq!(s.0, "");
    let next: u8 = u8::read_from(&mut source, Endianness::Little).unwrap();
    assert_eq!(next, b'a');
}

#[test]
fn lengthed_string_signed_prefix_big_endian() {
    let mut source = mem(&[0x00, 0x03, b'c', b'a', b't']);
    let s: LengthedString<i16, 8> =
        LengthedString::read_from(&mut source, Endianness::Big).unwrap();
    assert_eq!(s.0, "cat");
}

#[test]
fn lengthed_string_wide_prefix_u32_little() {
    let mut source = mem(&[0x02, 0x00, 0x00, 0x00, b'n', b'o']);
    let s: LengthedString<u32, 64> =
        LengthedString::read_from(&mut source, Endianness::Little).unwrap();
    assert_eq!(s.0, "no");
}

#[test]
fn lengthed_string_truncated_prefix_fails() {
    let mut source = mem(&[0x01]);
    let r: Result<LengthedString<u16, 8>, DecodeError> =
        LengthedString::read_from(&mut source, Endianness::Little);
    assert_eq!(r.unwrap_err(), DecodeError::Truncated);
}

#[test]
fn wide_lengthed_string_counts_units_not_bytes() {
    let mut source = mem(&[0x02, 0x41, 0x00, 0x42, 0x00, 0x99]);
    let s: WideLengthedString<u8, 4> =
        WideLengthedString::read_from(&mut source, Endianness::Little).unwrap();
    assert_eq!(s.0, "AB");
    let next: u8 = u8::read_from(&mut source, Endianness::Little).unwrap();
    assert_eq!(next, 0x99);
}

#[test]
fn wide_lengthed_string_over_bound_fails() {
    let mut source = mem(&[0x03, 0x41, 0x00, 0x42, 0x00, 0x43, 0x00]);
    let r: Result<WideLengthedString<u8, 2>, DecodeError> =
        WideLengthedString::read_from(&mut source, Endianness::Little);
    assert_eq!(
        r.unwrap_err(),
        DecodeError::LengthBound { length: 3, max: 2 }
    );
}

#[test]
fn wide_lengthed_string_truncated_units_fail() {
    let mut source = mem(&[0x02, 0x41, 0x00, 0x42]);
    let r: Result<WideLengthedString<u8, 4>, DecodeError> =
        WideLengthedString::read_from(&mut source, Endianness::Little);
    assert_eq!(r.unwrap_err(), DecodeError::Truncated);
}

#[test]
fn padding_consumes_exactly_its_size() {
    let mut source = mem(&[0x09, 0x09, 0x07]);
    let _: Padding<2> = Padding::read_from(&mut source, Endianness::Little).unwrap();
    let next: u8 = u8::read_from(&mut source, Endianness::Little).unwrap();
    assert_eq!(next, 0x07);
}

#[test]
fn padding_in_aggregate_is_skipped() {
    let (_, v): (Padding<2>, u8) = <(Padding<2>, u8)>::from_bytes(&[0xAA, 0xBB, 0x05], Endianness::Big);
    assert_eq!(v, 0x05);
}

#[test]
fn padding_truncated_fails() {
    let mut source = mem(&[0x01]);
    let r: Result<Padding<4>, DecodeError> = Padding::read_from(&mut source, Endianness::Little);
    assert_eq!(r.unwrap_err(), DecodeError::Truncated);
}

#[test]
fn mem_read_reads_and_advances() {
    let mut source = mem(&[1, 2, 3, 4, 5]);
    let first: Vec<u8> = reveng::read::ByteSource::read(&mut source, 3);
    assert_eq!(first, vec![1, 2, 3]);
    let second: Vec<u8> = reveng::read::ByteSource::read(&mut source, 10);
    assert_eq!(second, vec![4, 5]);
    let third: Vec<u8> = reveng::read::ByteSource::read(&mut source, 1);
    assert!(third.is_empty());
}

#[test]
fn mem_read_set_offset_repositions() {
    let mut source = mem(&[10, 20, 30, 40]);
    source.set_offset(2);
    let got: Vec<u8> = reveng::read::ByteSource::read(&mut source, 2);
    assert_eq!(got, vec![30, 40]);
    source.set_offset(100);
    let past_end: Vec<u8> = reveng::read::ByteSource::read(&mut source, 4);
    assert!(past_end.is_empty());
    source.set_offset(0);
    let again: Vec<u8> = reveng::read::ByteSource::read(&mut source, 1);
    assert_eq!(again, vec![10]);
}

#[test]
fn mem_read_with_offset_starts_there() {
    let source = MemRead::with_offset(vec![5, 6, 7], 1);
    let mut source = source;
    let got: Vec<u8> = reveng::read::ByteSource::read(&mut source, 5);
    assert_eq!(got, vec![6, 7]);
}

#[test]
fn to_mem_reader_wraps_buffer() {
    let mut source = vec![0x2A, 0x00].to_mem_reader();
    let v: u16 = u16::read_from(&mut source, Endianness::Little).unwrap();
    assert_eq!(v, 42);
}

#[test]
fn read_object_entry_point() {
    let mut source = mem(&[0x10, 0x20, 0x41, 0x00]);
    let v: u16 = source.read_object(Endianness::Big).unwrap();
    assert_eq!(v, 0x1020);
    let s: NullString = source.read_object(Endianness::Big).unwrap();
    assert_eq!(s.0, "A");
}
