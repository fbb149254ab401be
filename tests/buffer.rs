use sds::handle::Sds;
use sds::owned::SdsString;
use sds::raw::RawSds;
use sds::view::SdsStr;
use std::cmp::Ordering;

#[test]
fn test_sdsnewlen() {
    let expected = "He\0llo\0 wo\0\0rld!\0";
    let raw = RawSds::new_len(expected.as_bytes());
    let actual = std::str::from_utf8(raw.as_bytes()).unwrap();
    assert_eq!(expected, actual);
}

#[test]
fn sdsnewlen() {
    let expected = "He\0llo\0 wo\0\0rld!\0";
    let sds = SdsString::new(expected.as_bytes());
    let actual = std::str::from_utf8(sds.as_bytes()).unwrap();
    assert_eq!(expected, actual);
}

#[test]
fn round_trip_bytes() {
    let cases: Vec<Vec<u8>> = vec![
        vec![],
        b"foo".to_vec(),
        vec![0, 1, 2, 255, 0],
        (0..=255u8).collect(),
        vec![7u8; 70000],
    ];
    for b in cases {
        let s = SdsString::new(&b);
        assert_eq!(s.len(), b.len());
        assert_eq!(s.into_bytes(), b);
    }
}

#[test]
fn nul_after_payload_at_every_step() {
    let mut s = SdsString::new(b"abc");
    assert_eq!(s.as_bytes_with_nul(), b"abc\0");
    s.reserve(10);
    assert_eq!(s.as_bytes_with_nul(), b"abc\0");
    s.push_bytes(b"de");
    assert_eq!(s.as_bytes_with_nul(), b"abcde\0");
    s.set_byte(0, b'z');
    assert_eq!(s.as_bytes_with_nul(), b"zbcde\0");
    s.shrink_to_fit();
    assert_eq!(s.as_bytes_with_nul(), b"zbcde\0");
    s.clear();
    assert_eq!(s.as_bytes_with_nul(), b"\0");
}

#[test]
fn reserve_keeps_length() {
    let mut s = SdsString::new(b"abcdef");
    s.reserve(1000);
    assert!(s.capacity() >= 1006);
    assert_eq!(s.len(), 6);
    assert_eq!(s.as_bytes(), b"abcdef");
}

#[test]
fn reserve_zero_is_noop() {
    let mut s = SdsString::new(b"abc");
    s.reserve(0);
    assert_eq!(s.capacity(), 3);
}

#[test]
fn growth_doubles_capacity() {
    let mut s = SdsString::new(b"abcd");
    s.reserve(1);
    assert_eq!(s.capacity(), 8);
    let mut t = SdsString::new(b"abcd");
    t.reserve(10);
    assert_eq!(t.capacity(), 14);
}

#[test]
fn growth_past_threshold_adds_half() {
    let big = vec![1u8; 0x20_0000];
    let mut s = SdsString::new(&big);
    s.reserve(1);
    assert_eq!(s.capacity(), 0x30_0000);
    assert_eq!(s.len(), 0x20_0000);
}

#[test]
fn appending_one_byte_at_a_time_reallocates_rarely() {
    let mut s = SdsString::new(b"");
    let mut reallocs = 0;
    let mut last = s.capacity();
    for i in 0..5000u32 {
        s.push_bytes(&[(i % 251) as u8]);
        if s.capacity() != last {
            reallocs += 1;
            last = s.capacity();
        }
    }
    assert_eq!(s.len(), 5000);
    // 5000 <= 2^13
    assert!(reallocs <= 2 * 13 + 1);
    assert_eq!(reallocs, 14);
}

#[test]
fn transfer_out_and_back() {
    let mut s = SdsString::new(b"hand\0off");
    s.reserve(20);
    let cap = s.capacity();
    let raw = s.into_raw();
    let block = raw.into_block();
    let back = SdsString::from_raw(RawSds::from_block(block));
    assert_eq!(back.as_bytes(), b"hand\0off");
    assert_eq!(back.len(), 8);
    assert_eq!(back.capacity(), cap);
}

#[test]
fn into_raw_exposes_payload_then_nul() {
    let s = SdsString::new(b"foo");
    let raw = s.into_raw();
    assert_eq!(raw.as_bytes_with_nul(), b"foo\0");
    let s = SdsString::from_raw(raw);
    assert_eq!(s.as_bytes(), b"foo");
}

#[test]
fn validation_reports_offset() {
    let s = SdsString::new(b"foo\xffbar");
    let err = s.into_string().err().expect("invalid text");
    assert_eq!(err.utf8_error().valid_up_to(), 3);
    assert_eq!(err.into_sdsstring().as_bytes(), b"foo\xffbar");
    let ok = SdsString::new(b"foo").into_string().expect("valid text");
    assert_eq!(ok, "foo");
}

#[test]
fn into_string_error_offset_one() {
    let s = SdsString::new(b"f\xffoo");
    let err = s.into_string().err().expect("invalid text");
    assert_eq!(err.utf8_error().valid_up_to(), 1);
}

#[test]
fn validation_rejects_overlong_surrogate_truncated() {
    let overlong = SdsString::new(b"ab\xc0\xaf");
    assert_eq!(overlong.as_sds_str().to_str().unwrap_err().valid_up_to(), 2);
    let surrogate = SdsString::new(b"x\xed\xa0\x80");
    assert_eq!(surrogate.as_sds_str().to_str().unwrap_err().valid_up_to(), 1);
    let truncated = SdsString::new(b"ok\xe2\x82");
    assert_eq!(truncated.as_sds_str().to_str().unwrap_err().valid_up_to(), 2);
    let multi = SdsString::new("h\u{e9}\u{20ac}\u{1f600}".as_bytes());
    assert_eq!(multi.as_sds_str().to_str().unwrap(), "h\u{e9}\u{20ac}\u{1f600}");
}

#[test]
fn embedded_nul_preserved() {
    let input = [0x66u8, 0x00, 0x6F, 0x6F];
    let s = SdsString::new(&input);
    assert_eq!(s.len(), 4);
    assert_eq!(s.as_bytes(), &input);
    let with_nul = s.as_bytes_with_nul();
    assert_eq!(with_nul.len(), 5);
    assert_eq!(with_nul[4], 0);
    assert_eq!(with_nul[1], 0);
}

#[test]
fn equality_ignores_capacity() {
    let a = SdsString::new(b"same");
    let mut b = SdsString::new(b"same");
    b.reserve(64);
    assert!(b.capacity() > a.capacity());
    assert!(a == b);
    b.shrink_to_fit();
    assert!(a == b);
    assert!(a != SdsString::new(b"other"));
}

#[test]
fn hello_scenario() {
    let mut s = SdsString::new(b"Hello");
    assert_eq!(s.len(), 5);
    s.reserve(100);
    assert!(s.capacity() >= 105);
    assert_eq!(s.len(), 5);
    assert_eq!(s.as_bytes(), b"Hello");
    s.shrink_to_fit();
    assert_eq!(s.capacity(), 5);
    assert_eq!(s.as_bytes(), b"Hello");
}

#[test]
fn header_class_follows_capacity() {
    let small = RawSds::new_len(&[b'a'; 200]).into_block();
    assert_eq!(small[0], 1);
    assert_eq!(small.len(), 3 + 200 + 1);
    assert_eq!(small[1], 200);
    let medium = RawSds::new_len(&[b'a'; 300]).into_block();
    assert_eq!(medium[0], 2);
    assert_eq!(medium.len(), 5 + 300 + 1);
    assert_eq!(&medium[1..5], &[0x2c, 0x01, 0x2c, 0x01]);
    let grown = RawSds::new_len(&[b'a'; 200]).make_room_for(100);
    assert_eq!(grown.capacity(), 400);
    assert_eq!(grown.len(), 200);
    let block = grown.into_block();
    assert_eq!(block[0], 2);
    let trimmed = RawSds::from_block(block).remove_free_space();
    assert_eq!(trimmed.capacity(), 200);
    assert_eq!(trimmed.into_block()[0], 1);
}

#[test]
fn raw_set_len_and_avail() {
    let mut raw = RawSds::new_len(b"hello").make_room_for(3);
    assert_eq!(raw.avail(), raw.capacity() - 5);
    raw.set_len(2);
    assert_eq!(raw.as_bytes_with_nul(), b"he\0");
    let raw = raw.cat_len(b"\0x");
    assert_eq!(raw.as_bytes(), b"he\0x");
    let copy = raw.dup();
    assert_eq!(copy.as_bytes(), raw.as_bytes());
}

#[test]
fn view_from_bytes_until_nul() {
    let v = SdsStr::from_bytes_until_nul(b"ab\0cd\0").unwrap();
    assert_eq!(v.as_bytes(), b"ab");
    assert_eq!(v.len(), 2);
    let e = SdsStr::from_bytes_until_nul(b"abc").unwrap_err();
    assert_eq!(e.input_len(), 3);
}

#[test]
fn view_from_bytes_with_nul() {
    let v = SdsStr::from_bytes_with_nul(b"a\0b\0").unwrap();
    assert_eq!(v.as_bytes(), b"a\0b");
    assert_eq!(v.as_bytes_with_nul(), b"a\0b\0");
    assert!(SdsStr::from_bytes_with_nul(b"ab").is_err());
    assert_eq!(SdsStr::from_bytes_with_nul(b"").unwrap_err().input_len(), 0);
}

#[test]
fn view_accessors() {
    let s = SdsString::new(b"hello");
    let v = s.as_sds_str();
    assert_eq!(v.len(), 5);
    assert!(!v.is_empty());
    assert_eq!(v.to_str().unwrap(), "hello");
    assert_eq!(v.slice_from(2).as_bytes_with_nul(), b"llo\0");
    let owned = v.into_sds_string();
    assert!(owned == s);
    let empty: SdsStr<'static> = SdsStr::default();
    assert!(empty.is_empty());
    assert_eq!(empty.as_bytes_with_nul(), b"\0");
}

#[test]
fn view_lossy() {
    let s = SdsString::new(b"foo\xffbar");
    assert_eq!(s.as_sds_str().to_string_lossy(), "foo\u{FFFD}bar");
    let t = SdsString::new(b"plain");
    assert_eq!(t.as_sds_str().to_string_lossy(), "plain");
}

#[test]
fn view_ordering() {
    let a = SdsString::new(b"ab");
    let b = SdsString::new(b"ab\0");
    let c = SdsString::new(b"b");
    assert_eq!(a.as_sds_str().compare(&b.as_sds_str()), Ordering::Less);
    assert_eq!(c.as_sds_str().compare(&a.as_sds_str()), Ordering::Greater);
    assert_eq!(a.as_sds_str().compare(&a.as_sds_str()), Ordering::Equal);
    assert!(a.as_sds_str() != b.as_sds_str());
}

#[test]
fn into_bytes_variants() {
    assert_eq!(SdsString::new(b"foo").into_bytes(), b"foo".to_vec());
    assert_eq!(SdsString::new(b"foo").into_bytes_with_nul(), b"foo\0".to_vec());
    assert_eq!(SdsString::new(b"foo").as_bytes_with_nul(), b"foo\0");
}

#[test]
fn c_str_stops_at_first_nul() {
    let s = SdsString::new(b"foo\0bar");
    assert_eq!(s.as_c_str(), b"foo");
    let t = SdsString::new(b"plain");
    assert_eq!(t.as_c_str(), b"plain");
}

#[test]
fn from_vec_with_nul_policy() {
    let s = SdsString::from_vec_with_nul(b"foo\0bar\0".to_vec()).unwrap();
    assert!(s == SdsString::new(b"foo\0bar"));
    assert!(SdsString::from_vec_with_nul(b"foo".to_vec()).is_err());
    assert!(SdsString::from_vec_with_nul(Vec::new()).is_err());
    let u = SdsString::from_vec_with_nul_unchecked(b"foo\0bar\0".to_vec());
    assert!(u == SdsString::new(b"foo\0bar"));
}

#[test]
fn clone_allocates_equal_copy() {
    let mut a = SdsString::new(b"xy");
    let b = a.clone();
    a.set_byte(0, b'q');
    assert_eq!(b.as_bytes(), b"xy");
    assert_eq!(a.as_bytes(), b"qy");
}

#[test]
fn handle_lifecycle() {
    let mut h = Sds::new();
    assert_eq!(h.as_bytes(), b"");
    assert_eq!(h.capacity(), 0);
    let raw = SdsString::new(b"a\0b").into_raw();
    h = Sds::from_raw(raw);
    assert_eq!(h.as_bytes(), b"a\0b");
    assert_eq!(h.as_c_str(), b"a");
    h.clear();
    assert_eq!(h.as_bytes_with_nul(), b"\0");
    assert_eq!(h.capacity(), 3);
    let raw = h.into_raw();
    assert_eq!(raw.len(), 0);
}

#[test]
fn description_text() {
    let err = SdsString::new(b"\xff").into_string().err().unwrap();
    assert_eq!(err.description(), "SDS string contained non-utf8 bytes");
}

#[test]
fn view_unchecked_and_operators() {
    let v = SdsStr::from_bytes_with_nul_unchecked(b"a\0b\0");
    assert_eq!(v.as_bytes(), b"a\0b");
    let x = SdsStr::from_bytes_with_nul(b"abc\0").unwrap();
    let y = SdsStr::from_bytes_with_nul(b"abd\0").unwrap();
    assert!(x < y);
    assert!(y > x);
    assert_eq!(x.partial_cmp(&x), Some(Ordering::Equal));
}

#[test]
fn view_of_raw_block_payload() {
    let raw = RawSds::empty();
    assert_eq!(raw.len(), 0);
    assert_eq!(raw.capacity(), 0);
    assert_eq!(raw.into_block(), vec![1, 0, 0, 0]);
}
