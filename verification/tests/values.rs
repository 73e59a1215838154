use cozo_core::data::bytes::{bytes_eq, bytes_lt, mismatch, push_all, push_be, read_be};
use cozo_core::data::codec::{encode_value_to_vec, push_value, read_value, read_whole_value};
use cozo_core::data::text::{push_text, read_text};
use cozo_core::data::value::{
    float_from_sort_key, int_from_sort_key, sort_key_of_float, sort_key_of_int, DataValue,
    EntityId,
};
use std::cmp::Ordering;

fn text(s: &str) -> DataValue {
    DataValue::Str(s.to_string())
}

fn float(x: f64) -> DataValue {
    DataValue::Float(x.to_bits())
}

#[test]
fn mismatch_is_length_of_common_prefix() {
    assert_eq!(mismatch(b"abcd", b"abxd"), 2);
    assert_eq!(mismatch(b"ab", b"abxd"), 2);
    assert_eq!(mismatch(b"", b"abxd"), 0);
    assert_eq!(mismatch(b"same", b"same"), 4);
}

#[test]
fn byte_strings_compare_lexicographically() {
    assert!(bytes_lt(b"a", b"b"));
    assert!(bytes_lt(b"a", b"ab"));
    assert!(bytes_lt(b"", b"a"));
    assert!(!bytes_lt(b"b", b"a"));
    assert!(!bytes_lt(b"ab", b"a"));
    assert!(!bytes_lt(b"a", b"a"));
    assert!(!bytes_lt(b"", b""));
    assert!(bytes_lt(&[0x00, 0xff], &[0x01]));
    assert!(bytes_eq(b"abc", b"abc"));
    assert!(!bytes_eq(b"abc", b"abd"));
    assert!(!bytes_eq(b"abc", b"ab"));
}

#[test]
fn big_endian_image_is_most_significant_byte_first() {
    let mut buf = vec![0xee];
    push_be(&mut buf, 0x0102_0304_0506_0708);
    assert_eq!(buf, vec![0xee, 1, 2, 3, 4, 5, 6, 7, 8]);
    assert_eq!(read_be(&buf, 1), 0x0102_0304_0506_0708);
    let mut max = Vec::new();
    push_be(&mut max, u64::MAX);
    assert_eq!(max, vec![0xff; 8]);
    assert_eq!(read_be(&max, 0), u64::MAX);
}

#[test]
fn big_endian_images_sort_like_the_integers() {
    let numbers = [0u64, 1, 255, 256, 65_535, 65_536, 1 << 32, (1 << 56) - 1, 1 << 56, u64::MAX];
    for x in numbers {
        for y in numbers {
            let mut a = Vec::new();
            push_be(&mut a, x);
            let mut b = Vec::new();
            push_be(&mut b, y);
            assert_eq!(bytes_lt(&a, &b), x < y);
            assert_eq!(bytes_eq(&a, &b), x == y);
        }
    }
}

#[test]
fn push_all_appends() {
    let mut buf = vec![1, 2];
    push_all(&mut buf, &[3, 4, 5]);
    assert_eq!(buf, vec![1, 2, 3, 4, 5]);
}

#[test]
fn text_is_escaped_and_terminated() {
    let mut buf = Vec::new();
    push_text(&mut buf, b"a\0b");
    assert_eq!(buf, vec![b'a', 0x00, 0xff, b'b', 0x00, 0x00]);
    let mut empty = Vec::new();
    push_text(&mut empty, b"");
    assert_eq!(empty, vec![0x00, 0x00]);
}

#[test]
fn text_is_read_back_with_its_end() {
    let mut buf = vec![9, 9];
    push_text(&mut buf, b"a\0b");
    buf.extend_from_slice(&[7, 7, 7]);
    assert_eq!(read_text(&buf, 2), Some((b"a\0b".to_vec(), 8)));
}

#[test]
fn text_without_end_mark_is_not_read() {
    assert_eq!(read_text(b"abc", 0), None);
    assert_eq!(read_text(&[b'a', 0x00], 0), None);
    assert_eq!(read_text(&[b'a', 0x00, 0x01], 0), None);
    assert_eq!(read_text(&[], 0), None);
}

#[test]
fn encoded_texts_sort_like_the_texts() {
    let texts: [&[u8]; 8] = [b"", b"\0", b"\0\0", b"\x01", b"a", b"a\0", b"a\x01", b"ab"];
    for x in texts {
        for y in texts {
            let mut a = Vec::new();
            push_text(&mut a, x);
            a.push(0xff);
            let mut b = Vec::new();
            push_text(&mut b, y);
            b.push(0x00);
            if x != y {
                assert_eq!(bytes_lt(&a, &b), x < y);
            }
        }
    }
}

#[test]
fn sort_key_of_int_shifts_by_two_to_the_63() {
    assert_eq!(sort_key_of_int(i64::MIN), 0);
    assert_eq!(sort_key_of_int(-1), 0x7fff_ffff_ffff_ffff);
    assert_eq!(sort_key_of_int(0), 0x8000_0000_0000_0000);
    assert_eq!(sort_key_of_int(1), 0x8000_0000_0000_0001);
    assert_eq!(sort_key_of_int(i64::MAX), u64::MAX);
    for i in [i64::MIN, -5, -1, 0, 1, 42, i64::MAX] {
        assert_eq!(int_from_sort_key(sort_key_of_int(i)), i);
    }
}

#[test]
fn sort_key_of_float_orders_the_bit_patterns() {
    assert_eq!(sort_key_of_float(0), 0x8000_0000_0000_0000);
    assert_eq!(sort_key_of_float(0x8000_0000_0000_0000), 0x7fff_ffff_ffff_ffff);
    assert_eq!(sort_key_of_float(u64::MAX), 0);
    assert_eq!(sort_key_of_float((1.0f64).to_bits()), 0xbff0_0000_0000_0000);
    let ascending = [f64::NEG_INFINITY, -2.5, -1.0, -0.0, 0.0, 1.0e-300, 1.0, 2.5, f64::INFINITY];
    for i in 0..ascending.len() {
        for j in 0..ascending.len() {
            let a = sort_key_of_float(ascending[i].to_bits());
            let b = sort_key_of_float(ascending[j].to_bits());
            assert_eq!(a < b, i < j);
        }
        let bits = ascending[i].to_bits();
        assert_eq!(float_from_sort_key(sort_key_of_float(bits)), bits);
    }
}

#[test]
fn each_type_has_its_encoding() {
    assert_eq!(encode_value_to_vec(&DataValue::Null), vec![0x01]);
    assert_eq!(encode_value_to_vec(&DataValue::Bool(false)), vec![0x02, 0]);
    assert_eq!(encode_value_to_vec(&DataValue::Bool(true)), vec![0x02, 1]);
    assert_eq!(encode_value_to_vec(&DataValue::Int(1)), vec![0x03, 0x80, 0, 0, 0, 0, 0, 0, 1]);
    assert_eq!(
        encode_value_to_vec(&DataValue::Int(-1)),
        vec![0x03, 0x7f, 0xff, 0xff, 0xff, 0xff, 0xff, 0xff, 0xff]
    );
    assert_eq!(encode_value_to_vec(&float(1.0)), vec![0x04, 0xbf, 0xf0, 0, 0, 0, 0, 0, 0]);
    assert_eq!(encode_value_to_vec(&text("ab")), vec![0x05, b'a', b'b', 0, 0]);
    assert_eq!(encode_value_to_vec(&text("")), vec![0x05, 0, 0]);
    assert_eq!(encode_value_to_vec(&text("\u{e9}")), vec![0x05, 0xc3, 0xa9, 0, 0]);
    assert_eq!(
        encode_value_to_vec(&DataValue::EnId(EntityId(0x0a0b))),
        vec![0x06, 0, 0, 0, 0, 0, 0, 0x0a, 0x0b]
    );
}

fn samples() -> Vec<DataValue> {
    vec![
        DataValue::Null,
        DataValue::Bool(false),
        DataValue::Bool(true),
        DataValue::Int(i64::MIN),
        DataValue::Int(-7),
        DataValue::Int(0),
        DataValue::Int(7),
        DataValue::Int(i64::MAX),
        float(f64::NEG_INFINITY),
        float(-1.5),
        float(0.0),
        float(2.5),
        float(f64::INFINITY),
        text(""),
        text("\0"),
        text("a"),
        text("a\0b"),
        text("ab"),
        text("b"),
        text("\u{e9}t\u{e9}"),
        DataValue::EnId(EntityId(0)),
        DataValue::EnId(EntityId(9)),
        DataValue::EnId(EntityId(u64::MAX)),
    ]
}

#[test]
fn every_value_is_read_back_as_written() {
    for v in samples() {
        let mut buf = vec![0xaa, 0xbb];
        push_value(&mut buf, &v);
        let end = buf.len();
        buf.extend_from_slice(&[0xcc, 0xdd]);
        assert_eq!(read_value(&buf, 2), Some((v.clone(), end)));
        let alone = encode_value_to_vec(&v);
        assert_eq!(read_whole_value(&alone, 0), Some(v));
    }
}

#[test]
fn malformed_values_are_not_read() {
    assert_eq!(read_value(&[], 0), None);
    assert_eq!(read_value(&[0x00], 0), None);
    assert_eq!(read_value(&[0x07], 0), None);
    assert_eq!(read_value(&[0x02], 0), None);
    assert_eq!(read_value(&[0x02, 2], 0), None);
    assert_eq!(read_value(&[0x03, 1, 2, 3, 4, 5, 6, 7], 0), None);
    assert_eq!(read_value(&[0x04, 1, 2, 3], 0), None);
    assert_eq!(read_value(&[0x06], 0), None);
    assert_eq!(read_value(&[0x05, b'a'], 0), None);
    assert_eq!(read_value(&[0x05, b'a', 0], 0), None);
    assert_eq!(read_whole_value(&[0x01, 0x01], 0), None);
}

#[test]
fn text_that_is_not_utf8_is_not_read() {
    assert_eq!(read_value(&[0x05, 0xff, 0, 0], 0), None);
    assert_eq!(read_value(&[0x05, 0xc3, 0, 0], 0), None);
    assert_eq!(read_value(&[0x05, 0xc3, 0xa9, 0, 0], 0), Some((text("\u{e9}"), 5)));
}

#[test]
fn values_are_ordered_by_type_then_within_the_type() {
    let ordered = samples();
    for i in 0..ordered.len() {
        for j in 0..ordered.len() {
            assert_eq!(ordered[i].compare(&ordered[j]), i.cmp(&j), "{:?} {:?}", ordered[i], ordered[j]);
            assert_eq!(ordered[i].less_than(&ordered[j]), i < j);
            assert_eq!(ordered[i].same(&ordered[j]), i == j);
        }
    }
}

#[test]
fn encoded_values_sort_like_the_values() {
    let ordered = samples();
    for i in 0..ordered.len() {
        for j in 0..ordered.len() {
            let mut a = encode_value_to_vec(&ordered[i]);
            a.push(0xff);
            let mut b = encode_value_to_vec(&ordered[j]);
            b.push(0x00);
            if i != j {
                assert_eq!(bytes_lt(&a, &b), i < j);
            }
        }
    }
}

#[test]
fn null_sorts_before_boolean_before_integer_before_float_before_text() {
    let null = DataValue::Null;
    let boolean = DataValue::Bool(true);
    let integer = DataValue::Int(i64::MIN);
    let fl = float(f64::NEG_INFINITY);
    let tx = text("");
    let id = DataValue::EnId(EntityId(0));
    assert_eq!(null.compare(&boolean), Ordering::Less);
    assert_eq!(boolean.compare(&integer), Ordering::Less);
    assert_eq!(integer.compare(&fl), Ordering::Less);
    assert_eq!(fl.compare(&tx), Ordering::Less);
    assert_eq!(tx.compare(&id), Ordering::Less);
    assert_eq!(id.compare(&null), Ordering::Greater);
    assert_eq!(null.compare(&DataValue::Null), Ordering::Equal);
}
