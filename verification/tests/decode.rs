use powerstats::bundle::{
    is_length_prefixed, parcel_read_string, parcel_read_string8, parcel_read_value,
    parcel_read_value_type, register_creator, Bundle, CreatorRegistry, Object,
    ParcelableCreator, ParcelableInstance, VAL_BOOLEANARRAY, VAL_LONGARRAY, VAL_MAP,
    VAL_PARCELABLEARRAY, VAL_STRING,
};
use powerstats::cursor::Cursor;
use powerstats::error::DecodeError;
use powerstats::android_os_powerstatsservice::{PowerMonitor, PowerMonitorType};

fn push_i32(b: &mut Vec<u8>, v: i32) {
    b.extend_from_slice(&v.to_le_bytes());
}

fn push_u32(b: &mut Vec<u8>, v: u32) {
    b.extend_from_slice(&v.to_le_bytes());
}

fn push_i64(b: &mut Vec<u8>, v: i64) {
    b.extend_from_slice(&v.to_le_bytes());
}

/// A plain length-prefixed string: byte length, UTF-8 bytes, zero padding
/// to the next word boundary.
fn push_plain_string(b: &mut Vec<u8>, s: &str) {
    let bytes = s.as_bytes();
    push_i32(b, bytes.len() as i32);
    b.extend_from_slice(bytes);
    while b.len() % 4 != 0 {
        b.push(0);
    }
}

/// A String8: length excluding the terminator, UTF-8 bytes, NUL, zero
/// padding so that exactly `4 * ceil((len + 1) / 4)` bytes follow the
/// length word.
fn push_string8(b: &mut Vec<u8>, s: &str) {
    let bytes = s.as_bytes();
    push_u32(b, bytes.len() as u32);
    b.extend_from_slice(bytes);
    b.push(0);
    while b.len() % 4 != 0 {
        b.push(0);
    }
}

fn string8_padded_size(len: usize) -> usize {
    ((len + 1) + 3) / 4 * 4
}

#[test]
fn length_prefixed_tag_subset() {
    assert!(is_length_prefixed(VAL_MAP));
    assert!(is_length_prefixed(VAL_PARCELABLEARRAY));
    assert!(!is_length_prefixed(VAL_LONGARRAY));
    assert!(!is_length_prefixed(VAL_BOOLEANARRAY));
    assert!(!is_length_prefixed(VAL_STRING));
}

#[test]
fn string8_round_trip_padding_remainders() {
    // lengths 0, 1, 3, 4 cover every padding remainder
    for s in ["", "A", "abc", "abcd"] {
        let mut buf = Vec::new();
        push_string8(&mut buf, s);
        let body = buf.len() - 4;
        assert_eq!(body, string8_padded_size(s.len()));
        buf.extend_from_slice(&[0xDE, 0xAD, 0xBE, 0xEF]);
        let mut cur = Cursor::new(buf);
        let got = parcel_read_string8(&mut cur).unwrap();
        assert_eq!(got, s);
        assert_eq!(cur.position(), 4 + body);
    }
}

#[test]
fn string8_missing_terminator() {
    let mut buf = Vec::new();
    push_u32(&mut buf, 3);
    buf.extend_from_slice(b"abc");
    buf.push(7); // where the NUL belongs
    let mut cur = Cursor::new(buf);
    assert_eq!(
        parcel_read_string8(&mut cur),
        Err(DecodeError::MissingTerminator)
    );
}

#[test]
fn string8_invalid_utf8() {
    let mut buf = Vec::new();
    push_u32(&mut buf, 1);
    buf.extend_from_slice(&[0xFF, 0x00, 0x00, 0x00]);
    let mut cur = Cursor::new(buf);
    assert_eq!(parcel_read_string8(&mut cur), Err(DecodeError::InvalidUtf8));
}

#[test]
fn string8_truncated() {
    let mut buf = Vec::new();
    push_u32(&mut buf, 5);
    buf.extend_from_slice(b"ab");
    let mut cur = Cursor::new(buf);
    assert_eq!(parcel_read_string8(&mut cur), Err(DecodeError::Truncated));
}

#[test]
fn plain_string_round_trip() {
    let mut buf = Vec::new();
    push_plain_string(&mut buf, "ids");
    assert_eq!(buf.len(), 8);
    let mut cur = Cursor::new(buf);
    assert_eq!(parcel_read_string(&mut cur).unwrap(), "ids");
    assert_eq!(cur.position(), 8);
}

#[test]
fn plain_string_negative_length() {
    let mut buf = Vec::new();
    push_i32(&mut buf, -1);
    let mut cur = Cursor::new(buf);
    assert_eq!(
        parcel_read_string(&mut cur),
        Err(DecodeError::NegativeLength(-1))
    );
}

#[test]
fn boolean_array_reads_words() {
    let reg = CreatorRegistry::new();
    let mut buf = Vec::new();
    push_i32(&mut buf, 3);
    push_i32(&mut buf, 1);
    push_i32(&mut buf, 0);
    push_i32(&mut buf, 5);
    let mut cur = Cursor::new(buf);
    let got = parcel_read_value(&mut cur, VAL_BOOLEANARRAY, &reg).unwrap();
    assert_eq!(got, Object::BooleanArray(vec![true, false, true]));
    assert_eq!(cur.position(), 16);
}

#[test]
fn boolean_array_count_too_large_is_null() {
    let reg = CreatorRegistry::new();
    let mut buf = Vec::new();
    push_i32(&mut buf, 5); // five words claimed, two present
    push_i32(&mut buf, 1);
    push_i32(&mut buf, 1);
    let mut cur = Cursor::new(buf);
    let got = parcel_read_value(&mut cur, VAL_BOOLEANARRAY, &reg).unwrap();
    assert_eq!(got, Object::Null);
    // only the count word was consumed; nothing out of bounds was touched
    assert_eq!(cur.position(), 4);
}

#[test]
fn boolean_array_negative_count_is_null() {
    let reg = CreatorRegistry::new();
    let mut buf = Vec::new();
    push_i32(&mut buf, -3);
    push_i32(&mut buf, 1);
    let mut cur = Cursor::new(buf);
    let got = parcel_read_value(&mut cur, VAL_BOOLEANARRAY, &reg).unwrap();
    assert_eq!(got, Object::Null);
    assert_eq!(cur.position(), 4);
}

#[test]
fn long_array_reads_values() {
    let reg = CreatorRegistry::new();
    let mut buf = Vec::new();
    push_i32(&mut buf, 2);
    push_i64(&mut buf, 7);
    push_i64(&mut buf, -42);
    let mut cur = Cursor::new(buf);
    let got = parcel_read_value(&mut cur, VAL_LONGARRAY, &reg).unwrap();
    assert_eq!(got, Object::LongArray(vec![7, -42]));
    assert_eq!(cur.position(), 20);
}

#[test]
fn long_array_negative_count_rejected() {
    let reg = CreatorRegistry::new();
    let mut buf = Vec::new();
    push_i32(&mut buf, -1);
    let mut cur = Cursor::new(buf);
    assert_eq!(
        parcel_read_value(&mut cur, VAL_LONGARRAY, &reg),
        Err(DecodeError::BadCount(-1))
    );
}

#[test]
fn long_array_truncated() {
    let reg = CreatorRegistry::new();
    let mut buf = Vec::new();
    push_i32(&mut buf, 2);
    push_i64(&mut buf, 7);
    let mut cur = Cursor::new(buf);
    assert_eq!(
        parcel_read_value(&mut cur, VAL_LONGARRAY, &reg),
        Err(DecodeError::Truncated)
    );
}

#[test]
fn unsupported_value_kind_carries_tag() {
    let reg = CreatorRegistry::new();
    let mut buf = Vec::new();
    push_i32(&mut buf, VAL_STRING);
    push_i32(&mut buf, 0);
    let mut cur = Cursor::new(buf);
    assert_eq!(
        parcel_read_value_type(&mut cur, &reg),
        Err(DecodeError::UnsupportedValueKind(VAL_STRING))
    );
}

#[test]
fn length_prefix_consumed_exactly() {
    let reg = CreatorRegistry::new();
    let mut buf = Vec::new();
    push_i32(&mut buf, VAL_PARCELABLEARRAY);
    push_i32(&mut buf, 4); // payload: just the element count
    push_i32(&mut buf, 0); // zero records
    let mut cur = Cursor::new(buf);
    let got = parcel_read_value_type(&mut cur, &reg).unwrap();
    assert_eq!(got, Object::ParcelableArray(vec![]));
    assert_eq!(cur.position(), 12);
}

#[test]
fn length_prefix_mismatch_fails() {
    let reg = CreatorRegistry::new();
    let mut buf = Vec::new();
    push_i32(&mut buf, VAL_PARCELABLEARRAY);
    push_i32(&mut buf, 8); // wrong: the payload occupies 4 bytes
    push_i32(&mut buf, 0);
    push_i32(&mut buf, 0); // filler the decoder must not swallow
    let mut cur = Cursor::new(buf);
    assert_eq!(
        parcel_read_value_type(&mut cur, &reg),
        Err(DecodeError::LengthMismatch)
    );
}

#[test]
fn unregistered_name_fails_lookup() {
    let reg = CreatorRegistry::new();
    let mut buf = Vec::new();
    push_i32(&mut buf, 1); // one record
    push_plain_string(&mut buf, "x");
    let mut cur = Cursor::new(buf);
    assert_eq!(
        parcel_read_value(&mut cur, VAL_PARCELABLEARRAY, &reg),
        Err(DecodeError::NameNotFound("x".to_owned()))
    );
}

#[test]
fn register_twice_last_wins() {
    let mut reg = CreatorRegistry::new();
    register_creator(&mut reg, "a".to_owned(), ParcelableCreator::PowerMonitor);
    register_creator(&mut reg, "a".to_owned(), ParcelableCreator::Opaque { words: 2 });
    assert_eq!(
        reg.lookup(&"a".to_owned()),
        Some(ParcelableCreator::Opaque { words: 2 })
    );
    register_creator(&mut reg, "a".to_owned(), ParcelableCreator::PowerMonitor);
    assert_eq!(
        reg.lookup(&"a".to_owned()),
        Some(ParcelableCreator::PowerMonitor)
    );
    assert_eq!(reg.lookup(&"b".to_owned()), None);
}

#[test]
fn record_array_of_power_monitors() {
    let mut reg = CreatorRegistry::new();
    register_creator(
        &mut reg,
        "android.os.PowerMonitor".to_owned(),
        ParcelableCreator::PowerMonitor,
    );
    let mut buf = Vec::new();
    push_i32(&mut buf, 1);
    push_plain_string(&mut buf, "android.os.PowerMonitor");
    push_i32(&mut buf, 3); // index
    push_i32(&mut buf, 1); // measurement
    push_string8(&mut buf, "[rail0]:GPU");
    let mut cur = Cursor::new(buf);
    let got = parcel_read_value(&mut cur, VAL_PARCELABLEARRAY, &reg).unwrap();
    assert_eq!(
        got,
        Object::ParcelableArray(vec![ParcelableInstance::PowerMonitor(PowerMonitor {
            index: 3,
            kind: PowerMonitorType::Measurement,
            name: "[rail0]:GPU".to_owned(),
        })])
    );
}

#[test]
fn unknown_monitor_kind_fails() {
    let mut reg = CreatorRegistry::new();
    register_creator(
        &mut reg,
        "android.os.PowerMonitor".to_owned(),
        ParcelableCreator::PowerMonitor,
    );
    let mut buf = Vec::new();
    push_i32(&mut buf, 1);
    push_plain_string(&mut buf, "android.os.PowerMonitor");
    push_i32(&mut buf, 0);
    push_i32(&mut buf, 9); // no such monitor kind
    push_string8(&mut buf, "x");
    let mut cur = Cursor::new(buf);
    assert_eq!(
        parcel_read_value(&mut cur, VAL_PARCELABLEARRAY, &reg),
        Err(DecodeError::UnknownMonitorKind(9))
    );
}

#[test]
fn opaque_creator_captures_raw_words() {
    let mut reg = CreatorRegistry::new();
    register_creator(&mut reg, "blob".to_owned(), ParcelableCreator::Opaque { words: 2 });
    let mut buf = Vec::new();
    push_i32(&mut buf, 1);
    push_plain_string(&mut buf, "blob");
    push_u32(&mut buf, 0x04030201);
    push_u32(&mut buf, 0x08070605);
    let mut cur = Cursor::new(buf);
    let got = parcel_read_value(&mut cur, VAL_PARCELABLEARRAY, &reg).unwrap();
    assert_eq!(
        got,
        Object::ParcelableArray(vec![ParcelableInstance::Opaque(vec![
            1, 2, 3, 4, 5, 6, 7, 8
        ])])
    );
}

#[test]
fn bundle_end_to_end_long_array() {
    let reg = CreatorRegistry::new();
    let mut buf = Vec::new();
    push_i32(&mut buf, 1); // presence
    push_i32(&mut buf, 40); // total length
    push_i32(&mut buf, 0x4C444E42); // magic
    push_i32(&mut buf, 1); // one entry
    push_plain_string(&mut buf, "ids");
    push_i32(&mut buf, VAL_LONGARRAY);
    push_i32(&mut buf, 2);
    push_i64(&mut buf, 7);
    push_i64(&mut buf, 42);
    let mut cur = Cursor::new(buf);
    let bundle = Bundle::deserialize(&mut cur, &reg).unwrap();
    assert!(!bundle.is_empty());
    assert_eq!(
        bundle.get(&"ids".to_owned()),
        Some(&Object::LongArray(vec![7, 42]))
    );
    assert_eq!(bundle.get(&"nope".to_owned()), None);
}

#[test]
fn bundle_zero_length_ignores_trailing_garbage() {
    let reg = CreatorRegistry::new();
    let mut buf = Vec::new();
    push_i32(&mut buf, 1); // presence
    push_i32(&mut buf, 0); // explicitly empty
    buf.extend_from_slice(&[0xDE, 0xAD, 0xBE, 0xEF, 0x01, 0x02, 0x03, 0x04]);
    let mut cur = Cursor::new(buf);
    let bundle = Bundle::deserialize(&mut cur, &reg).unwrap();
    assert!(bundle.is_empty());
    // the garbage was not consumed
    assert_eq!(cur.position(), 8);
}

#[test]
fn bundle_count_zero_empty_whatever_the_magic() {
    let reg = CreatorRegistry::new();
    for magic in [0x4C444E42, 0x4C444E44, 0] {
        let mut buf = Vec::new();
        push_i32(&mut buf, 1);
        push_i32(&mut buf, 8);
        push_i32(&mut buf, magic);
        push_i32(&mut buf, 0); // no entries
        let mut cur = Cursor::new(buf);
        let bundle = Bundle::deserialize(&mut cur, &reg).unwrap();
        assert!(bundle.is_empty());
    }
}

#[test]
fn bundle_bad_presence_flag() {
    let reg = CreatorRegistry::new();
    let mut buf = Vec::new();
    push_i32(&mut buf, 2);
    let mut cur = Cursor::new(buf);
    assert_eq!(
        Bundle::deserialize(&mut cur, &reg),
        Err(DecodeError::BadPresence(2))
    );
}

#[test]
fn bundle_negative_length() {
    let reg = CreatorRegistry::new();
    let mut buf = Vec::new();
    push_i32(&mut buf, 1);
    push_i32(&mut buf, -5);
    let mut cur = Cursor::new(buf);
    assert_eq!(
        Bundle::deserialize(&mut cur, &reg),
        Err(DecodeError::NegativeLength(-5))
    );
}

#[test]
fn bundle_negative_count() {
    let reg = CreatorRegistry::new();
    let mut buf = Vec::new();
    push_i32(&mut buf, 1);
    push_i32(&mut buf, 8);
    push_i32(&mut buf, 0);
    push_i32(&mut buf, -2);
    let mut cur = Cursor::new(buf);
    assert_eq!(
        Bundle::deserialize(&mut cur, &reg),
        Err(DecodeError::BadCount(-2))
    );
}

#[test]
fn bundle_truncated_header() {
    let reg = CreatorRegistry::new();
    let mut cur = Cursor::new(Vec::new());
    assert_eq!(
        Bundle::deserialize(&mut cur, &reg),
        Err(DecodeError::Truncated)
    );
}

#[test]
fn bundle_duplicate_key_last_wins() {
    let reg = CreatorRegistry::new();
    let mut buf = Vec::new();
    push_i32(&mut buf, 1);
    push_i32(&mut buf, 48);
    push_i32(&mut buf, 0);
    push_i32(&mut buf, 2); // the same key twice
    push_plain_string(&mut buf, "k");
    push_i32(&mut buf, VAL_LONGARRAY);
    push_i32(&mut buf, 1);
    push_i64(&mut buf, 1);
    push_plain_string(&mut buf, "k");
    push_i32(&mut buf, VAL_LONGARRAY);
    push_i32(&mut buf, 1);
    push_i64(&mut buf, 2);
    let mut cur = Cursor::new(buf);
    let bundle = Bundle::deserialize(&mut cur, &reg).unwrap();
    assert_eq!(
        bundle.get(&"k".to_owned()),
        Some(&Object::LongArray(vec![2]))
    );
}
