//! Literal codec behaviour: decoding, rendering, and the round trip.
use sqore::value::{decode, display, Entry};

fn roundtrip(v: Entry) -> Entry {
    let s = sqore::value::stringify(&v);
    decode(s.as_slice())
}

#[test]
fn roundtrip_number_whole() {
    assert_eq!(roundtrip(Entry::Number(15_000)), Entry::Number(15_000));
}

#[test]
fn roundtrip_number_fraction() {
    assert_eq!(roundtrip(Entry::Number(1_500)), Entry::Number(1_500));
    assert_eq!(roundtrip(Entry::Number(50)), Entry::Number(50));
    assert_eq!(roundtrip(Entry::Number(-1_500)), Entry::Number(-1_500));
    assert_eq!(roundtrip(Entry::Number(0)), Entry::Number(0));
    assert_eq!(roundtrip(Entry::Number(i64::MAX)), Entry::Number(i64::MAX));
    assert_eq!(roundtrip(Entry::Number(i64::MIN)), Entry::Number(i64::MIN));
}

#[test]
fn roundtrip_string() {
    assert_eq!(
        roundtrip(Entry::Str(b"hero".to_vec())),
        Entry::Str(b"hero".to_vec())
    );
    // words that look like other literals survive the quoting
    assert_eq!(
        roundtrip(Entry::Str(b"true".to_vec())),
        Entry::Str(b"true".to_vec())
    );
    assert_eq!(
        roundtrip(Entry::Str(b"12".to_vec())),
        Entry::Str(b"12".to_vec())
    );
    // embedded quotes and backslashes are escaped and restored
    assert_eq!(
        roundtrip(Entry::Str(b"a\"b\\c".to_vec())),
        Entry::Str(b"a\"b\\c".to_vec())
    );
    assert_eq!(
        roundtrip(Entry::Str(b"".to_vec())),
        Entry::Str(b"".to_vec())
    );
}

#[test]
fn roundtrip_bool() {
    assert_eq!(roundtrip(Entry::Bool(true)), Entry::Bool(true));
    assert_eq!(roundtrip(Entry::Bool(false)), Entry::Bool(false));
}

#[test]
fn stringify_canonical_forms() {
    assert_eq!(sqore::value::stringify(&Entry::Number(15_000)), b"15".to_vec());
    assert_eq!(sqore::value::stringify(&Entry::Number(1_500)), b"1.5".to_vec());
    assert_eq!(sqore::value::stringify(&Entry::Number(50)), b"0.05".to_vec());
    assert_eq!(sqore::value::stringify(&Entry::Number(-2_000)), b"-2".to_vec());
    assert_eq!(sqore::value::stringify(&Entry::Number(1_234)), b"1.234".to_vec());
    assert_eq!(sqore::value::stringify(&Entry::Bool(true)), b"true".to_vec());
    assert_eq!(sqore::value::stringify(&Entry::Str(b"hero".to_vec())), b"\"hero\"".to_vec());
}

#[test]
fn decode_forms() {
    assert_eq!(decode(b"10"), Entry::Number(10_000));
    assert_eq!(decode(b"1.5"), Entry::Number(1_500));
    assert_eq!(decode(b"-0.25"), Entry::Number(-250));
    assert_eq!(decode(b"1.23456"), Entry::Number(1_234)); // finer digits cut off
    assert_eq!(decode(b"true"), Entry::Bool(true));
    assert_eq!(decode(b"false"), Entry::Bool(false));
    assert_eq!(decode(b"hero"), Entry::Str(b"hero".to_vec()));
    assert_eq!(decode(b"_2"), Entry::Str(b"_2".to_vec()));
    assert_eq!(decode(b"\"a b\""), Entry::Str(b"a b".to_vec()));
    assert_eq!(decode(b""), Entry::Empty);
    assert_eq!(decode(b"\"unterminated"), Entry::Empty);
    assert_eq!(decode(b"\"x\"y"), Entry::Empty);
}

#[test]
fn display_forms() {
    assert_eq!(display(&Entry::Number(15_000)), b"15".to_vec());
    assert_eq!(display(&Entry::Str(b"hero".to_vec())), b"hero".to_vec());
    assert_eq!(display(&Entry::Bool(false)), b"false".to_vec());
    assert_eq!(display(&Entry::Empty), b"".to_vec());
}

#[test]
fn decode_saturates_huge_numbers() {
    assert_eq!(decode(b"99999999999999999999"), Entry::Number(i64::MAX));
    assert_eq!(decode(b"-99999999999999999999"), Entry::Number(i64::MIN));
}

#[test]
fn decode_rejects_near_numbers_as_words() {
    assert_eq!(decode(b"12a"), Entry::Str(b"12a".to_vec()));
    assert_eq!(decode(b"1.2.3"), Entry::Str(b"1.2.3".to_vec()));
    assert_eq!(decode(b"-"), Entry::Str(b"-".to_vec()));
    assert_eq!(decode(b"1."), Entry::Str(b"1.".to_vec()));
}
