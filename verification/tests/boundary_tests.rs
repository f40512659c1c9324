//! Exercises the trusted boundaries against the real outside crates: the
//! byte-level AMF0 writer and reader, the URL parser, and the integer
//! bit-pattern arithmetic cross-checked against real floats.

use amf_store::lso_io::{lso_parse_bytes, lso_write_bytes};
use amf_store::numbits::f64_bits_of_i32;
use amf_store::strutil::u64_to_decimal;
use amf_store::url_info::parse_document_url;
use amf_store::wire::{AmfValue, Element};

fn elem(name: &str, value: AmfValue) -> Element {
    Element { name: name.to_string(), value }
}

#[test]
fn bytes_round_trip_scalars() {
    let body = vec![
        elem("n", AmfValue::Number(6.5f64.to_bits())),
        elem("s", AmfValue::String("text".to_string())),
        elem("b", AmfValue::Bool(true)),
        elem("u", AmfValue::Undefined),
        elem("z", AmfValue::Null),
    ];
    let bytes = lso_write_bytes("root", &body);
    let (name, parsed) = lso_parse_bytes(&bytes).expect("own bytes parse");
    assert_eq!(name, "root");
    assert_eq!(parsed.len(), 5);
    assert_eq!(parsed[0].name, "n");
    assert!(matches!(parsed[0].value, AmfValue::Number(bits) if bits == 6.5f64.to_bits()));
    assert!(matches!(&parsed[1].value, AmfValue::String(s) if s == "text"));
    assert!(matches!(parsed[2].value, AmfValue::Bool(true)));
    assert!(matches!(parsed[3].value, AmfValue::Undefined));
    assert!(matches!(parsed[4].value, AmfValue::Null));
}

#[test]
fn bytes_round_trip_reshapes_ecma_array_and_date() {
    let body = vec![
        elem(
            "arr",
            AmfValue::ECMAArray {
                dense: vec![AmfValue::Bool(false)],
                assoc: vec![elem("foo", AmfValue::Null)],
                length: 1,
            },
        ),
        elem("when", AmfValue::Date { millis: 1234.0f64.to_bits(), timezone: None }),
    ];
    let bytes = lso_write_bytes("o", &body);
    let (_, parsed) = lso_parse_bytes(&bytes).expect("own bytes parse");
    // The dense portion comes back folded into the named elements.
    match &parsed[0].value {
        AmfValue::ECMAArray { dense, assoc, length } => {
            assert!(dense.is_empty());
            assert_eq!(assoc.len(), 2);
            assert_eq!(assoc[0].name, "0");
            assert!(matches!(assoc[0].value, AmfValue::Bool(false)));
            assert_eq!(assoc[1].name, "foo");
            assert_eq!(*length, 1);
        }
        _ => panic!("expected the associative array back"),
    }
    // A missing timezone is read back as zero.
    assert!(matches!(
        parsed[1].value,
        AmfValue::Date { millis, timezone: Some(0) } if millis == 1234.0f64.to_bits()
    ));
}

#[test]
fn garbage_bytes_do_not_parse() {
    assert!(lso_parse_bytes(&vec![1, 2, 3, 4]).is_none());
    assert!(lso_parse_bytes(&Vec::new()).is_none());
}

#[test]
fn document_url_parts() {
    let info = parse_document_url("https://example.com/game.swf?q=1#frag").expect("parses");
    assert_eq!(info.scheme, "https");
    assert_eq!(info.host, "example.com");
    assert_eq!(info.path, "/game.swf");
    assert!(parse_document_url("not a url").is_none());
}

#[test]
fn integer_bit_patterns_match_real_floats() {
    for n in [
        0i32,
        1,
        -1,
        2,
        100,
        -5,
        255,
        1 << 28,
        -(1 << 28),
        300_000_000,
        i32::MAX,
        i32::MIN,
    ] {
        assert_eq!(f64_bits_of_i32(n), (n as f64).to_bits(), "bits differ for {n}");
    }
}

#[test]
fn decimal_rendering() {
    assert_eq!(u64_to_decimal(0), "0");
    assert_eq!(u64_to_decimal(7), "7");
    assert_eq!(u64_to_decimal(105), "105");
    assert_eq!(u64_to_decimal(u64::MAX), "18446744073709551615");
}
