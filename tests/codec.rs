use ohmers::codec::{Decoder, Encoder};
use ohmers::decimal::{parse_decimal, to_decimal};
use ohmers::error::{DecoderError, EncoderError};

fn pair(a: &str, b: &str) -> (String, String) {
    (a.to_string(), b.to_string())
}

#[test]
fn decimal_rendering() {
    assert_eq!(to_decimal(0), "0");
    assert_eq!(to_decimal(7), "7");
    assert_eq!(to_decimal(1234567890), "1234567890");
    assert_eq!(to_decimal(u64::MAX), "18446744073709551615");
}

#[test]
fn decimal_parsing() {
    assert_eq!(parse_decimal("0042"), Some(42));
    assert_eq!(parse_decimal("18446744073709551615"), Some(u64::MAX));
    assert_eq!(parse_decimal("18446744073709551616"), None);
    assert_eq!(parse_decimal(""), None);
    assert_eq!(parse_decimal("12a"), None);
    assert_eq!(parse_decimal("-1"), None);
}

#[test]
fn encoder_renders_scalars() {
    let mut e = Encoder::new();
    assert_eq!(e.id_field, "id");
    e.set_name("Thing");
    e.emit_i64("delta", -42);
    e.emit_i64("low", i64::MIN);
    e.emit_bool("on", true);
    e.emit_u64("n", 9);
    e.emit_reference("owner", 3);
    e.emit_counter("votes");
    e.emit_set("tags");
    e.emit_list("queue");
    assert_eq!(e.name, "Thing");
    assert_eq!(
        e.attributes,
        vec![
            pair("delta", "-42"),
            pair("low", "-9223372036854775808"),
            pair("on", "true"),
            pair("n", "9"),
            pair("owner_id", "3"),
        ]
    );
    assert_eq!(e.counters, vec!["votes".to_string()]);
    assert_eq!(e.sets, vec!["tags".to_string()]);
    assert_eq!(e.lists, vec!["queue".to_string()]);
}

#[test]
fn encoder_rejects_non_utf8_bytes() {
    let mut e = Encoder::new();
    assert!(e.emit_bytes("text", b"ok".to_vec()).is_ok());
    let r = e.emit_bytes("blob", vec![0xff, 0xfe]);
    assert!(matches!(r, Err(EncoderError::InvalidUtf8(f)) if f == "blob"));
    assert_eq!(e.attributes, vec![pair("text", "ok")]);
}

#[test]
fn decoder_reads_typed_fields() {
    let d = Decoder::new(vec![
        pair("a", "-17"),
        pair("b", "true"),
        pair("c", "false"),
        pair("d", "maybe"),
        pair("owner_id", "5"),
        pair("a", "99"),
    ]);
    assert_eq!(d.read_i64("a").unwrap(), -17);
    assert_eq!(d.read_bool("b").unwrap(), true);
    assert_eq!(d.read_bool("c").unwrap(), false);
    assert!(matches!(d.read_bool("d"), Err(DecoderError::Invalid(f)) if f == "d"));
    assert_eq!(d.read_reference("owner").unwrap(), 5);
    assert!(matches!(d.read_str("zzz"), Err(DecoderError::Missing(f)) if f == "zzz"));
    assert!(matches!(d.read_u64("a"), Err(DecoderError::Invalid(f)) if f == "a"));
    assert_eq!(d.lookup("a"), Some("-17".to_string()));
}

#[test]
fn decoder_signed_bounds() {
    let d = Decoder::new(vec![pair("min", "-9223372036854775808"), pair("over", "9223372036854775808"), pair("neg", "-")]);
    assert_eq!(d.read_i64("min").unwrap(), i64::MIN);
    assert!(matches!(d.read_i64("over"), Err(DecoderError::Invalid(_))));
    assert!(matches!(d.read_i64("neg"), Err(DecoderError::Invalid(_))));
}
