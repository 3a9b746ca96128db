use ohmers::codec::Encoder;
use ohmers::error::{EncoderError, OhmerError};
use ohmers::protocol::{delete_payload, save_payload, save_reply, violation_error};

fn s(x: &str) -> Vec<u8> {
    let mut v = vec![0xa0 + x.len() as u8];
    v.extend_from_slice(x.as_bytes());
    v
}

fn dog(name: &str, age: u64, color: &str) -> Encoder {
    let mut e = Encoder::new();
    e.set_name("Dog");
    e.emit_str("name", name);
    e.emit_u64("age", age);
    e.emit_str("color", color);
    e
}

fn strings(v: &[&str]) -> Vec<String> {
    v.iter().map(|x| x.to_string()).collect()
}

#[test]
fn save_payload_for_new_record() {
    let e = dog("Max", 3, "white");
    let req = save_payload(&e, 0, &vec![], &strings(&["age", "color"])).unwrap();
    assert_eq!(req.model, [vec![0x81], s("name"), s("Dog")].concat());
    assert_eq!(req.attributes, [vec![0x96], s("name"), s("Max"), s("age"), s("3"), s("color"), s("white")].concat());
    assert_eq!(req.indices, [vec![0x82], s("age"), vec![0x91], s("3"), s("color"), vec![0x91], s("white")].concat());
    assert_eq!(req.uniques, vec![0x80]);
}

#[test]
fn save_payload_for_saved_record_carries_id() {
    let mut e = Encoder::new();
    e.set_name("User");
    e.emit_str("email", "a@b.c");
    let req = save_payload(&e, 42, &strings(&["email"]), &vec![]).unwrap();
    assert_eq!(req.model, [vec![0x82], s("name"), s("User"), s("id"), s("42")].concat());
    assert_eq!(req.uniques, [vec![0x81], s("email"), s("a@b.c")].concat());
    assert_eq!(req.indices, vec![0x80]);
}

#[test]
fn save_payload_long_value_uses_str8() {
    let long = "x".repeat(40);
    let mut e = Encoder::new();
    e.set_name("T");
    e.emit_str("v", &long);
    let req = save_payload(&e, 0, &vec![], &vec![]).unwrap();
    let mut expected = vec![0x92];
    expected.extend(s("v"));
    expected.extend([0xd9, 40]);
    expected.extend(long.as_bytes());
    assert_eq!(req.attributes, expected);
}

#[test]
fn save_payload_unknown_unique() {
    let e = dog("Max", 3, "white");
    let r = save_payload(&e, 0, &strings(&["email"]), &vec![]);
    assert!(matches!(r, Err(OhmerError::UnknownIndex(f)) if f == "email"));
}

#[test]
fn delete_requires_saved_record() {
    let e = dog("Max", 3, "white");
    assert!(matches!(delete_payload(&e, 0, &vec![], &vec![]), Err(OhmerError::NotSaved)));
}

#[test]
fn delete_payload_names_owned_containers() {
    let mut e = Encoder::new();
    e.set_name("Event");
    e.emit_str("name", "Party");
    e.emit_set("participants");
    e.emit_counter("votes");
    e.emit_list("queue");
    let req = delete_payload(&e, 3, &strings(&["name"]), &vec![]).unwrap();
    assert_eq!(req.model, [vec![0x83], s("name"), s("Event"), s("id"), s("3"), s("key"), s("Event:3")].concat());
    assert_eq!(req.uniques, [vec![0x81], s("name"), s("Party")].concat());
    assert_eq!(req.owned, [vec![0x93], s("Event:participants:3"), s("Event:3:votes"), s("Event:queue:3")].concat());
}

#[test]
fn save_reply_reads_id() {
    assert!(matches!(save_reply(Ok(5)), Ok(5)));
}

#[test]
fn save_reply_reads_unique_violation() {
    let r = save_reply(Err("An error was signalled by the server: UniqueIndexViolation: email".to_string()));
    assert!(matches!(r, Err(OhmerError::UniqueIndexViolation(f)) if f == "email"));
}

#[test]
fn save_reply_other_errors_pass_through() {
    let r = save_reply(Err("connection refused".to_string()));
    assert!(matches!(r, Err(OhmerError::RedisError(m)) if m == "connection refused"));
}

#[test]
fn violation_error_strips_literal_part() {
    let e = violation_error("x", Some("UniqueIndexViolation: name".to_string()));
    assert!(matches!(e, OhmerError::UniqueIndexViolation(f) if f == "name"));
    let e = violation_error("x", Some("short".to_string()));
    assert!(matches!(e, OhmerError::RedisError(m) if m == "x"));
    let e = violation_error("y", None);
    assert!(matches!(e, OhmerError::RedisError(m) if m == "y"));
}

#[test]
fn encoder_error_converts() {
    let e: OhmerError = EncoderError::TooLong("f".to_string()).into();
    assert!(matches!(e, OhmerError::EncoderError(EncoderError::TooLong(f)) if f == "f"));
}
