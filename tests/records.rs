use ohmers::codec::{Decoder, Encoder};
use ohmers::error::{DecoderError, EncoderError, OhmerError};
use ohmers::persist::{delete_request, finish_save, get, load_properties, with};
use ohmers::record::{uniques_indices, Ohmer};

#[derive(Debug, Clone, PartialEq, Default)]
struct Dog {
    id: usize,
    name: String,
    age: u64,
    color: String,
}

impl Ohmer for Dog {
    fn id(&self) -> usize {
        self.id
    }
    fn set_id(&mut self, id: usize) {
        self.id = id;
    }
    fn get_class_name(&self) -> String {
        "Dog".to_string()
    }
    fn unique_fields(&self) -> Vec<String> {
        vec![]
    }
    fn index_fields(&self) -> Vec<String> {
        vec!["age".to_string(), "color".to_string()]
    }
    fn encode(&self, encoder: &mut Encoder) -> Result<(), EncoderError> {
        encoder.set_name("Dog");
        encoder.emit_str("name", &self.name);
        encoder.emit_u64("age", self.age);
        encoder.emit_str("color", &self.color);
        Ok(())
    }
    fn decode(decoder: &Decoder) -> Result<Self, DecoderError> {
        Ok(Dog {
            id: decoder.read_usize("id")?,
            name: decoder.read_str("name")?,
            age: decoder.read_u64("age")?,
            color: decoder.read_str("color")?,
        })
    }
}

fn pair(a: &str, b: &str) -> (String, String) {
    (a.to_string(), b.to_string())
}

#[test]
fn dog_roles_split_indices() {
    let dog = Dog { id: 0, name: "Max".to_string(), age: 3, color: "white".to_string() };
    let mut e = Encoder::new();
    dog.encode(&mut e).unwrap();
    assert_eq!(e.attributes, vec![pair("name", "Max"), pair("age", "3"), pair("color", "white")]);
    let (u, i) = uniques_indices(&e, &dog.unique_fields(), &dog.index_fields()).unwrap();
    assert!(u.is_empty());
    assert_eq!(i, vec![pair("age", "3"), pair("color", "white")]);
}

#[test]
fn missing_unique_is_unknown_index() {
    let mut e = Encoder::new();
    e.emit_str("name", "x");
    let r = uniques_indices(&e, &vec!["email".to_string()], &vec![]);
    assert!(matches!(r, Err(OhmerError::UnknownIndex(f)) if f == "email"));
}

#[test]
fn reference_attribute_fills_index_of_its_field() {
    let mut e = Encoder::new();
    e.emit_reference("tweeter", 7);
    e.emit_str("description", "foo");
    let (u, i) = uniques_indices(&e, &vec![], &vec!["tweeter".to_string()]).unwrap();
    assert!(u.is_empty());
    assert_eq!(i, vec![pair("tweeter_id", "7")]);
}

#[test]
fn unique_field_is_taken_once() {
    let mut e = Encoder::new();
    e.emit_str("email", "a@b");
    e.emit_str("email", "c@d");
    e.emit_str("name", "n");
    let (u, i) = uniques_indices(&e, &vec!["email".to_string()], &vec!["name".to_string()]).unwrap();
    assert_eq!(u, vec![pair("email", "a@b")]);
    assert_eq!(i, vec![pair("name", "n")]);
}

#[test]
fn decode_round_trip_with_injected_id() {
    let dog = Dog { id: 0, name: "Buddy".to_string(), age: 3, color: "black".to_string() };
    let mut e = Encoder::new();
    dog.encode(&mut e).unwrap();
    let loaded: Dog = get(12, e.attributes.clone()).unwrap();
    assert_eq!(loaded, Dog { id: 12, ..dog });
}

#[test]
fn load_properties_puts_id_first() {
    let p = load_properties("id", 40, vec![pair("id", "3"), pair("name", "x")]);
    assert_eq!(p, vec![pair("id", "40"), pair("id", "3"), pair("name", "x")]);
    let d = Decoder::new(p);
    assert_eq!(d.read_usize("id").unwrap(), 40);
}

#[test]
fn decode_fails_on_missing_field() {
    let r: Result<Dog, DecoderError> = get(1, vec![pair("name", "x"), pair("color", "c")]);
    assert!(matches!(r, Err(DecoderError::Missing(f)) if f == "age"));
}

#[test]
fn decode_fails_on_non_numeric_field() {
    let r: Result<Dog, DecoderError> = get(1, vec![pair("name", "x"), pair("age", "old"), pair("color", "c")]);
    assert!(matches!(r, Err(DecoderError::Invalid(f)) if f == "age"));
}

#[derive(Debug, Default)]
struct Broken {
    id: usize,
}

impl Ohmer for Broken {
    fn id(&self) -> usize {
        self.id
    }
    fn set_id(&mut self, id: usize) {
        self.id = id;
    }
    fn get_class_name(&self) -> String {
        "Broken".to_string()
    }
    fn unique_fields(&self) -> Vec<String> {
        vec![]
    }
    fn index_fields(&self) -> Vec<String> {
        vec![]
    }
    fn encode(&self, encoder: &mut Encoder) -> Result<(), EncoderError> {
        encoder.emit_bytes("blob", vec![0xff])
    }
    fn decode(_: &Decoder) -> Result<Self, DecoderError> {
        Err(DecoderError::Missing("blob".to_string()))
    }
}

#[test]
fn delete_of_unsaved_record_is_not_saved_first() {
    assert!(matches!(delete_request(Broken { id: 0 }), Err(OhmerError::NotSaved)));
    assert!(matches!(delete_request(Broken { id: 4 }), Err(OhmerError::EncoderError(EncoderError::InvalidUtf8(_)))));
}

#[test]
fn with_found_id_gives_record_or_error() {
    let props = vec![pair("name", "Max"), pair("age", "3"), pair("color", "white")];
    let found: Option<Dog> = with(Some(3), props).unwrap();
    assert_eq!(found.unwrap().id, 3);
    let none: Option<Dog> = with(None, vec![]).unwrap();
    assert!(none.is_none());
    let r: Result<Option<Dog>, DecoderError> = with(Some(9), vec![]);
    assert!(r.is_err());
}

#[test]
fn finish_save_sets_id_or_reports() {
    let mut dog = Dog::default();
    finish_save(&mut dog, Ok(8)).unwrap();
    assert_eq!(dog.id, 8);
    let r = finish_save(&mut dog, Err("UniqueIndexViolation: name".to_string()));
    assert!(matches!(r, Err(OhmerError::UniqueIndexViolation(f)) if f == "name"));
    assert_eq!(dog.id, 8);
}
