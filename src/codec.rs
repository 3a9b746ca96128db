//! Flattening records into ordered attribute lists and reading them back.
//!
//! A record type walks its own fields in a fixed order and hands each one to
//! an [`Encoder`]; reading goes through a [`Decoder`] over the attributes that
//! the store returned.
use crate::decimal::{decimal, decimal_value, is_decimal, lemma_decimal_round_trip, parse_decimal, push_decimal, to_decimal};
use crate::error::{DecoderError, EncoderError};
use vstd::prelude::*;
use vstd::string::*;
use vstd::utf8::*;

verus! {

/// The characters of a list of attribute pairs.
pub open spec fn pairs_view(v: Seq<(String, String)>) -> Seq<(Seq<char>, Seq<char>)> {
    v.map_values(|p: (String, String)| (p.0@, p.1@))
}

/// The characters of a list of names.
pub open spec fn names_view(v: Seq<String>) -> Seq<Seq<char>> {
    v.map_values(|s: String| s@)
}

/// The value that the first pair named `name` holds.
pub open spec fn spec_lookup(props: Seq<(Seq<char>, Seq<char>)>, name: Seq<char>) -> Option<Seq<char>>
    decreases props.len(),
{
    if props.len() == 0 {
        None
    } else if props[0].0 == name {
        Some(props[0].1)
    } else {
        spec_lookup(props.drop_first(), name)
    }
}

/// The text form of a signed integer: its decimal digits, after `-` when negative.
pub open spec fn signed_decimal(v: int) -> Seq<char> {
    if v < 0 {
        "-"@ + decimal((-v) as nat)
    } else {
        decimal(v as nat)
    }
}

/// The number that a signed decimal text denotes, if it is one.
pub open spec fn signed_value(t: Seq<char>) -> Option<int> {
    if t.len() > 0 && t[0] == '-' {
        if is_decimal(t.drop_first()) { Some(-decimal_value(t.drop_first())) } else { None }
    } else if is_decimal(t) {
        Some(decimal_value(t) as int)
    } else {
        None
    }
}

/// The text form of a boolean.
pub open spec fn bool_text(b: bool) -> Seq<char> {
    if b { "true"@ } else { "false"@ }
}

/// The attribute name under which a reference field stores the id it points to.
pub open spec fn reference_name(field: Seq<char>) -> Seq<char> {
    field + "_id"@
}

/// In attributes whose names are distinct, as the store returns a hash in
/// any order, looking a name up finds the value paired with it wherever the
/// pair stands.
pub proof fn lemma_lookup_distinct(props: Seq<(Seq<char>, Seq<char>)>, k: int)
    requires
        0 <= k < props.len(),
        forall|i: int, j: int| 0 <= i < j < props.len() ==> props[i].0 != props[j].0,
    ensures
        spec_lookup(props, props[k].0) == Some(props[k].1),
    decreases k,
{
    if k > 0 {
        let rest = props.drop_first();
        assert(rest[k - 1] == props[k]);
        assert(props[0].0 != props[k].0);
        lemma_lookup_distinct(rest, k - 1);
    }
}

/// What the encoder writes for a number or a boolean, the decoder reads
/// back as the same value.
pub proof fn lemma_scalar_round_trip(n: u64, v: i64, b: bool)
    ensures
        is_decimal(decimal(n as nat)) && decimal_value(decimal(n as nat)) == n,
        signed_value(signed_decimal(v as int)) == Some(v as int),
        bool_text(b) == bool_text(true) <==> b,
        bool_text(b) == bool_text(false) <==> !b,
{
    lemma_decimal_round_trip(n as nat);
    if v < 0 {
        let t = signed_decimal(v as int);
        lemma_decimal_round_trip((-v) as nat);
        assert(t.drop_first() =~= decimal((-v) as nat)) by {
            reveal_strlit("-");
        }
        assert(t[0] == '-') by {
            reveal_strlit("-");
        }
    } else {
        lemma_decimal_round_trip(v as nat);
        let t = decimal(v as nat);
        assert(t[0] != '-');
    }
    reveal_strlit("true");
    reveal_strlit("false");
    assert(bool_text(true) != bool_text(false)) by {
        assert(bool_text(true).len() != bool_text(false).len());
    }
}

/// Relies on `String::from_utf8`: it succeeds exactly on valid UTF-8 and then
/// holds the characters that the bytes encode.
#[verifier::external_body]
pub(crate) fn string_from_utf8(bytes: Vec<u8>) -> (r: Option<String>)
    ensures
        r is Some <==> valid_utf8(bytes@),
        r matches Some(s) ==> s@ == decode_utf8(bytes@),
{
    String::from_utf8(bytes).ok()
}

/// What a record type's walk over its fields has produced.
pub struct Encoder {
    /// The type's name in the store.
    pub name: String,
    /// The attribute that carries the record's id.
    pub id_field: String,
    /// The stored attributes, as (name, value) pairs in walk order.
    pub attributes: Vec<(String, String)>,
    /// The fields that are counters, stored apart from the record's hash.
    pub counters: Vec<String>,
    /// The fields that are unordered sets of other records.
    pub sets: Vec<String>,
    /// The fields that are ordered lists of other records.
    pub lists: Vec<String>,
}

impl Encoder {
    pub open spec fn unchanged_but_attributes(&self, other: &Encoder) -> bool {
        &&& self.name@ == other.name@
        &&& self.id_field@ == other.id_field@
        &&& names_view(self.counters@) == names_view(other.counters@)
        &&& names_view(self.sets@) == names_view(other.sets@)
        &&& names_view(self.lists@) == names_view(other.lists@)
    }

    /// An encoder with nothing recorded, whose id attribute is `id`.
    pub fn new() -> (r: Encoder)
        ensures
            r.name@ == Seq::<char>::empty(),
            r.id_field@ == "id"@,
            r.attributes@.len() == 0,
            r.counters@.len() == 0,
            r.sets@.len() == 0,
            r.lists@.len() == 0,
    {
        Encoder {
            name: String::new(),
            id_field: String::from_str("id"),
            attributes: Vec::new(),
            counters: Vec::new(),
            sets: Vec::new(),
            lists: Vec::new(),
        }
    }

    /// Records the type's name.
    pub fn set_name(&mut self, name: &str)
        ensures
            final(self).name@ == name@,
            final(self).id_field@ == old(self).id_field@,
            pairs_view(final(self).attributes@) == pairs_view(old(self).attributes@),
            names_view(final(self).counters@) == names_view(old(self).counters@),
            names_view(final(self).sets@) == names_view(old(self).sets@),
            names_view(final(self).lists@) == names_view(old(self).lists@),
    {
        self.name = String::from_str(name);
    }

    /// Records a text field.
    pub fn emit_str(&mut self, field: &str, value: &str)
        ensures
            pairs_view(final(self).attributes@) == pairs_view(old(self).attributes@).push((field@, value@)),
            final(self).unchanged_but_attributes(old(self)),
    {
        self.attributes.push((String::from_str(field), String::from_str(value)));
        proof {
            assert(pairs_view(self.attributes@) =~= pairs_view(old(self).attributes@).push((field@, value@)));
        }
    }

    /// Records an unsigned integer field, in decimal.
    pub fn emit_u64(&mut self, field: &str, value: u64)
        ensures
            pairs_view(final(self).attributes@) == pairs_view(old(self).attributes@).push(
                (field@, decimal(value as nat)),
            ),
            final(self).unchanged_but_attributes(old(self)),
    {
        let text = to_decimal(value);
        self.emit_str(field, text.as_str());
    }

    /// Records a signed integer field, in decimal.
    pub fn emit_i64(&mut self, field: &str, value: i64)
        ensures
            pairs_view(final(self).attributes@) == pairs_view(old(self).attributes@).push(
                (field@, signed_decimal(value as int)),
            ),
            final(self).unchanged_but_attributes(old(self)),
    {
        let mut text = String::new();
        if value < 0 {
            text.append("-");
            let magnitude = (-(value as i128)) as u64;
            push_decimal(&mut text, magnitude);
        } else {
            push_decimal(&mut text, value as u64);
        }
        assert(text@ =~= signed_decimal(value as int));
        self.emit_str(field, text.as_str());
    }

    /// Records a boolean field as `true` or `false`.
    pub fn emit_bool(&mut self, field: &str, value: bool)
        ensures
            pairs_view(final(self).attributes@) == pairs_view(old(self).attributes@).push(
                (field@, bool_text(value)),
            ),
            final(self).unchanged_but_attributes(old(self)),
    {
        if value {
            self.emit_str(field, "true");
        } else {
            self.emit_str(field, "false");
        }
    }

    /// Records a field given as bytes, which must be UTF-8 text.
    pub fn emit_bytes(&mut self, field: &str, value: Vec<u8>) -> (r: Result<(), EncoderError>)
        ensures
            r is Ok <==> valid_utf8(value@),
            r is Ok ==> pairs_view(final(self).attributes@) == pairs_view(old(self).attributes@).push(
                (field@, decode_utf8(value@)),
            ),
            r matches Err(e) ==> e.is_invalid_utf8(field@),
            r is Err ==> pairs_view(final(self).attributes@) == pairs_view(old(self).attributes@),
            final(self).unchanged_but_attributes(old(self)),
    {
        match string_from_utf8(value) {
            Some(text) => {
                self.emit_str(field, text.as_str());
                Ok(())
            },
            None => Err(EncoderError::InvalidUtf8(String::from_str(field))),
        }
    }

    /// Records a reference field: the id it points to, under the field's
    /// name followed by `_id`.
    pub fn emit_reference(&mut self, field: &str, id: usize)
        ensures
            pairs_view(final(self).attributes@) == pairs_view(old(self).attributes@).push(
                (reference_name(field@), decimal(id as nat)),
            ),
            final(self).unchanged_but_attributes(old(self)),
    {
        let mut name = String::from_str(field);
        name.append("_id");
        let text = to_decimal(id as u64);
        self.emit_str(name.as_str(), text.as_str());
    }

    /// Records that a field is a counter.
    pub fn emit_counter(&mut self, field: &str)
        ensures
            names_view(final(self).counters@) == names_view(old(self).counters@).push(field@),
            pairs_view(final(self).attributes@) == pairs_view(old(self).attributes@),
            final(self).name@ == old(self).name@,
            final(self).id_field@ == old(self).id_field@,
            names_view(final(self).sets@) == names_view(old(self).sets@),
            names_view(final(self).lists@) == names_view(old(self).lists@),
    {
        self.counters.push(String::from_str(field));
        assert(names_view(self.counters@) =~= names_view(old(self).counters@).push(field@));
    }

    /// Records that a field is an unordered set of other records.
    pub fn emit_set(&mut self, field: &str)
        ensures
            names_view(final(self).sets@) == names_view(old(self).sets@).push(field@),
            pairs_view(final(self).attributes@) == pairs_view(old(self).attributes@),
            final(self).name@ == old(self).name@,
            final(self).id_field@ == old(self).id_field@,
            names_view(final(self).counters@) == names_view(old(self).counters@),
            names_view(final(self).lists@) == names_view(old(self).lists@),
    {
        self.sets.push(String::from_str(field));
        assert(names_view(self.sets@) =~= names_view(old(self).sets@).push(field@));
    }

    /// Records that a field is an ordered list of other records.
    pub fn emit_list(&mut self, field: &str)
        ensures
            names_view(final(self).lists@) == names_view(old(self).lists@).push(field@),
            pairs_view(final(self).attributes@) == pairs_view(old(self).attributes@),
            final(self).name@ == old(self).name@,
            final(self).id_field@ == old(self).id_field@,
            names_view(final(self).counters@) == names_view(old(self).counters@),
            names_view(final(self).sets@) == names_view(old(self).sets@),
    {
        self.lists.push(String::from_str(field));
        assert(names_view(self.lists@) =~= names_view(old(self).lists@).push(field@));
    }
}

/// The attributes of one stored record, as the store returned them, with
/// the record's id among them.
pub struct Decoder {
    pub properties: Vec<(String, String)>,
}

impl Decoder {
    pub open spec fn props(&self) -> Seq<(Seq<char>, Seq<char>)> {
        pairs_view(self.properties@)
    }

    pub fn new(properties: Vec<(String, String)>) -> (r: Decoder)
        ensures
            r.props() == pairs_view(properties@),
    {
        Decoder { properties }
    }

    /// The value of the first attribute named `field`.
    pub fn lookup(&self, field: &str) -> (r: Option<String>)
        ensures
            r matches Some(v) ==> spec_lookup(self.props(), field@) == Some(v@),
            r is None ==> spec_lookup(self.props(), field@) is None,
    {
        let name = String::from_str(field);
        let n = self.properties.len();
        let mut i: usize = 0;
        assert(self.props().subrange(0, n as int) =~= self.props());
        while i < n
            invariant
                n == self.properties@.len(),
                0 <= i <= n,
                name@ == field@,
                spec_lookup(self.props(), field@) == spec_lookup(self.props().subrange(i as int, n as int), field@),
            decreases n - i,
        {
            let ghost rest = self.props().subrange(i as int, n as int);
            assert(rest.drop_first() =~= self.props().subrange(i + 1, n as int));
            if self.properties[i].0 == name {
                return Some(self.properties[i].1.clone());
            }
            i = i + 1;
        }
        None
    }

    /// A text field.
    pub fn read_str(&self, field: &str) -> (r: Result<String, DecoderError>)
        ensures
            r matches Ok(v) ==> spec_lookup(self.props(), field@) == Some(v@),
            r matches Err(e) ==> spec_lookup(self.props(), field@) is None
                && e.is_missing(field@),
    {
        match self.lookup(field) {
            Some(v) => Ok(v),
            None => Err(DecoderError::Missing(String::from_str(field))),
        }
    }

    /// An unsigned integer field, written in decimal.
    pub fn read_u64(&self, field: &str) -> (r: Result<u64, DecoderError>)
        ensures
            r matches Ok(v) ==> spec_lookup(self.props(), field@) matches Some(t)
                && is_decimal(t) && decimal_value(t) == v,
            r matches Err(e) ==> match spec_lookup(self.props(), field@) {
                None => e.is_missing(field@),
                Some(t) => !(is_decimal(t) && decimal_value(t) <= u64::MAX)
                    && e.is_invalid(field@),
            },
    {
        let text = self.read_str(field)?;
        match parse_decimal(text.as_str()) {
            Some(v) => Ok(v),
            None => Err(DecoderError::Invalid(String::from_str(field))),
        }
    }

    /// An unsigned integer field of machine width, written in decimal.
    pub fn read_usize(&self, field: &str) -> (r: Result<usize, DecoderError>)
        ensures
            r matches Ok(v) ==> spec_lookup(self.props(), field@) matches Some(t)
                && is_decimal(t) && decimal_value(t) == v,
            r matches Err(e) ==> match spec_lookup(self.props(), field@) {
                None => e.is_missing(field@),
                Some(t) => !(is_decimal(t) && decimal_value(t) <= usize::MAX)
                    && e.is_invalid(field@),
            },
    {
        let v = self.read_u64(field)?;
        if v > usize::MAX as u64 {
            return Err(DecoderError::Invalid(String::from_str(field)));
        }
        Ok(v as usize)
    }

    /// A signed integer field: decimal digits, after `-` when negative.
    pub fn read_i64(&self, field: &str) -> (r: Result<i64, DecoderError>)
        ensures
            r matches Ok(v) ==> spec_lookup(self.props(), field@) matches Some(t)
                && signed_value(t) == Some(v as int),
            r matches Err(e) ==> match spec_lookup(self.props(), field@) {
                None => e.is_missing(field@),
                Some(t) => !(signed_value(t) matches Some(v) && i64::MIN <= v <= i64::MAX)
                    && e.is_invalid(field@),
            },
    {
        let text = self.read_str(field)?;
        let len = text.as_str().unicode_len();
        if len > 0 && text.as_str().get_char(0) == '-' {
            let digits = text.as_str().substring_char(1, len);
            assert(digits@ =~= text@.drop_first());
            match parse_decimal(digits) {
                Some(m) => {
                    if m <= 9223372036854775808 {
                        Ok((-(m as i128)) as i64)
                    } else {
                        Err(DecoderError::Invalid(String::from_str(field)))
                    }
                },
                None => Err(DecoderError::Invalid(String::from_str(field))),
            }
        } else {
            match parse_decimal(text.as_str()) {
                Some(m) => {
                    if m <= 9223372036854775807 {
                        Ok(m as i64)
                    } else {
                        Err(DecoderError::Invalid(String::from_str(field)))
                    }
                },
                None => Err(DecoderError::Invalid(String::from_str(field))),
            }
        }
    }

    /// A boolean field, written `true` or `false`.
    pub fn read_bool(&self, field: &str) -> (r: Result<bool, DecoderError>)
        ensures
            r matches Ok(b) ==> spec_lookup(self.props(), field@) == Some(bool_text(b)),
            r matches Err(e) ==> match spec_lookup(self.props(), field@) {
                None => e.is_missing(field@),
                Some(t) => t != bool_text(true) && t != bool_text(false)
                    && e.is_invalid(field@),
            },
    {
        let text = self.read_str(field)?;
        let yes = String::from_str("true");
        let no = String::from_str("false");
        if text == yes {
            Ok(true)
        } else if text == no {
            Ok(false)
        } else {
            Err(DecoderError::Invalid(String::from_str(field)))
        }
    }

    /// A reference field: the id stored under the field's name followed by `_id`.
    pub fn read_reference(&self, field: &str) -> (r: Result<usize, DecoderError>)
        ensures
            r matches Ok(v) ==> spec_lookup(self.props(), reference_name(field@)) matches Some(t)
                && is_decimal(t) && decimal_value(t) == v,
            r matches Err(e) ==> match spec_lookup(self.props(), reference_name(field@)) {
                None => e.is_missing(reference_name(field@)),
                Some(t) => !(is_decimal(t) && decimal_value(t) <= usize::MAX)
                    && e.is_invalid(reference_name(field@)),
            },
    {
        let mut name = String::from_str(field);
        name.append("_id");
        self.read_usize(name.as_str())
    }
}

} // verus!
