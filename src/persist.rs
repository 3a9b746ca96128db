//! Record-level operations: saving, deleting and loading records of a
//! type that implements [`Ohmer`], and reading query results.
use crate::codec::{pairs_view, spec_lookup, Decoder, Encoder};
use crate::command::{command1, text_bytes, Command};
use crate::decimal::{decimal, to_decimal};
use crate::error::{DecoderError, OhmerError};
use crate::keys::{all_key, spec_all_key, spec_uniques_key, uniques_key};
use crate::protocol::{delete_payload, save_payload, save_reply, violation_field, violation_match, DeleteRequest, SaveRequest};
use crate::query::{eval, Query, Store};
use crate::record::Ohmer;
use std::marker::PhantomData;
use vstd::prelude::*;
use vstd::string::*;

verus! {

/// Serializes a record through its own walk over its fields.
pub fn encoder<T: Ohmer>(obj: &T) -> (r: Result<Encoder, OhmerError>)
    ensures
        r matches Err(e) ==> e is EncoderError,
{
    let mut encoder = Encoder::new();
    match obj.encode(&mut encoder) {
        Ok(()) => Ok(encoder),
        Err(e) => Err(OhmerError::EncoderError(e)),
    }
}

/// The save script's arguments for a record.
pub fn save_request<T: Ohmer>(obj: &T) -> (r: Result<SaveRequest, OhmerError>)
    ensures
        r matches Err(e) ==> e is EncoderError || e is UnknownIndex,
{
    let encoder = encoder(obj)?;
    save_payload(&encoder, obj.id(), &obj.unique_fields(), &obj.index_fields())
}

/// Applies the save script's reply to the record: on success the record
/// takes the id that the store assigned or confirmed.
pub fn finish_save<T: Ohmer>(obj: &mut T, reply: Result<usize, String>) -> (r: Result<(), OhmerError>)
    ensures
        reply is Ok <==> r is Ok,
        reply matches Err(m) ==> match violation_field(violation_match(m@)) {
            Some(f) => r matches Err(e) && e matches OhmerError::UniqueIndexViolation(g) && g@ == f,
            None => r matches Err(e) && e matches OhmerError::RedisError(t) && t@ == m@,
        },
{
    let id = save_reply(reply)?;
    obj.set_id(id);
    Ok(())
}

/// The delete script's arguments for a record, which is consumed. A
/// record without an id is `NotSaved` before anything else is looked at.
pub fn delete_request<T: Ohmer>(obj: T) -> (r: Result<DeleteRequest, OhmerError>)
    ensures
        r matches Err(e) ==> e is NotSaved || e is EncoderError || e is UnknownIndex,
{
    if obj.id() == 0 {
        return Err(OhmerError::NotSaved);
    }
    let encoder = encoder(&obj)?;
    delete_payload(&encoder, obj.id(), &obj.unique_fields(), &obj.index_fields())
}

/// The attributes that a record is decoded from: the id attribute first,
/// then what the store holds for the record.
pub fn load_properties(id_field: &str, id: usize, properties: Vec<(String, String)>) -> (r: Vec<(String, String)>)
    ensures
        pairs_view(r@) == seq![(id_field@, decimal(id as nat))] + pairs_view(properties@),
        spec_lookup(pairs_view(r@), id_field@) == Some(decimal(id as nat)),
{
    let mut r: Vec<(String, String)> = Vec::new();
    r.push((String::from_str(id_field), to_decimal(id as u64)));
    let mut properties = properties;
    let ghost rest = pairs_view(properties@);
    r.append(&mut properties);
    assert(pairs_view(r@) =~= seq![(id_field@, decimal(id as nat))] + rest);
    r
}

/// Decodes the record with id `id` from what the store holds for it.
pub fn get<T: Ohmer>(id: usize, properties: Vec<(String, String)>) -> Result<T, DecoderError> {
    let decoder = Decoder::new(load_properties("id", id, properties));
    T::decode(&decoder)
}

/// The record found by a unique value: none when the store's uniqueness
/// map had no id for it, else the record decoded from what the store holds
/// for that id.
pub fn with<T: Ohmer>(found: Option<usize>, properties: Vec<(String, String)>) -> (r: Result<Option<T>, DecoderError>)
    ensures
        found is None ==> r matches Ok(None),
        found is Some ==> !(r matches Ok(None)),
{
    match found {
        Some(id) => match get(id, properties) {
            Ok(v) => Ok(Some(v)),
            Err(e) => Err(e),
        },
        None => Ok(None),
    }
}

/// The command that finds the id of the record of `class` whose unique
/// `property` is `value`: `HGET {Type}:uniques:{property} value`.
pub fn with_command(class: &str, property: &str, value: &str) -> (r: Command)
    ensures
        r@ == seq![text_bytes("HGET"@), text_bytes(spec_uniques_key(class@, property@)), text_bytes(value@)],
{
    let key = uniques_key(class, property);
    let mut c = command1("HGET", key.as_str());
    c.arg_str(value);
    assert(c@ =~= seq![text_bytes("HGET"@), text_bytes(spec_uniques_key(class@, property@)), text_bytes(value@)]);
    c
}

/// A query for all the records of `class`: its membership index.
pub fn all_query<T>(class: &str) -> (r: Query<T>)
    ensures
        r.class@ == class@,
        forall|store: Store| #[trigger] eval(r.set, store) == store(text_bytes(spec_all_key(class@))),
{
    let key = all_key(class);
    Query::new(class, stal::Set::Key(key.as_str().as_bytes_vec()))
}

/// The ids of a query's result, handed out one at a time. The first id
/// that cannot be loaded ends the sequence.
pub struct Iter<T> {
    ids: Vec<usize>,
    pos: usize,
    stopped: bool,
    phantom: PhantomData<T>,
}

impl<T> Iter<T> {
    /// The ids not yet handed out.
    pub closed spec fn remaining(&self) -> Seq<usize> {
        if self.stopped || self.pos > self.ids@.len() {
            Seq::empty()
        } else {
            self.ids@.subrange(self.pos as int, self.ids@.len() as int)
        }
    }

    pub fn new(ids: Vec<usize>) -> (r: Self)
        ensures
            r.remaining() == ids@,
    {
        let r = Iter { ids, pos: 0, stopped: false, phantom: PhantomData };
        assert(r.ids@.subrange(0, r.ids@.len() as int) =~= r.ids@);
        r
    }

    /// The next id to load.
    pub fn next_id(&mut self) -> (r: Option<usize>)
        ensures
            old(self).remaining().len() == 0 ==> r is None && final(self).remaining().len() == 0,
            old(self).remaining().len() > 0 ==> r == Some(old(self).remaining()[0])
                && final(self).remaining() == old(self).remaining().drop_first(),
    {
        if self.stopped || self.pos >= self.ids.len() {
            return None;
        }
        let id = self.ids[self.pos];
        self.pos = self.pos + 1;
        assert(self.remaining() =~= old(self).remaining().drop_first());
        Some(id)
    }

    /// The record loaded for the id last handed out. A failed load ends the
    /// sequence: it gives no record, and no id follows.
    pub fn take_loaded<R, E>(&mut self, loaded: Result<R, E>) -> (r: Option<R>)
        ensures
            loaded is Ok ==> r == Some(loaded->Ok_0) && final(self).remaining() == old(self).remaining(),
            loaded is Err ==> r is None && final(self).remaining().len() == 0,
    {
        match loaded {
            Ok(v) => Some(v),
            Err(_) => {
                self.stop();
                None
            },
        }
    }

    /// Ends the sequence: the record of the last id could not be loaded.
    pub fn stop(&mut self)
        ensures
            final(self).remaining().len() == 0,
    {
        self.stopped = true;
    }

    /// How many ids are left, as a lower and an upper bound.
    pub fn size_hint(&self) -> (r: (usize, Option<usize>))
        ensures
            r.0 == self.remaining().len(),
            r.1 == Some(self.remaining().len() as usize),
    {
        if self.stopped || self.pos >= self.ids.len() {
            (0, Some(0))
        } else {
            let n = self.ids.len() - self.pos;
            (n, Some(n))
        }
    }
}

} // verus!
