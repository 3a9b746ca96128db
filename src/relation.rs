//! Fields that live in the store beside a record's hash: references to
//! other records, lists, sets, collections and counters. Each accessor
//! names its container from the owner's type, the field and the owner's id,
//! and produces the command to send.
use crate::codec::signed_decimal;
use crate::command::{command1, text_bytes, Command};
use crate::decimal::{decimal, to_decimal};
use crate::error::OhmerError;
use crate::keys::{container_key, counter_key, record_key, spec_container_key, spec_counter_key, spec_record_key};
use crate::query::{eval, index_set_key, Query, Store};
use std::marker::PhantomData;
use vstd::prelude::*;

verus! {

/// The key of a record's list or set field, or `NotSaved` for a record
/// without an id.
pub open spec fn spec_container_of(class: Seq<char>, property: Seq<char>, id: usize) -> Result<Seq<char>, ()> {
    if id == 0 {
        Err(())
    } else {
        Ok(spec_container_key(class, property, id as nat))
    }
}

/// `r` is the command `name key`, or `NotSaved` where the owner has no id.
pub open spec fn keyed_command(r: Result<Command, OhmerError>, name: Seq<char>, class: Seq<char>, property: Seq<char>, id: usize) -> bool {
    match spec_container_of(class, property, id) {
        Err(_) => r matches Err(e) && e is NotSaved,
        Ok(k) => r matches Ok(c) && c@ == seq![text_bytes(name), text_bytes(k)],
    }
}

/// `r` is the command `name key arg`, or `NotSaved` where the owner has no id.
pub open spec fn keyed_command_arg(
    r: Result<Command, OhmerError>,
    name: Seq<char>,
    class: Seq<char>,
    property: Seq<char>,
    id: usize,
    arg: Seq<char>,
) -> bool {
    match spec_container_of(class, property, id) {
        Err(_) => r matches Err(e) && e is NotSaved,
        Ok(k) => r matches Ok(c) && c@ == seq![text_bytes(name), text_bytes(k), text_bytes(arg)],
    }
}

fn key_name(class: &str, property: &str, id: usize) -> (r: Result<String, OhmerError>)
    ensures
        match spec_container_of(class@, property@, id) {
            Err(_) => r matches Err(e) && e is NotSaved,
            Ok(k) => r matches Ok(s) && s@ == k,
        },
{
    if id == 0 {
        Err(OhmerError::NotSaved)
    } else {
        Ok(container_key(class, property, id))
    }
}

fn keyed(name: &str, class: &str, property: &str, id: usize) -> (r: Result<Command, OhmerError>)
    ensures
        keyed_command(r, name@, class@, property@, id),
{
    let key = key_name(class, property, id)?;
    Ok(command1(name, key.as_str()))
}

fn keyed_id(name: &str, class: &str, property: &str, id: usize, member: usize) -> (r: Result<Command, OhmerError>)
    ensures
        keyed_command_arg(r, name@, class@, property@, id, decimal(member as nat)),
{
    let key = key_name(class, property, id)?;
    let mut c = command1(name, key.as_str());
    c.arg_usize(member);
    assert(c@ =~= seq![text_bytes(name@), text_bytes(key@), text_bytes(decimal(member as nat))]);
    Ok(c)
}

/// The command that reads a record's attributes: `HGETALL {Type}:{id}`.
pub fn load_command(class: &str, id: usize) -> (r: Command)
    ensures
        r@ == seq![text_bytes("HGETALL"@), text_bytes(spec_record_key(class@, id as nat))],
{
    let key = record_key(class, id);
    command1("HGETALL", key.as_str())
}

/// A reference to another record, by id; 0 when unset.
pub struct Reference<T> {
    pub id: usize,
    pub phantom: PhantomData<T>,
}

impl<T> Reference<T> {
    /// A reference with no value.
    pub fn new() -> (r: Self)
        ensures
            r.id == 0,
    {
        Reference { id: 0, phantom: PhantomData }
    }

    /// A reference to the record with id `id`.
    pub fn with_value(id: usize) -> (r: Self)
        ensures
            r.id == id,
    {
        Reference { id, phantom: PhantomData }
    }

    /// The command that reads the referenced record, of type `class`.
    pub fn get(&self, class: &str) -> (r: Command)
        ensures
            r@ == seq![text_bytes("HGETALL"@), text_bytes(spec_record_key(class@, self.id as nat))],
    {
        load_command(class, self.id)
    }

    /// Points the reference at the record with id `id`. The owner must
    /// still be saved.
    pub fn set(&mut self, id: usize)
        ensures
            final(self).id == id,
    {
        self.id = id;
    }
}

/// Atomic counter, stored at `{Type}:{id}:{field}`.
pub struct Counter;

impl Counter {
    /// Key name in the database.
    fn get_key(&self, class: &str, id: usize, prop: &str) -> (r: Result<String, OhmerError>)
        ensures
            id == 0 ==> (r matches Err(e) && e is NotSaved),
            id != 0 ==> (r matches Ok(k) && k@ == spec_counter_key(class@, id as nat, prop@)),
    {
        if id == 0 {
            return Err(OhmerError::NotSaved);
        }
        Ok(counter_key(class, id, prop))
    }

    /// The command that adds `incr` to the counter and returns the new value.
    pub fn incr(&self, class: &str, id: usize, prop: &str, incr: i64) -> (r: Result<Command, OhmerError>)
        ensures
            id == 0 ==> (r matches Err(e) && e is NotSaved),
            id != 0 ==> (r matches Ok(c) && c@ == seq![
                text_bytes("INCRBY"@),
                text_bytes(spec_counter_key(class@, id as nat, prop@)),
                text_bytes(signed_decimal(incr as int)),
            ]),
    {
        let key = self.get_key(class, id, prop)?;
        let mut c = command1("INCRBY", key.as_str());
        c.arg_i64(incr);
        Ok(c)
    }

    /// The command that reads the counter.
    pub fn get(&self, class: &str, id: usize, prop: &str) -> (r: Result<Command, OhmerError>)
        ensures
            id == 0 ==> (r matches Err(e) && e is NotSaved),
            id != 0 ==> (r matches Ok(c) && c@ == seq![
                text_bytes("GET"@),
                text_bytes(spec_counter_key(class@, id as nat, prop@)),
            ]),
    {
        let key = self.get_key(class, id, prop)?;
        Ok(command1("GET", key.as_str()))
    }

    /// The counter's value from the store's reply: a counter never
    /// incremented is zero.
    pub fn value(reply: Option<i64>) -> (r: i64)
        ensures
            r == match reply {
                Some(v) => v,
                None => 0,
            },
    {
        match reply {
            Some(v) => v,
            None => 0,
        }
    }
}

/// An ordered list of other records, stored as their ids.
pub struct List<T> {
    phantom: PhantomData<T>,
}

impl<T> List<T> {
    pub fn new() -> Self {
        List { phantom: PhantomData }
    }

    /// Number of items in the list.
    pub fn len(&self, class: &str, property: &str, id: usize) -> (r: Result<Command, OhmerError>)
        ensures
            keyed_command(r, "LLEN"@, class@, property@, id),
    {
        keyed("LLEN", class, property, id)
    }

    /// Adds an element at the end of the list.
    pub fn push_back(&self, class: &str, property: &str, id: usize, member: usize) -> (r: Result<Command, OhmerError>)
        ensures
            keyed_command_arg(r, "RPUSH"@, class@, property@, id, decimal(member as nat)),
    {
        keyed_id("RPUSH", class, property, id, member)
    }

    /// Takes the id at the end of the list.
    pub fn pop_back(&self, class: &str, property: &str, id: usize) -> (r: Result<Command, OhmerError>)
        ensures
            keyed_command(r, "RPOP"@, class@, property@, id),
    {
        keyed("RPOP", class, property, id)
    }

    /// Adds an element at the beginning of the list.
    pub fn push_front(&self, class: &str, property: &str, id: usize, member: usize) -> (r: Result<Command, OhmerError>)
        ensures
            keyed_command_arg(r, "LPUSH"@, class@, property@, id, decimal(member as nat)),
    {
        keyed_id("LPUSH", class, property, id, member)
    }

    /// Takes the id at the beginning of the list.
    pub fn pop_front(&self, class: &str, property: &str, id: usize) -> (r: Result<Command, OhmerError>)
        ensures
            keyed_command(r, "LPOP"@, class@, property@, id),
    {
        keyed("LPOP", class, property, id)
    }

    /// Reads the id at the beginning of the list.
    pub fn first(&self, class: &str, property: &str, id: usize) -> (r: Result<Command, OhmerError>)
        ensures
            keyed_command_arg(r, "LINDEX"@, class@, property@, id, "0"@),
    {
        let key = key_name(class, property, id)?;
        let mut c = command1("LINDEX", key.as_str());
        c.arg_str("0");
        assert(c@ =~= seq![text_bytes("LINDEX"@), text_bytes(key@), text_bytes("0"@)]);
        Ok(c)
    }

    /// Reads the id at the end of the list.
    pub fn last(&self, class: &str, property: &str, id: usize) -> (r: Result<Command, OhmerError>)
        ensures
            keyed_command_arg(r, "LINDEX"@, class@, property@, id, "-1"@),
    {
        let key = key_name(class, property, id)?;
        let mut c = command1("LINDEX", key.as_str());
        c.arg_str("-1");
        assert(c@ =~= seq![text_bytes("LINDEX"@), text_bytes(key@), text_bytes("-1"@)]);
        Ok(c)
    }

    /// Reads the ids between `start` and `end`, both included; negative
    /// positions count from the end.
    pub fn try_range(&self, class: &str, property: &str, id: usize, start: i64, end: i64) -> (r: Result<Command, OhmerError>)
        ensures
            match spec_container_of(class@, property@, id) {
                Err(_) => r matches Err(e) && e is NotSaved,
                Ok(k) => r matches Ok(c) && c@ == seq![
                    text_bytes("LRANGE"@),
                    text_bytes(k),
                    text_bytes(signed_decimal(start as int)),
                    text_bytes(signed_decimal(end as int)),
                ],
            },
    {
        let key = key_name(class, property, id)?;
        let mut c = command1("LRANGE", key.as_str());
        c.arg_i64(start);
        c.arg_i64(end);
        Ok(c)
    }

    /// Reads all the ids of the list.
    pub fn try_iter(&self, class: &str, property: &str, id: usize) -> (r: Result<Command, OhmerError>)
        ensures
            match spec_container_of(class@, property@, id) {
                Err(_) => r matches Err(e) && e is NotSaved,
                Ok(k) => r matches Ok(c) && c@ == seq![
                    text_bytes("LRANGE"@),
                    text_bytes(k),
                    text_bytes(signed_decimal(0)),
                    text_bytes(signed_decimal(-1)),
                ],
            },
    {
        self.try_range(class, property, id, 0, -1)
    }

    /// Whether `member` is among the ids that `try_iter`'s command returned.
    pub fn contains(&self, ids: &Vec<usize>, member: usize) -> (r: bool)
        ensures
            r == ids@.contains(member),
    {
        let id = member;
        let mut i: usize = 0;
        while i < ids.len()
            invariant
                0 <= i <= ids@.len(),
                id == member,
                forall|j: int| 0 <= j < i ==> ids@[j] != id,
            decreases ids@.len() - i,
        {
            if ids[i] == id {
                return true;
            }
            i = i + 1;
        }
        false
    }

    /// Removes every occurrence of `obj` from the list.
    pub fn remove(&self, class: &str, property: &str, id: usize, member: usize) -> (r: Result<Command, OhmerError>)
        ensures
            match spec_container_of(class@, property@, id) {
                Err(_) => r matches Err(e) && e is NotSaved,
                Ok(k) => r matches Ok(c) && c@ == seq![
                    text_bytes("LREM"@),
                    text_bytes(k),
                    text_bytes("0"@),
                    text_bytes(decimal(member as nat)),
                ],
            },
    {
        let key = key_name(class, property, id)?;
        let mut c = command1("LREM", key.as_str());
        c.arg_str("0");
        c.arg_usize(member);
        Ok(c)
    }
}

/// An unordered set of other records, stored as their ids.
pub struct IdSet<T> {
    phantom: PhantomData<T>,
}

impl<T> IdSet<T> {
    pub fn new() -> Self {
        IdSet { phantom: PhantomData }
    }

    /// The set expression for the set's key, for composing queries.
    pub fn key(&self, class: &str, property: &str, id: usize) -> (r: Result<stal::Set, OhmerError>)
        ensures
            match spec_container_of(class@, property@, id) {
                Err(_) => r matches Err(e) && e is NotSaved,
                Ok(k) => r matches Ok(s) && forall|store: Store| #[trigger] eval(s, store) == store(text_bytes(k)),
            },
    {
        let key = key_name(class, property, id)?;
        Ok(stal::Set::Key(key.as_str().as_bytes_vec()))
    }

    /// A query for the records in the set, which are of type `member_class`.
    pub fn query(&self, member_class: &str, class: &str, property: &str, id: usize) -> (r: Result<Query<T>, OhmerError>)
        ensures
            match spec_container_of(class@, property@, id) {
                Err(_) => r matches Err(e) && e is NotSaved,
                Ok(k) => r matches Ok(q) && q.class@ == member_class@
                    && forall|store: Store| #[trigger] eval(q.set, store) == store(text_bytes(k)),
            },
    {
        let key = self.key(class, property, id)?;
        Ok(Query::new(member_class, key))
    }

    /// Adds an element; the reply tells whether it was absent.
    pub fn insert(&self, class: &str, property: &str, id: usize, member: usize) -> (r: Result<Command, OhmerError>)
        ensures
            keyed_command_arg(r, "SADD"@, class@, property@, id, decimal(member as nat)),
    {
        keyed_id("SADD", class, property, id, member)
    }

    /// Removes an element; the reply tells whether it was present.
    pub fn remove(&self, class: &str, property: &str, id: usize, member: usize) -> (r: Result<Command, OhmerError>)
        ensures
            keyed_command_arg(r, "SREM"@, class@, property@, id, decimal(member as nat)),
    {
        keyed_id("SREM", class, property, id, member)
    }

    /// Whether an element is in the set.
    pub fn contains(&self, class: &str, property: &str, id: usize, member: usize) -> (r: Result<Command, OhmerError>)
        ensures
            keyed_command_arg(r, "SISMEMBER"@, class@, property@, id, decimal(member as nat)),
    {
        keyed_id("SISMEMBER", class, property, id, member)
    }

    /// Number of elements in the set.
    pub fn len(&self, class: &str, property: &str, id: usize) -> (r: Result<Command, OhmerError>)
        ensures
            keyed_command(r, "SCARD"@, class@, property@, id),
    {
        keyed("SCARD", class, property, id)
    }
}

pub open spec fn is_ascii_upper(c: char) -> bool {
    'A' <= c && c <= 'Z'
}

/// Relies on `str::to_ascii_lowercase`: each ASCII upper-case letter becomes
/// its lower-case letter, 32 code points further; every other character
/// stays.
#[verifier::external_body]
fn ascii_lowercase(s: &str) -> (r: String)
    ensures
        r@.len() == s@.len(),
        forall|i: int| 0 <= i < s@.len() ==> if is_ascii_upper(#[trigger] s@[i]) {
            r@[i] as u32 == s@[i] as u32 + 32
        } else {
            r@[i] == s@[i]
        },
{
    s.to_ascii_lowercase()
}

/// `low` is `s` with its ASCII upper-case letters made lower-case.
pub open spec fn is_ascii_lowered(low: Seq<char>, s: Seq<char>) -> bool {
    &&& low.len() == s.len()
    &&& forall|i: int| 0 <= i < s.len() ==> if is_ascii_upper(#[trigger] s[i]) {
        low[i] as u32 == s[i] as u32 + 32
    } else {
        low[i] == s[i]
    }
}

/// The records of another type whose reference field points at the owner.
/// It has no storage of its own: it is a query on that type's index.
pub struct Collection<T> {
    pub phantom: PhantomData<T>,
}

impl<T> Collection<T> {
    pub fn new() -> Self {
        Collection { phantom: PhantomData }
    }

    /// A query for the records of `class` whose reference `property`, in
    /// lower case and followed by `_id`, holds `parent_id`.
    pub fn all(&self, class: &str, property: &str, parent_id: usize) -> (r: Query<T>)
        ensures
            r.class@ == class@,
            exists|low: Seq<char>| is_ascii_lowered(low, property@) && forall|store: Store| #[trigger] eval(r.set, store)
                == store(index_set_key(class@, low + "_id"@, decimal(parent_id as nat))),
    {
        let mut field = ascii_lowercase(property);
        let ghost low = field@;
        field.append("_id");
        let value = to_decimal(parent_id as u64);
        let q = Query::find(class, field.as_str(), value.as_str());
        assert(is_ascii_lowered(low, property@));
        q
    }
}

} // verus!
