//! The key naming scheme of the store. Every name is built from the record
//! type's name, a field name, a value and an id, joined by colons.
use crate::decimal::{decimal, push_decimal};
use vstd::prelude::*;
use vstd::string::*;

verus! {

/// `{Type}:{id}`: the hash holding a record's attributes.
pub open spec fn spec_record_key(class: Seq<char>, id: nat) -> Seq<char> {
    class + ":"@ + decimal(id)
}

/// `{Type}:all`: the membership index of a type.
pub open spec fn spec_all_key(class: Seq<char>) -> Seq<char> {
    class + ":all"@
}

/// `{Type}:id`: the id allocator of a type.
pub open spec fn spec_id_key(class: Seq<char>) -> Seq<char> {
    class + ":id"@
}

/// `{Type}:uniques:{field}`: the map from values of a unique field to ids.
pub open spec fn spec_uniques_key(class: Seq<char>, field: Seq<char>) -> Seq<char> {
    class + ":uniques:"@ + field
}

/// `{Type}:indices:{field}:{value}`: the ids of the records whose indexed
/// field holds the value.
pub open spec fn spec_index_key(class: Seq<char>, field: Seq<char>, value: Seq<char>) -> Seq<char> {
    class + ":indices:"@ + field + ":"@ + value
}

/// `{Type}:{field}:{id}`: a list or set owned by a record.
pub open spec fn spec_container_key(class: Seq<char>, field: Seq<char>, id: nat) -> Seq<char> {
    class + ":"@ + field + ":"@ + decimal(id)
}

/// `{Type}:{id}:{field}`: a counter owned by a record.
pub open spec fn spec_counter_key(class: Seq<char>, id: nat, field: Seq<char>) -> Seq<char> {
    class + ":"@ + decimal(id) + ":"@ + field
}

pub fn record_key(class: &str, id: usize) -> (r: String)
    ensures
        r@ == spec_record_key(class@, id as nat),
{
    let mut k = String::from_str(class);
    k.append(":");
    push_decimal(&mut k, id as u64);
    k
}

pub fn all_key(class: &str) -> (r: String)
    ensures
        r@ == spec_all_key(class@),
{
    let mut k = String::from_str(class);
    k.append(":all");
    k
}

pub fn id_key(class: &str) -> (r: String)
    ensures
        r@ == spec_id_key(class@),
{
    let mut k = String::from_str(class);
    k.append(":id");
    k
}

pub fn uniques_key(class: &str, field: &str) -> (r: String)
    ensures
        r@ == spec_uniques_key(class@, field@),
{
    let mut k = String::from_str(class);
    k.append(":uniques:");
    k.append(field);
    k
}

pub fn index_key(class: &str, field: &str, value: &str) -> (r: String)
    ensures
        r@ == spec_index_key(class@, field@, value@),
{
    let mut k = String::from_str(class);
    k.append(":indices:");
    k.append(field);
    k.append(":");
    k.append(value);
    k
}

pub fn container_key(class: &str, field: &str, id: usize) -> (r: String)
    ensures
        r@ == spec_container_key(class@, field@, id as nat),
{
    let mut k = String::from_str(class);
    k.append(":");
    k.append(field);
    k.append(":");
    push_decimal(&mut k, id as u64);
    k
}

pub fn counter_key(class: &str, id: usize, field: &str) -> (r: String)
    ensures
        r@ == spec_counter_key(class@, id as nat, field@),
{
    let mut k = String::from_str(class);
    k.append(":");
    push_decimal(&mut k, id as u64);
    k.append(":");
    k.append(field);
    k
}

} // verus!
