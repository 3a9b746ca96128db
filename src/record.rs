//! The capability that a record type supplies, and the split of its
//! attributes into unique and indexed roles.
use crate::codec::{names_view, pairs_view, Decoder, Encoder};
use crate::error::{DecoderError, EncoderError, OhmerError};
use vstd::prelude::*;
use vstd::string::*;

verus! {

/// A record type that can be stored. Each type walks its own fields in a
/// fixed order; no reflection is involved. The methods carry no contract:
/// every record type implements them in its own code, and the functions
/// that call them state only what holds whatever they return.
pub trait Ohmer: Sized + Default {
    /// The record's id; 0 until it is first saved.
    fn id(&self) -> usize;

    /// Sets the id. Saving calls it; callers do not.
    fn set_id(&mut self, id: usize);

    /// The type's name in the store.
    fn get_class_name(&self) -> String;

    /// Fields whose values are unique among the type's live records.
    fn unique_fields(&self) -> Vec<String>;

    /// Fields whose values keep a set of the ids holding them.
    fn index_fields(&self) -> Vec<String>;

    /// Walks the fields in the type's fixed order, handing each to `encoder`.
    fn encode(&self, encoder: &mut Encoder) -> Result<(), EncoderError>;

    /// Builds a record from stored attributes, the id among them.
    fn decode(decoder: &Decoder) -> Result<Self, DecoderError>;
}

/// `k` ends in `_id` and has something before it.
pub open spec fn ends_with_id(k: Seq<char>) -> bool {
    k.len() > 3 && k.subrange(k.len() - 3, k.len() as int) == "_id"@
}

/// `k` without its trailing `_id`.
pub open spec fn strip_id(k: Seq<char>) -> Seq<char> {
    k.subrange(0, k.len() - 3)
}

/// Attribute pairs.
pub type Pairs = Seq<(Seq<char>, Seq<char>)>;

/// Walks `attrs` in order. An attribute whose name is a unique field not yet
/// seen goes to the first list. One whose name is an index field not yet
/// seen, or ends in `_id` after such a field's name, goes to the second.
/// The third component holds the unique fields that no attribute named.
pub open spec fn spec_roles(attrs: Pairs, uniq: Set<Seq<char>>, idx: Set<Seq<char>>) -> (Pairs, Pairs, Set<Seq<char>>)
    decreases attrs.len(),
{
    if attrs.len() == 0 {
        (Seq::empty(), Seq::empty(), uniq)
    } else {
        let k = attrs[0].0;
        let unique_hit = uniq.contains(k);
        let direct = idx.contains(k);
        let by_ref = !direct && ends_with_id(k) && idx.contains(strip_id(k));
        let rest = spec_roles(
            attrs.drop_first(),
            if unique_hit { uniq.remove(k) } else { uniq },
            if direct { idx.remove(k) } else if by_ref { idx.remove(strip_id(k)) } else { idx },
        );
        (
            if unique_hit { seq![attrs[0]] + rest.0 } else { rest.0 },
            if direct || by_ref { seq![attrs[0]] + rest.1 } else { rest.1 },
            rest.2,
        )
    }
}

/// Whether `names` holds `name`.
fn contains_name(names: &Vec<String>, name: &String) -> (r: bool)
    ensures
        r == names_view(names@).contains(name@),
{
    let mut i: usize = 0;
    while i < names.len()
        invariant
            0 <= i <= names@.len(),
            forall|j: int| 0 <= j < i ==> names_view(names@)[j] != name@,
        decreases names@.len() - i,
    {
        if names[i] == *name {
            assert(names_view(names@)[i as int] == name@);
            return true;
        }
        i = i + 1;
    }
    false
}

/// `names` without any entry equal to `name`.
fn remove_name(names: &Vec<String>, name: &String) -> (r: Vec<String>)
    ensures
        names_view(r@).to_set() == names_view(names@).to_set().remove(name@),
{
    let mut out: Vec<String> = Vec::new();
    let mut i: usize = 0;
    while i < names.len()
        invariant
            0 <= i <= names@.len(),
            names_view(out@).to_set() == names_view(names@.subrange(0, i as int)).to_set().remove(name@),
        decreases names@.len() - i,
    {
        let ghost before = names_view(out@);
        proof {
            names_view(names@.subrange(0, i as int)).lemma_push_to_set_commute(names@[i as int]@);
            before.lemma_push_to_set_commute(names@[i as int]@);
        }
        assert(names_view(names@.subrange(0, i + 1)) =~= names_view(names@.subrange(0, i as int)).push(names@[i as int]@));
        if names[i] != *name {
            out.push(names[i].clone());
            assert(names_view(out@) =~= before.push(names@[i as int]@));
        } else {
            assert(names_view(out@) =~= before);
        }
        i = i + 1;
    }
    assert(names@.subrange(0, names@.len() as int) =~= names@);
    out
}

/// Whether a name ends in `_id` with something before it; if so, the part
/// before it.
fn id_suffixed(k: &String) -> (r: Option<String>)
    ensures
        r is Some <==> ends_with_id(k@),
        r matches Some(b) ==> b@ == strip_id(k@),
{
    let s = k.as_str();
    let n = s.unicode_len();
    proof { reveal_strlit("_id"); }
    if n > 3 && s.get_char(n - 3) == '_' && s.get_char(n - 2) == 'i' && s.get_char(n - 1) == 'd' {
        assert(k@.subrange(n - 3, n as int) =~= "_id"@);
        Some(String::from_str(s.substring_char(0, n - 3)))
    } else {
        proof {
            if ends_with_id(k@) {
                assert(k@.subrange(n - 3, n as int)[0] == k@[n - 3]);
                assert(k@.subrange(n - 3, n as int)[1] == k@[n - 2]);
                assert(k@.subrange(n - 3, n as int)[2] == k@[n - 1]);
            }
        }
        None
    }
}

/// A copy of a list of names.
fn copy_names(names: &Vec<String>) -> (r: Vec<String>)
    ensures
        names_view(r@) == names_view(names@),
{
    let mut out: Vec<String> = Vec::new();
    let mut i: usize = 0;
    while i < names.len()
        invariant
            0 <= i <= names@.len(),
            names_view(out@) == names_view(names@.subrange(0, i as int)),
        decreases names@.len() - i,
    {
        let ghost before = names_view(out@);
        out.push(names[i].clone());
        assert(names_view(out@) =~= before.push(names@[i as int]@));
        assert(names_view(names@.subrange(0, i + 1)) =~= names_view(names@.subrange(0, i as int)).push(names@[i as int]@));
        i = i + 1;
    }
    assert(names@.subrange(0, names@.len() as int) =~= names@);
    out
}

/// Splits the encoded attributes into the unique-field values and the
/// indexed-field values. Fails with `UnknownIndex` when a unique field has
/// no attribute.
pub fn uniques_indices(encoder: &Encoder, unique_fields: &Vec<String>, index_fields: &Vec<String>) -> (r: Result<
    (Vec<(String, String)>, Vec<(String, String)>),
    OhmerError,
>)
    ensures
        ({
            let roles = spec_roles(
                pairs_view(encoder.attributes@),
                names_view(unique_fields@).to_set(),
                names_view(index_fields@).to_set(),
            );
            &&& r is Ok <==> roles.2 == Set::<Seq<char>>::empty()
            &&& r matches Ok((u, i)) ==> pairs_view(u@) == roles.0 && pairs_view(i@) == roles.1
            &&& r matches Err(e) ==> e matches OhmerError::UnknownIndex(f) && roles.2.contains(f@)
        }),
{
    let ghost attrs = pairs_view(encoder.attributes@);
    let ghost whole = spec_roles(attrs, names_view(unique_fields@).to_set(), names_view(index_fields@).to_set());
    let n = encoder.attributes.len();
    let mut rem_u = copy_names(unique_fields);
    let mut rem_i = copy_names(index_fields);
    let mut uniques: Vec<(String, String)> = Vec::new();
    let mut indices: Vec<(String, String)> = Vec::new();
    let mut i: usize = 0;
    assert(attrs.subrange(0, n as int) =~= attrs);
    assert(pairs_view(uniques@) =~= Seq::empty());
    assert(pairs_view(indices@) =~= Seq::empty());
    while i < n
        invariant
            n == encoder.attributes@.len(),
            attrs == pairs_view(encoder.attributes@),
            0 <= i <= n,
            whole == spec_roles(attrs, names_view(unique_fields@).to_set(), names_view(index_fields@).to_set()),
            ({
                let rest = spec_roles(attrs.subrange(i as int, n as int), names_view(rem_u@).to_set(), names_view(rem_i@).to_set());
                whole == (pairs_view(uniques@) + rest.0, pairs_view(indices@) + rest.1, rest.2)
            }),
        decreases n - i,
    {
        let ghost sub = attrs.subrange(i as int, n as int);
        let ghost old_u = pairs_view(uniques@);
        let ghost old_i = pairs_view(indices@);
        let ghost set_u = names_view(rem_u@).to_set();
        let ghost set_i = names_view(rem_i@).to_set();
        assert(sub.drop_first() =~= attrs.subrange(i + 1, n as int));
        assert(sub[0] == attrs[i as int]);
        let key = &encoder.attributes[i].0;
        let value = &encoder.attributes[i].1;
        let unique_hit = contains_name(&rem_u, key);
        let direct = contains_name(&rem_i, key);
        let mut by_ref = false;
        let mut base = String::new();
        if !direct {
            match id_suffixed(key) {
                Some(b) => {
                    by_ref = contains_name(&rem_i, &b);
                    base = b;
                },
                None => {},
            }
        }
        assert(by_ref == (!direct && ends_with_id(key@) && set_i.contains(strip_id(key@))));
        if unique_hit {
            rem_u = remove_name(&rem_u, key);
            uniques.push((key.clone(), value.clone()));
        }
        if direct {
            rem_i = remove_name(&rem_i, key);
        } else if by_ref {
            rem_i = remove_name(&rem_i, &base);
        }
        if direct || by_ref {
            indices.push((key.clone(), value.clone()));
        }
        proof {
            let rest = spec_roles(sub.drop_first(), names_view(rem_u@).to_set(), names_view(rem_i@).to_set());
            if unique_hit {
                assert(pairs_view(uniques@) =~= old_u.push(sub[0]));
                assert(old_u + (seq![sub[0]] + rest.0) =~= pairs_view(uniques@) + rest.0);
            } else {
                assert(pairs_view(uniques@) =~= old_u);
            }
            if direct || by_ref {
                assert(pairs_view(indices@) =~= old_i.push(sub[0]));
                assert(old_i + (seq![sub[0]] + rest.1) =~= pairs_view(indices@) + rest.1);
            } else {
                assert(pairs_view(indices@) =~= old_i);
            }
        }
        i = i + 1;
    }
    assert(attrs.subrange(n as int, n as int) =~= Seq::<(Seq<char>, Seq<char>)>::empty());
    assert(pairs_view(uniques@) + Seq::<(Seq<char>, Seq<char>)>::empty() =~= pairs_view(uniques@));
    assert(pairs_view(indices@) + Seq::<(Seq<char>, Seq<char>)>::empty() =~= pairs_view(indices@));
    if rem_u.len() > 0 {
        assert(names_view(rem_u@).to_set().contains(names_view(rem_u@)[0]));
        return Err(OhmerError::UnknownIndex(rem_u[0].clone()));
    }
    assert(names_view(rem_u@).to_set() =~= Set::<Seq<char>>::empty());
    Ok((uniques, indices))
}

} // verus!
