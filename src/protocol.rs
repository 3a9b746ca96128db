//! The persistence protocol: the payloads of the store's atomic save and
//! delete scripts, and the reading of their replies.
use crate::codec::{names_view, pairs_view, Encoder};
use crate::decimal::{decimal, to_decimal};
use crate::error::{EncoderError, OhmerError};
use crate::keys::{container_key, counter_key, record_key, spec_container_key, spec_counter_key, spec_record_key};
use crate::msgpack::{array_header, fits, map_header, msgpack_str, write_array_len, write_map_len, write_str};
use crate::record::{ends_with_id, spec_roles, strip_id, uniques_indices, Pairs};
use vstd::prelude::*;
use vstd::string::*;
use vstd::utf8::*;

verus! {

/// Each pair as a str for its name and a str for its value.
pub open spec fn flat_body(p: Pairs) -> Seq<u8>
    decreases p.len(),
{
    if p.len() == 0 {
        Seq::empty()
    } else {
        flat_body(p.drop_last()) + msgpack_str(p.last().0) + msgpack_str(p.last().1)
    }
}

/// Each pair as a str for its name and a one-item array holding its value.
pub open spec fn listed_body(p: Pairs) -> Seq<u8>
    decreases p.len(),
{
    if p.len() == 0 {
        Seq::empty()
    } else {
        listed_body(p.drop_last()) + msgpack_str(p.last().0) + array_header(1) + msgpack_str(p.last().1)
    }
}

/// Each text as a str.
pub open spec fn strs_body(s: Seq<Seq<char>>) -> Seq<u8>
    decreases s.len(),
{
    if s.len() == 0 {
        Seq::empty()
    } else {
        strs_body(s.drop_last()) + msgpack_str(s.last())
    }
}

pub open spec fn pairs_fit(p: Pairs) -> bool {
    forall|i: int| #![trigger p[i]] 0 <= i < p.len() ==> fits(p[i].0) && fits(p[i].1)
}

pub open spec fn strs_fit(s: Seq<Seq<char>>) -> bool {
    forall|i: int| 0 <= i < s.len() ==> fits(#[trigger] s[i])
}

/// The attribute list: an array of names and values in turn.
pub open spec fn attributes_payload(p: Pairs) -> Seq<u8> {
    array_header(2 * p.len()) + flat_body(p)
}

/// The unique fields: a map from each field to its value.
pub open spec fn uniques_payload(p: Pairs) -> Seq<u8> {
    map_header(p.len()) + flat_body(p)
}

/// The indexed fields: a map from each field to the list of its values.
pub open spec fn indices_payload(p: Pairs) -> Seq<u8> {
    map_header(p.len()) + listed_body(p)
}

/// The record's type for the save script: its name, and its id once it has one.
pub open spec fn save_model_payload(class: Seq<char>, id: nat) -> Seq<u8> {
    if id == 0 {
        map_header(1) + msgpack_str("name"@) + msgpack_str(class)
    } else {
        map_header(2) + msgpack_str("name"@) + msgpack_str(class) + msgpack_str("id"@) + msgpack_str(decimal(id))
    }
}

/// Appends the pairs, each value as a str or, with `listed`, as a one-item array.
fn write_pairs(buf: &mut Vec<u8>, pairs: &Vec<(String, String)>, listed: bool) -> (r: Result<(), EncoderError>)
    ensures
        r is Ok <==> pairs_fit(pairs_view(pairs@)),
        r is Ok ==> final(buf)@ == old(buf)@ + if listed {
            listed_body(pairs_view(pairs@))
        } else {
            flat_body(pairs_view(pairs@))
        },
        r is Err ==> r->Err_0 is TooLong,
{
    let ghost p = pairs_view(pairs@);
    let ghost start = buf@;
    let mut i: usize = 0;
    assert(p.subrange(0, 0) =~= Seq::<(Seq<char>, Seq<char>)>::empty());
    assert(start + Seq::<u8>::empty() =~= start);
    while i < pairs.len()
        invariant
            p == pairs_view(pairs@),
            0 <= i <= pairs@.len(),
            pairs_fit(p.subrange(0, i as int)),
            buf@ == start + if listed {
                listed_body(p.subrange(0, i as int))
            } else {
                flat_body(p.subrange(0, i as int))
            },
        decreases pairs@.len() - i,
    {
        let ghost prev = buf@;
        let ghost sub = p.subrange(0, i + 1);
        assert(sub.drop_last() =~= p.subrange(0, i as int));
        assert(sub.last() == p[i as int]);
        assert(p[i as int] == (pairs@[i as int].0@, pairs@[i as int].1@));
        let name = pairs[i].0.as_str();
        let value = pairs[i].1.as_str();
        match write_str(buf, name, name) {
            Ok(()) => {},
            Err(e) => {
                assert(!fits(p[i as int].0));
                return Err(e);
            },
        }
        if listed {
            write_array_len(buf, 1);
        }
        match write_str(buf, value, name) {
            Ok(()) => {},
            Err(e) => {
                proof {
                    let k = i as int;
                    assert(0 <= k < p.len() && !(fits(p[k].0) && fits(p[k].1)));
                    assert(!pairs_fit(p));
                }
                return Err(e);
            },
        }
        proof {
            if listed {
                assert(buf@ =~= start + listed_body(sub));
            } else {
                assert(buf@ =~= start + flat_body(sub));
            }
            assert forall|j: int| 0 <= j < sub.len() implies fits(#[trigger] sub[j].0) && fits(sub[j].1) by {
                if j < i {
                    assert(sub[j] == p.subrange(0, i as int)[j]);
                }
            }
        }
        i = i + 1;
    }
    assert(p.subrange(0, pairs@.len() as int) =~= p);
    Ok(())
}

/// Appends the texts, each as a str.
fn write_strs(buf: &mut Vec<u8>, items: &Vec<String>) -> (r: Result<(), EncoderError>)
    ensures
        r is Ok <==> strs_fit(names_view(items@)),
        r is Ok ==> final(buf)@ == old(buf)@ + strs_body(names_view(items@)),
        r is Err ==> r->Err_0 is TooLong,
{
    let ghost s = names_view(items@);
    let ghost start = buf@;
    let mut i: usize = 0;
    assert(s.subrange(0, 0) =~= Seq::<Seq<char>>::empty());
    assert(start + Seq::<u8>::empty() =~= start);
    while i < items.len()
        invariant
            s == names_view(items@),
            0 <= i <= items@.len(),
            strs_fit(s.subrange(0, i as int)),
            buf@ == start + strs_body(s.subrange(0, i as int)),
        decreases items@.len() - i,
    {
        let ghost sub = s.subrange(0, i + 1);
        assert(sub.drop_last() =~= s.subrange(0, i as int));
        let item = items[i].as_str();
        match write_str(buf, item, item) {
            Ok(()) => {},
            Err(e) => {
                assert(!fits(s[i as int]));
                return Err(e);
            },
        }
        proof {
            assert(buf@ =~= start + strs_body(sub));
            assert forall|j: int| 0 <= j < sub.len() implies fits(#[trigger] sub[j]) by {
                if j < i {
                    assert(sub[j] == s.subrange(0, i as int)[j]);
                }
            }
        }
        i = i + 1;
    }
    assert(s.subrange(0, items@.len() as int) =~= s);
    Ok(())
}

/// Ten to the power `k`.
pub open spec fn pow10(k: nat) -> nat
    decreases k,
{
    if k == 0 { 1 } else { 10 * pow10((k - 1) as nat) }
}

proof fn lemma_ascii_fits(s: Seq<char>)
    requires
        is_ascii_chars(s),
        s.len() <= u32::MAX,
    ensures
        fits(s),
{
    is_ascii_chars_encode_utf8(s);
}

proof fn lemma_decimal_len(n: nat, k: nat)
    requires
        n < pow10(k),
        k >= 1,
    ensures
        decimal(n).len() <= k,
        is_ascii_chars(decimal(n)),
    decreases n,
{
    if n >= 10 {
        assert(k >= 2) by {
            if k == 1 {
                reveal_with_fuel(pow10, 2);
            }
        }
        assert(n / 10 < pow10((k - 1) as nat)) by (nonlinear_arith)
            requires
                n < pow10(k),
                pow10(k) == 10 * pow10((k - 1) as nat),
        ;
        lemma_decimal_len(n / 10, (k - 1) as nat);
        assert forall|i: int| 0 <= i < decimal(n).len() implies '\0' <= #[trigger] decimal(n)[i] <= '\u{7f}' by {
            if i < decimal(n).len() - 1 {
                assert(decimal(n)[i] == decimal(n / 10)[i]);
            }
        }
    }
}

/// A machine-sized id in decimal fits the str framing.
proof fn lemma_id_fits(id: usize)
    ensures
        fits(decimal(id as nat)),
{
    reveal_with_fuel(pow10, 21);
    assert(pow10(20) == 100000000000000000000nat);
    lemma_decimal_len(id as nat, 20);
    lemma_ascii_fits(decimal(id as nat));
}

/// Every pair that `spec_roles` selects is one of the attributes, and
/// neither selection is longer than the attributes.
proof fn lemma_roles_within(attrs: Pairs, uniq: Set<Seq<char>>, idx: Set<Seq<char>>)
    ensures
        ({
            let roles = spec_roles(attrs, uniq, idx);
            &&& roles.0.len() <= attrs.len()
            &&& roles.1.len() <= attrs.len()
            &&& forall|j: int| 0 <= j < roles.0.len() ==> attrs.contains(#[trigger] roles.0[j])
            &&& forall|j: int| 0 <= j < roles.1.len() ==> attrs.contains(#[trigger] roles.1[j])
        }),
    decreases attrs.len(),
{
    if attrs.len() > 0 {
        let k = attrs[0].0;
        let unique_hit = uniq.contains(k);
        let direct = idx.contains(k);
        let by_ref = !direct && ends_with_id(k) && idx.contains(strip_id(k));
        let u2 = if unique_hit { uniq.remove(k) } else { uniq };
        let i2 = if direct { idx.remove(k) } else if by_ref { idx.remove(strip_id(k)) } else { idx };
        lemma_roles_within(attrs.drop_first(), u2, i2);
        let rest = spec_roles(attrs.drop_first(), u2, i2);
        let roles = spec_roles(attrs, uniq, idx);
        assert forall|j: int| 0 <= j < roles.0.len() implies attrs.contains(#[trigger] roles.0[j]) by {
            if unique_hit && j == 0 {
                assert(attrs[0] == roles.0[j]);
            } else {
                let jj = if unique_hit { j - 1 } else { j };
                assert(roles.0[j] == rest.0[jj]);
                let w = choose|w: int| 0 <= w < attrs.drop_first().len() && attrs.drop_first()[w] == rest.0[jj];
                assert(attrs[w + 1] == roles.0[j]);
            }
        }
        assert forall|j: int| 0 <= j < roles.1.len() implies attrs.contains(#[trigger] roles.1[j]) by {
            if (direct || by_ref) && j == 0 {
                assert(attrs[0] == roles.1[j]);
            } else {
                let jj = if direct || by_ref { j - 1 } else { j };
                assert(roles.1[j] == rest.1[jj]);
                let w = choose|w: int| 0 <= w < attrs.drop_first().len() && attrs.drop_first()[w] == rest.1[jj];
                assert(attrs[w + 1] == roles.1[j]);
            }
        }
    }
}

proof fn lemma_fit_within(attrs: Pairs, part: Pairs)
    requires
        pairs_fit(attrs),
        forall|j: int| 0 <= j < part.len() ==> attrs.contains(#[trigger] part[j]),
    ensures
        pairs_fit(part),
{
    assert forall|j: int| 0 <= j < part.len() implies fits(#[trigger] part[j].0) && fits(part[j].1) by {
        assert(attrs.contains(part[j]));
        let w = choose|w: int| 0 <= w < attrs.len() && attrs[w] == part[j];
        assert(attrs[w] == part[j]);
    }
}

/// The texts of a save are short enough for the framing: the type's name,
/// every attribute name and value, and the number of attributes.
pub open spec fn save_fits(class: Seq<char>, attrs: Pairs) -> bool {
    fits(class) && pairs_fit(attrs) && attrs.len() <= 2147483647
}

/// The four arguments of the save script, in order.
pub struct SaveRequest {
    pub model: Vec<u8>,
    pub attributes: Vec<u8>,
    pub indices: Vec<u8>,
    pub uniques: Vec<u8>,
}

fn literal_str(buf: &mut Vec<u8>, s: &str)
    requires
        is_ascii_chars(s@),
        s@.len() <= 16,
    ensures
        final(buf)@ == old(buf)@ + msgpack_str(s@),
{
    proof { lemma_ascii_fits(s@); }
    let _ = write_str(buf, s, s);
}

/// The arguments of the save script for a record of the encoded type with
/// id `id` (0 when it has none yet). Fails with `UnknownIndex` when a unique
/// field has no attribute, and with `TooLong` when a text exceeds the framing.
pub fn save_payload(encoder: &Encoder, id: usize, unique_fields: &Vec<String>, index_fields: &Vec<String>) -> (r: Result<SaveRequest, OhmerError>)
    ensures
        ({
            let attrs = pairs_view(encoder.attributes@);
            let roles = spec_roles(attrs, names_view(unique_fields@).to_set(), names_view(index_fields@).to_set());
            &&& roles.2 != Set::<Seq<char>>::empty() ==> (r matches Err(e) && e matches OhmerError::UnknownIndex(f) && roles.2.contains(f@))
            &&& (roles.2 == Set::<Seq<char>>::empty() && !save_fits(encoder.name@, attrs)) ==> (r matches Err(e) && e matches OhmerError::EncoderError(EncoderError::TooLong(_)))
            &&& (roles.2 == Set::<Seq<char>>::empty() && save_fits(encoder.name@, attrs)) ==> (r matches Ok(req)
                && req.model@ == save_model_payload(encoder.name@, id as nat)
                && req.attributes@ == attributes_payload(attrs)
                && req.indices@ == indices_payload(roles.1)
                && req.uniques@ == uniques_payload(roles.0))
        }),
{
    let ghost attrs = pairs_view(encoder.attributes@);
    let (uniques, indices) = uniques_indices(encoder, unique_fields, index_fields)?;
    proof {
        lemma_roles_within(attrs, names_view(unique_fields@).to_set(), names_view(index_fields@).to_set());
    }
    let n = encoder.attributes.len();
    if n > 2147483647 {
        return Err(OhmerError::EncoderError(EncoderError::TooLong(encoder.name.clone())));
    }
    let mut attributes: Vec<u8> = Vec::new();
    write_array_len(&mut attributes, (2 * n) as u32);
    match write_pairs(&mut attributes, &encoder.attributes, false) {
        Ok(()) => {},
        Err(e) => return Err(OhmerError::EncoderError(e)),
    }
    let mut model: Vec<u8> = Vec::new();
    proof { reveal_strlit("name"); reveal_strlit("id"); }
    if id == 0 {
        write_map_len(&mut model, 1);
    } else {
        write_map_len(&mut model, 2);
    }
    literal_str(&mut model, "name");
    match write_str(&mut model, encoder.name.as_str(), encoder.name.as_str()) {
        Ok(()) => {},
        Err(e) => return Err(OhmerError::EncoderError(e)),
    }
    if id != 0 {
        literal_str(&mut model, "id");
        let text = to_decimal(id as u64);
        proof { lemma_id_fits(id); }
        let _ = write_str(&mut model, text.as_str(), text.as_str());
    }
    proof {
        lemma_fit_within(attrs, pairs_view(uniques@));
        lemma_fit_within(attrs, pairs_view(indices@));
    }
    let mut index_bytes: Vec<u8> = Vec::new();
    write_map_len(&mut index_bytes, indices.len() as u32);
    let _ = write_pairs(&mut index_bytes, &indices, true);
    let mut unique_bytes: Vec<u8> = Vec::new();
    write_map_len(&mut unique_bytes, uniques.len() as u32);
    let _ = write_pairs(&mut unique_bytes, &uniques, false);
    proof {
        assert(attributes@ =~= attributes_payload(attrs));
        assert(model@ =~= save_model_payload(encoder.name@, id as nat));
        assert(index_bytes@ =~= indices_payload(pairs_view(indices@)));
        assert(unique_bytes@ =~= uniques_payload(pairs_view(uniques@)));
    }
    Ok(SaveRequest { model, attributes, indices: index_bytes, uniques: unique_bytes })
}

/// The record for the delete script: type name, id and hash key.
pub open spec fn delete_model_payload(class: Seq<char>, id: nat) -> Seq<u8> {
    map_header(3) + msgpack_str("name"@) + msgpack_str(class) + msgpack_str("id"@) + msgpack_str(decimal(id))
        + msgpack_str("key"@) + msgpack_str(spec_record_key(class, id))
}

/// The keys of the containers a record owns: its sets, its counters and its
/// lists, in that order.
pub open spec fn owned_keys(class: Seq<char>, id: nat, sets: Seq<Seq<char>>, counters: Seq<Seq<char>>, lists: Seq<Seq<char>>) -> Seq<Seq<char>> {
    sets.map_values(|f: Seq<char>| spec_container_key(class, f, id))
        + counters.map_values(|f: Seq<char>| spec_counter_key(class, id, f))
        + lists.map_values(|f: Seq<char>| spec_container_key(class, f, id))
}

/// The container keys as an array of strs.
pub open spec fn owned_payload(keys: Seq<Seq<char>>) -> Seq<u8> {
    array_header(keys.len()) + strs_body(keys)
}

/// The texts of a delete are short enough for the framing.
pub open spec fn delete_fits(class: Seq<char>, id: nat, uniques: Pairs, keys: Seq<Seq<char>>) -> bool {
    &&& fits(class)
    &&& fits(spec_record_key(class, id))
    &&& pairs_fit(uniques)
    &&& uniques.len() <= u32::MAX
    &&& strs_fit(keys)
    &&& keys.len() <= u32::MAX
}

/// The three arguments of the delete script, in order.
pub struct DeleteRequest {
    pub model: Vec<u8>,
    pub uniques: Vec<u8>,
    pub owned: Vec<u8>,
}

/// Appends to `out` the key of each field's container.
fn push_owned(out: &mut Vec<String>, class: &str, id: usize, fields: &Vec<String>, counters: bool)
    ensures
        names_view(final(out)@) == names_view(old(out)@) + if counters {
            names_view(fields@).map_values(|f: Seq<char>| spec_counter_key(class@, id as nat, f))
        } else {
            names_view(fields@).map_values(|f: Seq<char>| spec_container_key(class@, f, id as nat))
        },
{
    let ghost start = names_view(out@);
    let mut i: usize = 0;
    while i < fields.len()
        invariant
            0 <= i <= fields@.len(),
            names_view(out@) == start + if counters {
                names_view(fields@.subrange(0, i as int)).map_values(|f: Seq<char>| spec_counter_key(class@, id as nat, f))
            } else {
                names_view(fields@.subrange(0, i as int)).map_values(|f: Seq<char>| spec_container_key(class@, f, id as nat))
            },
        decreases fields@.len() - i,
    {
        let ghost before = names_view(out@);
        let key = if counters {
            counter_key(class, id, fields[i].as_str())
        } else {
            container_key(class, fields[i].as_str(), id)
        };
        out.push(key);
        proof {
            assert(names_view(out@) =~= before.push(key@));
            if counters {
                assert(names_view(fields@.subrange(0, i + 1)).map_values(|f: Seq<char>| spec_counter_key(class@, id as nat, f))
                    =~= names_view(fields@.subrange(0, i as int)).map_values(|f: Seq<char>| spec_counter_key(class@, id as nat, f)).push(key@));
            } else {
                assert(names_view(fields@.subrange(0, i + 1)).map_values(|f: Seq<char>| spec_container_key(class@, f, id as nat))
                    =~= names_view(fields@.subrange(0, i as int)).map_values(|f: Seq<char>| spec_container_key(class@, f, id as nat)).push(key@));
            }
        }
        i = i + 1;
    }
    assert(fields@.subrange(0, fields@.len() as int) =~= fields@);
}

/// The arguments of the delete script for the encoded record with id `id`.
/// Fails with `NotSaved` for id 0, with `UnknownIndex` when a unique field
/// has no attribute, and with `TooLong` when a text exceeds the framing.
pub fn delete_payload(encoder: &Encoder, id: usize, unique_fields: &Vec<String>, index_fields: &Vec<String>) -> (r: Result<DeleteRequest, OhmerError>)
    ensures
        ({
            let class = encoder.name@;
            let attrs = pairs_view(encoder.attributes@);
            let roles = spec_roles(attrs, names_view(unique_fields@).to_set(), names_view(index_fields@).to_set());
            let keys = owned_keys(class, id as nat, names_view(encoder.sets@), names_view(encoder.counters@), names_view(encoder.lists@));
            &&& id == 0 ==> (r matches Err(e) && e is NotSaved)
            &&& (id != 0 && roles.2 != Set::<Seq<char>>::empty()) ==> (r matches Err(e) && e matches OhmerError::UnknownIndex(f) && roles.2.contains(f@))
            &&& (id != 0 && roles.2 == Set::<Seq<char>>::empty() && !delete_fits(class, id as nat, roles.0, keys)) ==> (r matches Err(e) && e matches OhmerError::EncoderError(EncoderError::TooLong(_)))
            &&& (id != 0 && roles.2 == Set::<Seq<char>>::empty() && delete_fits(class, id as nat, roles.0, keys)) ==> (r matches Ok(req)
                && req.model@ == delete_model_payload(class, id as nat)
                && req.uniques@ == uniques_payload(roles.0)
                && req.owned@ == owned_payload(keys))
        }),
{
    if id == 0 {
        return Err(OhmerError::NotSaved);
    }
    let (uniques, _) = uniques_indices(encoder, unique_fields, index_fields)?;
    let class = encoder.name.as_str();
    let mut model: Vec<u8> = Vec::new();
    proof { reveal_strlit("name"); reveal_strlit("id"); reveal_strlit("key"); }
    write_map_len(&mut model, 3);
    literal_str(&mut model, "name");
    match write_str(&mut model, class, class) {
        Ok(()) => {},
        Err(e) => return Err(OhmerError::EncoderError(e)),
    }
    literal_str(&mut model, "id");
    let text = to_decimal(id as u64);
    proof { lemma_id_fits(id); }
    let _ = write_str(&mut model, text.as_str(), text.as_str());
    literal_str(&mut model, "key");
    let key = record_key(class, id);
    match write_str(&mut model, key.as_str(), class) {
        Ok(()) => {},
        Err(e) => return Err(OhmerError::EncoderError(e)),
    }
    let mut unique_bytes: Vec<u8> = Vec::new();
    if uniques.len() > 4294967295 {
        return Err(OhmerError::EncoderError(EncoderError::TooLong(encoder.name.clone())));
    }
    write_map_len(&mut unique_bytes, uniques.len() as u32);
    match write_pairs(&mut unique_bytes, &uniques, false) {
        Ok(()) => {},
        Err(e) => return Err(OhmerError::EncoderError(e)),
    }
    let mut keys: Vec<String> = Vec::new();
    push_owned(&mut keys, class, id, &encoder.sets, false);
    push_owned(&mut keys, class, id, &encoder.counters, true);
    push_owned(&mut keys, class, id, &encoder.lists, false);
    let ghost expected = owned_keys(class@, id as nat, names_view(encoder.sets@), names_view(encoder.counters@), names_view(encoder.lists@));
    assert(names_view(keys@) =~= expected);
    if keys.len() > 4294967295 {
        return Err(OhmerError::EncoderError(EncoderError::TooLong(encoder.name.clone())));
    }
    let mut owned: Vec<u8> = Vec::new();
    write_array_len(&mut owned, keys.len() as u32);
    match write_strs(&mut owned, &keys) {
        Ok(()) => {},
        Err(e) => return Err(OhmerError::EncoderError(e)),
    }
    proof {
        assert(model@ =~= delete_model_payload(class@, id as nat));
        assert(unique_bytes@ =~= uniques_payload(pairs_view(uniques@)));
        assert(owned@ =~= owned_payload(expected));
    }
    Ok(DeleteRequest { model, uniques: unique_bytes, owned })
}

/// The text of the leftmost match of `UniqueIndexViolation: (\w+)` in a
/// message, if there is one.
pub uninterp spec fn violation_match(message: Seq<char>) -> Option<Seq<char>>;

/// Relies on `regex::Regex::new` and `Regex::find` with the pattern
/// `UniqueIndexViolation: (\w+)`: the text of the leftmost match. A match
/// starts with the pattern's 22 literal characters and has at least one
/// word character after them.
#[verifier::external_body]
fn find_violation(message: &str) -> (r: Option<String>)
    ensures
        r matches Some(m) ==> violation_match(message@) == Some(m@) && m@.len() > 22
            && m@.subrange(0, 22) == "UniqueIndexViolation: "@,
        r is None ==> violation_match(message@) is None,
{
    regex::Regex::new(r"UniqueIndexViolation: (\w+)").ok().and_then(|re| re.find(message).map(|m| m.as_str().to_string()))
}

/// The field named in a uniqueness violation: what follows the 22-character
/// literal part of the match.
pub open spec fn violation_field(found: Option<Seq<char>>) -> Option<Seq<char>> {
    match found {
        Some(m) => if m.len() > 22 { Some(m.subrange(22, m.len() as int)) } else { None },
        None => None,
    }
}

/// The error for a failed save script, given the script's message and the
/// match found in it: `UniqueIndexViolation` with the field after the
/// match's literal part, or the store's error with the message.
pub fn violation_error(message: &str, found: Option<String>) -> (r: OhmerError)
    ensures
        match violation_field(match found { Some(m) => Some(m@), None => None }) {
            Some(f) => r matches OhmerError::UniqueIndexViolation(g) && g@ == f,
            None => r matches OhmerError::RedisError(m) && m@ == message@,
        },
{
    match found {
        Some(m) => {
            let n = m.as_str().unicode_len();
            if n > 22 {
                OhmerError::UniqueIndexViolation(String::from_str(m.as_str().substring_char(22, n)))
            } else {
                OhmerError::RedisError(String::from_str(message))
            }
        },
        None => OhmerError::RedisError(String::from_str(message)),
    }
}

/// The outcome of the save script: the record's id, or the script's error
/// read as a uniqueness violation where its message names one.
pub fn save_reply(reply: Result<usize, String>) -> (r: Result<usize, OhmerError>)
    ensures
        match reply {
            Ok(id) => r == Ok::<usize, OhmerError>(id),
            Err(m) => match violation_field(violation_match(m@)) {
                Some(f) => r matches Err(e) && e matches OhmerError::UniqueIndexViolation(g) && g@ == f,
                None => r matches Err(e) && e matches OhmerError::RedisError(t) && t@ == m@,
            },
        },
{
    match reply {
        Ok(id) => Ok(id),
        Err(message) => {
            let found = find_violation(message.as_str());
            Err(violation_error(message.as_str(), found))
        },
    }
}

} // verus!
