//! What the store's atomic scripts do, stated over the store's contents as
//! the key scheme organises them, and the laws that save, delete and
//! counters obey.
//!
//! Each component stands for one family of keys: `next_id` for `{Type}:id`,
//! `all` for `{Type}:all`, `records` for `{Type}:{id}`, `owners` for
//! `{Type}:uniques:{field}`, `indices` for `{Type}:indices:{field}:{value}`,
//! `counters` for integer keys and `containers` for lists and sets. The
//! memos record, for each record, the index entries and unique values it
//! holds, so that a later save or a delete can withdraw them.
//!
//! `save_request_effect` and `delete_request_effect` run the scripts on
//! exactly what `save_payload` and `delete_payload` frame for an encoded
//! record, and the `lemma_request_*` laws restate the laws over them.
use crate::codec::{names_view, pairs_view, Encoder};
use crate::protocol::owned_keys;
use crate::record::{spec_roles, Pairs};
use vstd::prelude::*;

verus! {

/// A record's stored attributes.
pub type Attrs = Map<Seq<char>, Seq<char>>;

/// (type, field, value).
pub type Entry = (Seq<char>, Seq<char>, Seq<char>);

pub struct StoreModel {
    pub next_id: spec_fn(Seq<char>) -> nat,
    pub all: spec_fn(Seq<char>) -> Set<nat>,
    pub records: spec_fn(Seq<char>, nat) -> Option<Attrs>,
    pub owners: spec_fn(Entry) -> Option<nat>,
    pub indices: spec_fn(Entry) -> Set<nat>,
    pub index_memo: spec_fn(Seq<char>, nat) -> Set<(Seq<char>, Seq<char>)>,
    pub unique_memo: spec_fn(Seq<char>, nat) -> Set<(Seq<char>, Seq<char>)>,
    pub counters: spec_fn(Seq<char>) -> Option<int>,
    pub containers: spec_fn(Seq<char>) -> bool,
}

/// The attributes as a hash: a later pair overrides an earlier one of the
/// same name.
pub open spec fn pairs_map(p: Pairs) -> Attrs
    decreases p.len(),
{
    if p.len() == 0 {
        Map::empty()
    } else {
        pairs_map(p.drop_last()).insert(p.last().0, p.last().1)
    }
}

/// The pairs as a set.
pub open spec fn pair_set(p: Pairs) -> Set<(Seq<char>, Seq<char>)> {
    p.to_set()
}

/// The first unique field whose value another record owns. A record
/// without an id collides with every owner.
pub open spec fn collision(s: StoreModel, class: Seq<char>, id: nat, uniques: Pairs) -> Option<Seq<char>>
    decreases uniques.len(),
{
    if uniques.len() == 0 {
        None
    } else {
        let (f, v) = uniques[0];
        match (s.owners)((class, f, v)) {
            Some(owner) => if id == 0 || owner != id {
                Some(f)
            } else {
                collision(s, class, id, uniques.drop_first())
            },
            None => collision(s, class, id, uniques.drop_first()),
        }
    }
}

/// The save script. It fails, writing nothing, when a unique value belongs
/// to another record; the error names the field. Otherwise it allocates an
/// id for a record without one, adds the id to the membership index,
/// writes the hash, moves the record's index entries from its previous
/// values to `indices`, and its unique values from the previous ones to
/// `uniques`.
pub open spec fn save_effect(s: StoreModel, class: Seq<char>, id: nat, attrs: Pairs, indices: Pairs, uniques: Pairs) -> Result<(StoreModel, nat), Seq<char>> {
    match collision(s, class, id, uniques) {
        Some(f) => Err(f),
        None => {
            let n = if id == 0 { (s.next_id)(class) + 1 } else { id };
            let old_idx = (s.index_memo)(class, n);
            let new_idx = pair_set(indices);
            let old_uniq = (s.unique_memo)(class, n);
            let new_uniq = pair_set(uniques);
            Ok((StoreModel {
                next_id: |c: Seq<char>| if id == 0 && c == class { n } else { (s.next_id)(c) },
                all: |c: Seq<char>| if c == class { (s.all)(c).insert(n) } else { (s.all)(c) },
                records: |c: Seq<char>, i: nat| if c == class && i == n { Some(pairs_map(attrs)) } else { (s.records)(c, i) },
                owners: |e: Entry| if e.0 == class && new_uniq.contains((e.1, e.2)) {
                    Some(n)
                } else if e.0 == class && old_uniq.contains((e.1, e.2)) {
                    None
                } else {
                    (s.owners)(e)
                },
                indices: |e: Entry| if e.0 == class && new_idx.contains((e.1, e.2)) {
                    (s.indices)(e).insert(n)
                } else if e.0 == class && old_idx.contains((e.1, e.2)) {
                    (s.indices)(e).remove(n)
                } else {
                    (s.indices)(e)
                },
                index_memo: |c: Seq<char>, i: nat| if c == class && i == n { new_idx } else { (s.index_memo)(c, i) },
                unique_memo: |c: Seq<char>, i: nat| if c == class && i == n { new_uniq } else { (s.unique_memo)(c, i) },
                counters: s.counters,
                containers: s.containers,
            }, n))
        },
    }
}

/// The delete script: removes the record's hash, its id from the
/// membership index and from every index set it occupies, the unique
/// values it owns, and the containers and counters under `owned`.
pub open spec fn delete_effect(s: StoreModel, class: Seq<char>, id: nat, owned: Seq<Seq<char>>) -> StoreModel {
    let idx = (s.index_memo)(class, id);
    let uniq = (s.unique_memo)(class, id);
    StoreModel {
        next_id: s.next_id,
        all: |c: Seq<char>| if c == class { (s.all)(c).remove(id) } else { (s.all)(c) },
        records: |c: Seq<char>, i: nat| if c == class && i == id { None } else { (s.records)(c, i) },
        owners: |e: Entry| if e.0 == class && uniq.contains((e.1, e.2)) { None } else { (s.owners)(e) },
        indices: |e: Entry| if e.0 == class && idx.contains((e.1, e.2)) { (s.indices)(e).remove(id) } else { (s.indices)(e) },
        index_memo: |c: Seq<char>, i: nat| if c == class && i == id { Set::empty() } else { (s.index_memo)(c, i) },
        unique_memo: |c: Seq<char>, i: nat| if c == class && i == id { Set::empty() } else { (s.unique_memo)(c, i) },
        counters: |k: Seq<char>| if owned.contains(k) { None } else { (s.counters)(k) },
        containers: |k: Seq<char>| if owned.contains(k) { false } else { (s.containers)(k) },
    }
}

/// An atomic increment: a counter never written counts as zero.
pub open spec fn incr_effect(s: StoreModel, key: Seq<char>, delta: int) -> (StoreModel, int) {
    let v = match (s.counters)(key) {
        Some(c) => c + delta,
        None => delta,
    };
    (StoreModel { counters: |k: Seq<char>| if k == key { Some(v) } else { (s.counters)(k) }, ..s }, v)
}

/// The value a counter reads as.
pub open spec fn counter_value(s: StoreModel, key: Seq<char>) -> int {
    match (s.counters)(key) {
        Some(c) => c,
        None => 0,
    }
}

/// `n` increments by one, one after the other.
pub open spec fn incr_times(s: StoreModel, key: Seq<char>, n: nat) -> StoreModel
    decreases n,
{
    if n == 0 {
        s
    } else {
        incr_effect(incr_times(s, key, (n - 1) as nat), key, 1).0
    }
}

/// Every index set of `class` holds exactly the ids of the records whose
/// last save gave that field that value.
pub open spec fn index_consistent(s: StoreModel, class: Seq<char>) -> bool {
    forall|f: Seq<char>, v: Seq<char>, i: nat| #[trigger] (s.indices)((class, f, v)).contains(i) <==> (s.index_memo)(class, i).contains((f, v))
}

/// A store that holds nothing.
pub open spec fn empty_store() -> StoreModel {
    StoreModel {
        next_id: |c: Seq<char>| 0nat,
        all: |c: Seq<char>| Set::empty(),
        records: |c: Seq<char>, i: nat| None,
        owners: |e: Entry| None,
        indices: |e: Entry| Set::empty(),
        index_memo: |c: Seq<char>, i: nat| Set::empty(),
        unique_memo: |c: Seq<char>, i: nat| Set::empty(),
        counters: |k: Seq<char>| None,
        containers: |k: Seq<char>| false,
    }
}

/// An empty store's index sets are consistent, so by `lemma_save_index`
/// and `lemma_delete_index` they stay so through any run of saves and
/// deletes: each index set holds exactly the ids of the live records whose
/// field has that value.
pub proof fn lemma_empty_index_consistent(class: Seq<char>)
    ensures
        index_consistent(empty_store(), class),
{
}

proof fn lemma_collision_found(s: StoreModel, class: Seq<char>, id: nat, uniques: Pairs, k: int)
    requires
        0 <= k < uniques.len(),
        (s.owners)((class, uniques[k].0, uniques[k].1)) matches Some(owner) && (id == 0 || owner != id),
    ensures
        collision(s, class, id, uniques) is Some,
    decreases k,
{
    if k > 0 {
        let (f, v) = uniques[0];
        match (s.owners)((class, f, v)) {
            Some(owner) => {
                if !(id == 0 || owner != id) {
                    assert(uniques.drop_first()[k - 1] == uniques[k]);
                    lemma_collision_found(s, class, id, uniques.drop_first(), k - 1);
                }
            },
            None => {
                assert(uniques.drop_first()[k - 1] == uniques[k]);
                lemma_collision_found(s, class, id, uniques.drop_first(), k - 1);
            },
        }
    }
}

proof fn lemma_no_collision_when_owned(s: StoreModel, class: Seq<char>, id: nat, uniques: Pairs)
    requires
        id != 0,
        forall|k: int| 0 <= k < uniques.len() ==> (s.owners)((class, (#[trigger] uniques[k]).0, uniques[k].1)) == Some(id),
    ensures
        collision(s, class, id, uniques) is None,
    decreases uniques.len(),
{
    if uniques.len() > 0 {
        assert forall|k: int| 0 <= k < uniques.drop_first().len() implies (s.owners)((class, (#[trigger] uniques.drop_first()[k]).0, uniques.drop_first()[k].1)) == Some(id) by {
            assert(uniques.drop_first()[k] == uniques[k + 1]);
        }
        lemma_no_collision_when_owned(s, class, id, uniques.drop_first());
        assert((s.owners)((class, uniques[0].0, uniques[0].1)) == Some(id));
    }
}

/// Save, then load: a successful save stores exactly the record's
/// attributes under a non-zero id, which joins the membership index; a
/// record that had an id keeps it.
pub proof fn lemma_save_then_load(s: StoreModel, class: Seq<char>, id: nat, attrs: Pairs, indices: Pairs, uniques: Pairs)
    ensures
        save_effect(s, class, id, attrs, indices, uniques) matches Ok((t, n)) ==> {
            &&& n > 0
            &&& (id != 0 ==> n == id)
            &&& (t.records)(class, n) == Some(pairs_map(attrs))
            &&& (t.all)(class).contains(n)
        },
{
}

/// Saving again a record whose unique values are unchanged never collides
/// with the record itself.
pub proof fn lemma_resave_no_self_violation(s: StoreModel, class: Seq<char>, id: nat, attrs: Pairs, indices: Pairs, uniques: Pairs, attrs2: Pairs, indices2: Pairs)
    ensures
        save_effect(s, class, id, attrs, indices, uniques) matches Ok((t, n)) ==> save_effect(t, class, n, attrs2, indices2, uniques) is Ok,
{
    if let Ok((t, n)) = save_effect(s, class, id, attrs, indices, uniques) {
        assert forall|k: int| 0 <= k < uniques.len() implies (t.owners)((class, (#[trigger] uniques[k]).0, uniques[k].1)) == Some(n) by {
            assert(pair_set(uniques).contains((uniques[k].0, uniques[k].1)));
        }
        lemma_no_collision_when_owned(t, class, n, uniques);
    }
}

/// Two records of one type with a common unique value: once the first has
/// been saved, saving the second fails, naming a unique field, and so
/// writes nothing.
pub proof fn lemma_unique_violation(
    s: StoreModel,
    class: Seq<char>,
    id1: nat,
    attrs1: Pairs,
    indices1: Pairs,
    uniques1: Pairs,
    id2: nat,
    attrs2: Pairs,
    indices2: Pairs,
    uniques2: Pairs,
    f: Seq<char>,
    v: Seq<char>,
)
    requires
        uniques1.contains((f, v)),
        uniques2.contains((f, v)),
    ensures
        save_effect(s, class, id1, attrs1, indices1, uniques1) matches Ok((t, n)) ==> (id2 != n
            ==> save_effect(t, class, id2, attrs2, indices2, uniques2) is Err),
{
    if let Ok((t, n)) = save_effect(s, class, id1, attrs1, indices1, uniques1) {
        if id2 != n {
            assert(pair_set(uniques1).contains((f, v)));
            assert((t.owners)((class, f, v)) == Some(n));
            let k = choose|k: int| 0 <= k < uniques2.len() && uniques2[k] == (f, v);
            lemma_collision_found(t, class, id2, uniques2, k);
        }
    }
}

/// A save keeps every index set consistent, and afterwards the saved
/// record's id is in exactly the index sets of its indexed values.
pub proof fn lemma_save_index(s: StoreModel, class: Seq<char>, id: nat, attrs: Pairs, indices: Pairs, uniques: Pairs)
    requires
        index_consistent(s, class),
    ensures
        save_effect(s, class, id, attrs, indices, uniques) matches Ok((t, n)) ==> {
            &&& index_consistent(t, class)
            &&& forall|f: Seq<char>, v: Seq<char>| #[trigger] (t.indices)((class, f, v)).contains(n) <==> indices.contains((f, v))
        },
{
    if let Ok((t, n)) = save_effect(s, class, id, attrs, indices, uniques) {
        assert forall|f: Seq<char>, v: Seq<char>, i: nat| #[trigger] (t.indices)((class, f, v)).contains(i) <==> (t.index_memo)(class, i).contains((f, v)) by {
            assert((s.indices)((class, f, v)).contains(i) <==> (s.index_memo)(class, i).contains((f, v)));
        }
        assert forall|f: Seq<char>, v: Seq<char>| #[trigger] (t.indices)((class, f, v)).contains(n) <==> indices.contains((f, v)) by {
            assert((t.indices)((class, f, v)).contains(n) <==> (t.index_memo)(class, n).contains((f, v)));
        }
    }
}

/// A delete keeps every index set consistent.
pub proof fn lemma_delete_index(s: StoreModel, class: Seq<char>, id: nat, owned: Seq<Seq<char>>)
    requires
        index_consistent(s, class),
    ensures
        index_consistent(delete_effect(s, class, id, owned), class),
{
    let t = delete_effect(s, class, id, owned);
    assert forall|f: Seq<char>, v: Seq<char>, i: nat| #[trigger] (t.indices)((class, f, v)).contains(i) <==> (t.index_memo)(class, i).contains((f, v)) by {
        assert((s.indices)((class, f, v)).contains(i) <==> (s.index_memo)(class, i).contains((f, v)));
    }
}

/// After a delete the record's hash is gone, its id is in neither the
/// membership index nor any index set of its type, and the containers and
/// counters it owned are gone.
pub proof fn lemma_delete_complete(s: StoreModel, class: Seq<char>, id: nat, owned: Seq<Seq<char>>)
    requires
        index_consistent(s, class),
    ensures
        ({
            let t = delete_effect(s, class, id, owned);
            &&& (t.records)(class, id) is None
            &&& !(t.all)(class).contains(id)
            &&& forall|f: Seq<char>, v: Seq<char>| !(#[trigger] (t.indices)((class, f, v))).contains(id)
            &&& forall|k: Seq<char>| owned.contains(k) ==> (t.counters)(k) is None && !(t.containers)(k)
        }),
{
    let t = delete_effect(s, class, id, owned);
    assert forall|f: Seq<char>, v: Seq<char>| !(#[trigger] (t.indices)((class, f, v))).contains(id) by {
        assert((s.indices)((class, f, v)).contains(id) <==> (s.index_memo)(class, id).contains((f, v)));
    }
}

/// `n` increments by one, issued one after another with no read between
/// them, leave the counter exactly `n` above where it started.
pub proof fn lemma_counter_increments(s: StoreModel, key: Seq<char>, n: nat)
    ensures
        counter_value(incr_times(s, key, n), key) == counter_value(s, key) + n,
    decreases n,
{
    if n > 0 {
        lemma_counter_increments(s, key, (n - 1) as nat);
    }
}

/// No id above the last one allocated has index entries recorded.
pub open spec fn fresh_memos(s: StoreModel, class: Seq<char>) -> bool {
    forall|i: nat| i > (s.next_id)(class) ==> #[trigger] (s.index_memo)(class, i) == Set::<(Seq<char>, Seq<char>)>::empty()
}

/// Saves new records of `class` one after another, each given by its
/// attributes and its indexed values, none with unique fields.
pub open spec fn save_new(s: StoreModel, class: Seq<char>, recs: Seq<(Pairs, Pairs)>) -> StoreModel
    decreases recs.len(),
{
    if recs.len() == 0 {
        s
    } else {
        let prev = save_new(s, class, recs.drop_last());
        match save_effect(prev, class, 0, recs.last().0, recs.last().1, Seq::empty()) {
            Ok((t, _)) => t,
            Err(_) => prev,
        }
    }
}

/// After saving new records one after another, the records take the next
/// ids in order, and an index set holds what it held before together with
/// exactly the new records whose indexed values include its value. From an
/// empty store, the index set of a value holds exactly the ids of the
/// records saved with it.
pub proof fn lemma_index_after_saves(s: StoreModel, class: Seq<char>, recs: Seq<(Pairs, Pairs)>)
    requires
        fresh_memos(s, class),
    ensures
        ({
            let t = save_new(s, class, recs);
            let base = (s.next_id)(class);
            &&& (t.next_id)(class) == base + recs.len()
            &&& fresh_memos(t, class)
            &&& forall|f: Seq<char>, v: Seq<char>, i: nat| #[trigger] (t.indices)((class, f, v)).contains(i) <==> (
                (s.indices)((class, f, v)).contains(i)
                || (base < i <= base + recs.len() && recs[i - base - 1].1.contains((f, v))))
        }),
    decreases recs.len(),
{
    if recs.len() > 0 {
        let init = recs.drop_last();
        lemma_index_after_saves(s, class, init);
        let prev = save_new(s, class, init);
        let base = (s.next_id)(class);
        assert(collision(prev, class, 0, Seq::empty()) is None);
        let n = (prev.next_id)(class) + 1;
        assert((prev.index_memo)(class, n) == Set::<(Seq<char>, Seq<char>)>::empty());
        let t = save_new(s, class, recs);
        assert forall|f: Seq<char>, v: Seq<char>, i: nat| #[trigger] (t.indices)((class, f, v)).contains(i) <==> (
            (s.indices)((class, f, v)).contains(i)
            || (base < i <= base + recs.len() && recs[i - base - 1].1.contains((f, v)))) by {
            assert((prev.indices)((class, f, v)).contains(i) <==> (
                (s.indices)((class, f, v)).contains(i)
                || (base < i <= base + init.len() && init[i - base - 1].1.contains((f, v)))));
            if base < i <= base + init.len() {
                assert(init[i - base - 1] == recs[i - base - 1]);
            }
            assert(pair_set(recs.last().1).contains((f, v)) <==> recs.last().1.contains((f, v)));
        }
        assert forall|i: nat| i > (t.next_id)(class) implies #[trigger] (t.index_memo)(class, i) == Set::<(Seq<char>, Seq<char>)>::empty() by {
            assert((prev.index_memo)(class, i) == Set::<(Seq<char>, Seq<char>)>::empty());
        }
    }
}

/// The empty store has no index entries for any id.
pub proof fn lemma_empty_fresh(class: Seq<char>)
    ensures
        fresh_memos(empty_store(), class),
        forall|f: Seq<char>, v: Seq<char>| (#[trigger] (empty_store().indices)((class, f, v))) == Set::<nat>::empty(),
{
}

/// Every unique value that a record holds is owned by that record in its
/// type's uniqueness map.
pub open spec fn unique_consistent(s: StoreModel, class: Seq<char>) -> bool {
    forall|f: Seq<char>, v: Seq<char>, i: nat| #[trigger] (s.unique_memo)(class, i).contains((f, v)) ==> (s.owners)((class, f, v)) == Some(i)
}

/// Under `unique_consistent`, no two records hold the same unique value.
pub proof fn lemma_unique_holder(s: StoreModel, class: Seq<char>, f: Seq<char>, v: Seq<char>, i: nat, j: nat)
    requires
        unique_consistent(s, class),
        (s.unique_memo)(class, i).contains((f, v)),
        (s.unique_memo)(class, j).contains((f, v)),
    ensures
        i == j,
{
}

/// An empty store holds no unique values.
pub proof fn lemma_empty_unique_consistent(class: Seq<char>)
    ensures
        unique_consistent(empty_store(), class),
{
}

/// Saves and deletes keep the uniqueness map consistent, so at any time at
/// most one live record of a type holds a given value of a unique field.
pub proof fn lemma_unique_invariant(
    s: StoreModel,
    class: Seq<char>,
    id: nat,
    attrs: Pairs,
    indices: Pairs,
    uniques: Pairs,
    owned: Seq<Seq<char>>,
)
    requires
        unique_consistent(s, class),
    ensures
        save_effect(s, class, id, attrs, indices, uniques) matches Ok((t, n)) ==> unique_consistent(t, class),
        unique_consistent(delete_effect(s, class, id, owned), class),
{
    if let Ok((t, n)) = save_effect(s, class, id, attrs, indices, uniques) {
        assert forall|f: Seq<char>, v: Seq<char>, i: nat| #[trigger] (t.unique_memo)(class, i).contains((f, v)) implies (t.owners)((class, f, v)) == Some(i) by {
            if i != n {
                assert((s.owners)((class, f, v)) == Some(i));
                if pair_set(uniques).contains((f, v)) {
                    let k = choose|k: int| 0 <= k < uniques.len() && uniques[k] == (f, v);
                    if id == 0 || i != id {
                        lemma_collision_found(s, class, id, uniques, k);
                    }
                }
            }
        }
    }
    let d = delete_effect(s, class, id, owned);
    assert forall|f: Seq<char>, v: Seq<char>, i: nat| #[trigger] (d.unique_memo)(class, i).contains((f, v)) implies (d.owners)((class, f, v)) == Some(i) by {
        assert((s.owners)((class, f, v)) == Some(i));
        if (s.unique_memo)(class, id).contains((f, v)) {
            assert((s.owners)((class, f, v)) == Some(id));
        }
    }
}

/// The unique and indexed values that `save_payload` and `delete_payload`
/// frame for an encoded record.
pub open spec fn request_roles(encoder: Encoder, unique_fields: Seq<String>, index_fields: Seq<String>) -> (Pairs, Pairs, Set<Seq<char>>) {
    spec_roles(pairs_view(encoder.attributes@), names_view(unique_fields).to_set(), names_view(index_fields).to_set())
}

/// The save script run on the arguments that `save_payload` builds from
/// the same inputs: the encoder's type name and attributes, the indexed
/// values and the unique values.
pub open spec fn save_request_effect(s: StoreModel, encoder: Encoder, id: nat, unique_fields: Seq<String>, index_fields: Seq<String>) -> Result<(StoreModel, nat), Seq<char>> {
    let roles = request_roles(encoder, unique_fields, index_fields);
    save_effect(s, encoder.name@, id, pairs_view(encoder.attributes@), roles.1, roles.0)
}

/// The delete script run on the arguments that `delete_payload` builds:
/// the record's type name and id and the keys of the containers it owns.
pub open spec fn delete_request_effect(s: StoreModel, encoder: Encoder, id: nat) -> StoreModel {
    delete_effect(s, encoder.name@, id, owned_keys(encoder.name@, id, names_view(encoder.sets@), names_view(encoder.counters@), names_view(encoder.lists@)))
}

/// Save, then load, for a save request: the hash under the new id holds
/// exactly the encoded attributes, and the index sets of the encoded
/// indexed values take the id.
pub proof fn lemma_request_save_then_load(s: StoreModel, encoder: Encoder, id: nat, unique_fields: Seq<String>, index_fields: Seq<String>)
    requires
        index_consistent(s, encoder.name@),
    ensures
        save_request_effect(s, encoder, id, unique_fields, index_fields) matches Ok((t, n)) ==> {
            &&& n > 0
            &&& (id != 0 ==> n == id)
            &&& (t.records)(encoder.name@, n) == Some(pairs_map(pairs_view(encoder.attributes@)))
            &&& (t.all)(encoder.name@).contains(n)
            &&& index_consistent(t, encoder.name@)
            &&& forall|f: Seq<char>, v: Seq<char>| #[trigger] (t.indices)((encoder.name@, f, v)).contains(n)
                <==> request_roles(encoder, unique_fields, index_fields).1.contains((f, v))
        },
{
    let roles = request_roles(encoder, unique_fields, index_fields);
    lemma_save_then_load(s, encoder.name@, id, pairs_view(encoder.attributes@), roles.1, roles.0);
    lemma_save_index(s, encoder.name@, id, pairs_view(encoder.attributes@), roles.1, roles.0);
}

/// Re-saving a record under the id its save gave it, with its unique
/// values unchanged, never collides with the record itself.
pub proof fn lemma_request_resave(
    s: StoreModel,
    encoder: Encoder,
    id: nat,
    unique_fields: Seq<String>,
    index_fields: Seq<String>,
    encoder2: Encoder,
)
    requires
        encoder2.name@ == encoder.name@,
        request_roles(encoder2, unique_fields, index_fields).0 == request_roles(encoder, unique_fields, index_fields).0,
    ensures
        save_request_effect(s, encoder, id, unique_fields, index_fields) matches Ok((t, n))
            ==> save_request_effect(t, encoder2, n, unique_fields, index_fields) is Ok,
{
    let roles = request_roles(encoder, unique_fields, index_fields);
    let roles2 = request_roles(encoder2, unique_fields, index_fields);
    lemma_resave_no_self_violation(s, encoder.name@, id, pairs_view(encoder.attributes@), roles.1, roles.0, pairs_view(encoder2.attributes@), roles2.1);
}

/// Two save requests of one type with a common unique value: once the
/// first has succeeded, the second, for another record, fails and writes
/// nothing.
pub proof fn lemma_request_unique_violation(
    s: StoreModel,
    encoder1: Encoder,
    id1: nat,
    encoder2: Encoder,
    id2: nat,
    unique_fields: Seq<String>,
    index_fields: Seq<String>,
    f: Seq<char>,
    v: Seq<char>,
)
    requires
        encoder2.name@ == encoder1.name@,
        request_roles(encoder1, unique_fields, index_fields).0.contains((f, v)),
        request_roles(encoder2, unique_fields, index_fields).0.contains((f, v)),
    ensures
        save_request_effect(s, encoder1, id1, unique_fields, index_fields) matches Ok((t, n)) ==> (id2 != n
            ==> save_request_effect(t, encoder2, id2, unique_fields, index_fields) is Err),
{
    let r1 = request_roles(encoder1, unique_fields, index_fields);
    let r2 = request_roles(encoder2, unique_fields, index_fields);
    lemma_unique_violation(s, encoder1.name@, id1, pairs_view(encoder1.attributes@), r1.1, r1.0, id2, pairs_view(encoder2.attributes@), r2.1, r2.0, f, v);
}

/// After a delete request the record's hash is gone, its id is in no
/// index set of its type nor the membership index, and its containers and
/// counters are gone.
pub proof fn lemma_request_delete_complete(s: StoreModel, encoder: Encoder, id: nat)
    requires
        index_consistent(s, encoder.name@),
    ensures
        ({
            let t = delete_request_effect(s, encoder, id);
            let owned = owned_keys(encoder.name@, id, names_view(encoder.sets@), names_view(encoder.counters@), names_view(encoder.lists@));
            &&& (t.records)(encoder.name@, id) is None
            &&& !(t.all)(encoder.name@).contains(id)
            &&& forall|f: Seq<char>, v: Seq<char>| !(#[trigger] (t.indices)((encoder.name@, f, v))).contains(id)
            &&& forall|k: Seq<char>| owned.contains(k) ==> (t.counters)(k) is None && !(t.containers)(k)
            &&& index_consistent(t, encoder.name@)
        }),
{
    let owned = owned_keys(encoder.name@, id, names_view(encoder.sets@), names_view(encoder.counters@), names_view(encoder.lists@));
    lemma_delete_complete(s, encoder.name@, id, owned);
    lemma_delete_index(s, encoder.name@, id, owned);
}

} // verus!
