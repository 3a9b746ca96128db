//! Queries: set expressions over index sets, composed by intersection,
//! union and difference, handed to the set-algebra solver, and run as one
//! atomic batch.
use crate::codec::{names_view, string_from_utf8};
use crate::command::text_bytes;
use crate::error::OhmerError;
use crate::decimal::{decimal, push_decimal};
use crate::keys::{index_key, spec_index_key};
use std::marker::PhantomData;
use vstd::prelude::*;
use vstd::string::*;
use vstd::utf8::*;

verus! {

/// The solver's set expression: a key, or a union, intersection or
/// difference of sub-expressions.
#[verifier::external_type_specification]
pub struct ExSetExpr(stal::Set);

/// The solver's commands for listing the members of an expression, and
/// the position of the command that yields them.
pub uninterp spec fn ids_solution(set: stal::Set) -> (Seq<Seq<Seq<u8>>>, nat);

/// The solver's commands for a command template whose placeholder at
/// position 1 takes the key of `set`, and the position of the command that
/// yields the result.
pub uninterp spec fn template_solution(command: Seq<Seq<u8>>, set: stal::Set) -> (Seq<Seq<Seq<u8>>>, nat);

/// Relies on `stal::Set::ids` and `stal::Stal::solve`: the commands depend
/// on the expression alone; they open a transaction first and close it
/// last, and the result comes from a command strictly between the two.
#[verifier::external_body]
fn solve_ids(set: &stal::Set) -> (r: (Vec<Vec<Vec<u8>>>, usize))
    ensures
        ops_view(r.0@) == ids_solution(*set).0,
        r.1 as nat == ids_solution(*set).1,
        r.0@.len() >= 3,
        1 <= r.1 < r.0@.len() - 1,
{
    set.ids().solve()
}

/// Relies on `stal::Set::into_ids` and `stal::Stal::solve`: they give the
/// same commands as `ids` on the same expression.
#[verifier::external_body]
fn solve_into_ids(set: stal::Set) -> (r: (Vec<Vec<Vec<u8>>>, usize))
    ensures
        ops_view(r.0@) == ids_solution(set).0,
        r.1 as nat == ids_solution(set).1,
        r.0@.len() >= 3,
        1 <= r.1 < r.0@.len() - 1,
{
    set.into_ids().solve()
}

/// Relies on `stal::Stal::from_template` and `stal::Stal::solve`: the
/// commands depend on the template and the expression alone. Solving swaps
/// the key in at position 1, which needs a non-empty template.
#[verifier::external_body]
fn solve_template(command: Vec<Vec<u8>>, set: &stal::Set) -> (r: (Vec<Vec<Vec<u8>>>, usize))
    requires
        command@.len() >= 1,
    ensures
        ops_view(r.0@) == template_solution(args_view(command@), *set).0,
        r.1 as nat == template_solution(args_view(command@), *set).1,
        r.0@.len() >= 3,
        1 <= r.1 < r.0@.len() - 1,
{
    stal::Stal::from_template(command, vec![(set.clone(), 1)]).solve()
}

/// The contents of each set in the store, by key.
pub type Store = spec_fn(Seq<u8>) -> Set<Seq<u8>>;

/// The members of the set that an expression denotes. An intersection of
/// nothing is empty; a difference is its first operand without the members
/// of the others.
pub open spec fn eval(e: stal::Set, store: Store) -> Set<Seq<u8>>
    decreases e,
{
    match e {
        stal::Set::Key(k) => store(k@),
        stal::Set::Union(v) => union_all(v@, store),
        stal::Set::Inter(v) => inter_all(v@, store),
        stal::Set::Diff(v) => if v@.len() == 0 {
            Set::empty()
        } else {
            eval(v@[0], store).difference(union_all(v@.drop_first(), store))
        },
    }
}

/// The members of any of the expressions.
pub open spec fn union_all(v: Seq<stal::Set>, store: Store) -> Set<Seq<u8>>
    decreases v,
{
    if v.len() == 0 {
        Set::empty()
    } else {
        union_all(v.drop_last(), store).union(eval(v.last(), store))
    }
}

/// The members of all of the expressions; empty for none.
pub open spec fn inter_all(v: Seq<stal::Set>, store: Store) -> Set<Seq<u8>>
    decreases v,
{
    if v.len() == 0 {
        Set::empty()
    } else if v.len() == 1 {
        eval(v[0], store)
    } else {
        inter_all(v.drop_last(), store).intersect(eval(v.last(), store))
    }
}

/// The key of an index set as the store holds it.
pub open spec fn index_set_key(class: Seq<char>, field: Seq<char>, value: Seq<char>) -> Seq<u8> {
    text_bytes(spec_index_key(class, field, value))
}

/// `e` is the key of the index set of `class` where `field` is `value`.
pub open spec fn is_index_leaf(e: stal::Set, class: Seq<char>, field: Seq<char>, value: Seq<char>) -> bool {
    e matches stal::Set::Key(k) && k@ == index_set_key(class, field, value)
}

/// The set expression for the index set of `class` where `field` is `value`.
pub fn index_expr(class: &str, field: &str, value: &str) -> (r: stal::Set)
    ensures
        r matches stal::Set::Key(k) && k@ == index_set_key(class@, field@, value@),
        forall|store: Store| #[trigger] eval(r, store) == store(index_set_key(class@, field@, value@)),
{
    let k = index_key(class, field, value);
    stal::Set::Key(k.as_str().as_bytes_vec())
}

/// A set expression over the records of one type.
pub struct Query<T> {
    /// The type's name in the store.
    pub class: String,
    pub set: stal::Set,
    pub phantom: PhantomData<T>,
}

impl<T> Query<T> {
    /// A query for a set expression.
    pub fn new(class: &str, set: stal::Set) -> (r: Self)
        ensures
            r.class@ == class@,
            r.set == set,
    {
        Query { class: String::from_str(class), set, phantom: PhantomData }
    }

    /// The set expression for the records whose indexed `field` is `value`.
    pub fn key(class: &str, field: &str, value: &str) -> (r: stal::Set)
        ensures
            r matches stal::Set::Key(k) && k@ == index_set_key(class@, field@, value@),
            forall|store: Store| #[trigger] eval(r, store) == store(index_set_key(class@, field@, value@)),
    {
        index_expr(class, field, value)
    }

    /// A query for the records whose indexed `field` is `value`.
    pub fn find(class: &str, field: &str, value: &str) -> (r: Self)
        ensures
            r.class@ == class@,
            forall|store: Store| #[trigger] eval(r.set, store) == store(index_set_key(class@, field@, value@)),
    {
        Query::new(class, index_expr(class, field, value))
    }

    /// A query for the records that match every field/value pair.
    pub fn from_keys(class: &str, kv: &[(&str, &str)]) -> (r: Self)
        ensures
            r.class@ == class@,
            r.set matches stal::Set::Inter(v) && v@.len() == kv@.len() && (forall|i: int| 0 <= i < kv@.len() ==>
                is_index_leaf(#[trigger] v@[i], class@, kv@[i].0@, kv@[i].1@)),
    {
        let mut sets: Vec<stal::Set> = Vec::new();
        let mut i: usize = 0;
        while i < kv.len()
            invariant
                0 <= i <= kv@.len(),
                sets@.len() == i,
                forall|j: int| 0 <= j < i ==> is_index_leaf(#[trigger] sets@[j], class@, kv@[j].0@, kv@[j].1@),
            decreases kv@.len() - i,
        {
            sets.push(index_expr(class, kv[i].0, kv[i].1));
            i = i + 1;
        }
        Query::new(class, stal::Set::Inter(sets))
    }

    /// Takes the expression out, leaving a placeholder.
    fn take_set(&mut self) -> (r: stal::Set)
        ensures
            r == old(self).set,
            final(self).class == old(self).class,
    {
        let mut set = stal::Set::Key(Vec::new());
        core::mem::swap(&mut self.set, &mut set);
        set
    }

    /// Makes the expression the intersection of the given sets and the
    /// current expression.
    pub fn sinter(&mut self, sets: Vec<stal::Set>)
        ensures
            final(self).class == old(self).class,
            final(self).set matches stal::Set::Inter(v) && v@ == sets@.push(old(self).set),
    {
        let mut sets = sets;
        let current = self.take_set();
        sets.push(current);
        self.set = stal::Set::Inter(sets);
    }

    /// Makes the expression the union of the given sets and the current
    /// expression.
    pub fn sunion(&mut self, sets: Vec<stal::Set>)
        ensures
            final(self).class == old(self).class,
            final(self).set matches stal::Set::Union(v) && v@ == sets@.push(old(self).set),
    {
        let mut sets = sets;
        let current = self.take_set();
        sets.push(current);
        self.set = stal::Set::Union(sets);
    }

    /// Makes the expression the current one without the members of any of
    /// the given sets.
    pub fn sdiff(&mut self, sets: Vec<stal::Set>)
        ensures
            final(self).class == old(self).class,
            final(self).set matches stal::Set::Diff(v) && v@ == seq![old(self).set] + sets@,
    {
        let ghost given = sets@;
        let mut sets = sets;
        let current = self.take_set();
        sets.insert(0, current);
        assert(sets@ =~= seq![old(self).set] + given);
        self.set = stal::Set::Diff(sets);
    }

    /// Keeps the records of the current expression whose indexed `field` is
    /// `value`.
    pub fn inter(&mut self, field: &str, value: &str)
        ensures
            final(self).class == old(self).class,
            forall|store: Store| #[trigger] eval(final(self).set, store) == store(
                index_set_key(old(self).class@, field@, value@),
            ).intersect(eval(old(self).set, store)),
    {
        let k = index_expr(self.class.as_str(), field, value);
        let ghost leaf = k;
        let mut sets: Vec<stal::Set> = Vec::new();
        sets.push(k);
        let ghost before = self.set;
        self.sinter(sets);
        proof {
            assert forall|store: Store| #[trigger] eval(self.set, store) == store(
                index_set_key(old(self).class@, field@, value@),
            ).intersect(eval(before, store)) by {
                if let stal::Set::Inter(w) = self.set {
                    let v = w@;
                    assert(v.drop_last() =~= seq![leaf]);
                    assert(v.last() == before);
                    assert(eval(self.set, store) == inter_all(v, store));
                    assert(inter_all(v.drop_last(), store) == eval(leaf, store));
                }
            }
        }
    }

    /// Adds the records whose indexed `field` is `value`.
    pub fn union(&mut self, field: &str, value: &str)
        ensures
            final(self).class == old(self).class,
            forall|store: Store| #[trigger] eval(final(self).set, store) == store(
                index_set_key(old(self).class@, field@, value@),
            ).union(eval(old(self).set, store)),
    {
        let k = index_expr(self.class.as_str(), field, value);
        let ghost leaf = k;
        let mut sets: Vec<stal::Set> = Vec::new();
        sets.push(k);
        let ghost before = self.set;
        self.sunion(sets);
        proof {
            assert forall|store: Store| #[trigger] eval(self.set, store) == store(
                index_set_key(old(self).class@, field@, value@),
            ).union(eval(before, store)) by {
                if let stal::Set::Union(w) = self.set {
                    let v = w@;
                    assert(v.drop_last() =~= seq![leaf]);
                    assert(v.last() == before);
                    assert(eval(self.set, store) == union_all(v, store));
                    let one = v.drop_last();
                    assert(one.drop_last() =~= Seq::<stal::Set>::empty());
                    assert(one.last() == leaf);
                    assert(union_all(one.drop_last(), store) == Set::<Seq<u8>>::empty());
                    assert(union_all(one, store) == Set::<Seq<u8>>::empty().union(eval(leaf, store)));
                    assert(Set::<Seq<u8>>::empty().union(eval(leaf, store)) =~= eval(leaf, store));
                }
            }
        }
    }

    /// Drops the records whose indexed `field` is `value`.
    pub fn diff(&mut self, field: &str, value: &str)
        ensures
            final(self).class == old(self).class,
            forall|store: Store| #[trigger] eval(final(self).set, store) == eval(old(self).set, store).difference(
                store(index_set_key(old(self).class@, field@, value@)),
            ),
    {
        let k = index_expr(self.class.as_str(), field, value);
        let ghost leaf = k;
        let mut sets: Vec<stal::Set> = Vec::new();
        sets.push(k);
        let ghost before = self.set;
        self.sdiff(sets);
        proof {
            assert forall|store: Store| #[trigger] eval(self.set, store) == eval(before, store).difference(
                store(index_set_key(old(self).class@, field@, value@)),
            ) by {
                if let stal::Set::Diff(w) = self.set {
                    let v = w@;
                    assert(v.drop_first() =~= seq![leaf]);
                    assert(v[0] == before);
                    assert(eval(self.set, store) == eval(before, store).difference(union_all(v.drop_first(), store)));
                    let one = v.drop_first();
                    assert(one.drop_last() =~= Seq::<stal::Set>::empty());
                    assert(one.last() == leaf);
                    assert(union_all(one.drop_last(), store) == Set::<Seq<u8>>::empty());
                    assert(union_all(one, store) == Set::<Seq<u8>>::empty().union(eval(leaf, store)));
                    assert(Set::<Seq<u8>>::empty().union(eval(leaf, store)) =~= eval(leaf, store));
                }
            }
        }
    }
}

/// One command of a batch: its name, its arguments, and whether its reply
/// is the batch's result.
pub struct BatchCommand {
    pub name: String,
    pub args: Vec<Vec<u8>>,
    pub keep: bool,
}

/// The bytes of each argument of each command.
pub open spec fn ops_view(ops: Seq<Vec<Vec<u8>>>) -> Seq<Seq<Seq<u8>>> {
    ops.map_values(|op: Vec<Vec<u8>>| op@.map_values(|a: Vec<u8>| a@))
}

pub open spec fn args_view(args: Seq<Vec<u8>>) -> Seq<Seq<u8>> {
    args.map_values(|a: Vec<u8>| a@)
}

/// Every command between the opening and the closing one has a name that
/// is UTF-8 text.
pub open spec fn plan_ok(ops: Seq<Seq<Seq<u8>>>) -> bool {
    forall|i: int| 1 <= i < ops.len() - 1 ==> (#[trigger] ops[i]).len() > 0 && valid_utf8(ops[i][0])
}

/// The command's name token, or nothing for a command without one.
pub open spec fn name_token(op: Seq<Seq<u8>>) -> Seq<u8> {
    if op.len() > 0 { op[0] } else { Seq::empty() }
}

/// `b` is the name token of the first command between the opening and
/// the closing one that has no name or whose name is not UTF-8.
pub open spec fn first_bad_name(ops: Seq<Seq<Seq<u8>>>, b: Seq<u8>) -> bool {
    exists|i: int| 1 <= i < ops.len() - 1 && !((#[trigger] ops[i]).len() > 0 && valid_utf8(ops[i][0]))
        && (forall|k: int| 1 <= k < i ==> (#[trigger] ops[k]).len() > 0 && valid_utf8(ops[k][0]))
        && b == name_token(ops[i])
}

/// `cmds` is the batch for the solver's commands `ops` whose result is at
/// `result`: the commands without the first and the last, each split into
/// its name and arguments, only the one at `result` kept.
pub open spec fn is_plan(cmds: Seq<BatchCommand>, ops: Seq<Seq<Seq<u8>>>, result: nat) -> bool {
    &&& cmds.len() == if ops.len() >= 2 { ops.len() - 2 } else { 0 }
    &&& forall|j: int| #![trigger cmds[j]] 0 <= j < cmds.len() ==> {
        &&& cmds[j].name@ == decode_utf8(ops[j + 1][0])
        &&& args_view(cmds[j].args@) == ops[j + 1].drop_first()
        &&& cmds[j].keep == (j + 1 == result)
    }
}

fn copy_bytes(v: &Vec<u8>) -> (r: Vec<u8>)
    ensures
        r@ == v@,
{
    let mut out: Vec<u8> = Vec::new();
    let mut i: usize = 0;
    while i < v.len()
        invariant
            0 <= i <= v@.len(),
            out@ == v@.subrange(0, i as int),
        decreases v@.len() - i,
    {
        out.push(v[i]);
        assert(out@ =~= v@.subrange(0, i + 1));
        i = i + 1;
    }
    assert(v@.subrange(0, v@.len() as int) =~= v@);
    out
}

/// Turns the solver's commands into a batch: drops the opening and closing
/// commands, reads each name as text, and marks every reply but the one at
/// `result` to be discarded. Fails with `CommandError` on a command without
/// a name or whose name is not UTF-8.
pub fn plan(ops: &Vec<Vec<Vec<u8>>>, result: usize) -> (r: Result<Vec<BatchCommand>, OhmerError>)
    ensures
        r is Ok <==> plan_ok(ops_view(ops@)),
        r matches Ok(cmds) ==> is_plan(cmds@, ops_view(ops@), result as nat),
        r matches Err(e) ==> e matches OhmerError::CommandError(b) && first_bad_name(ops_view(ops@), b@),
{
    let ghost o = ops_view(ops@);
    let n = ops.len();
    let mut cmds: Vec<BatchCommand> = Vec::new();
    if n < 2 {
        return Ok(cmds);
    }
    let mut i: usize = 1;
    while i < n - 1
        invariant
            n == ops@.len(),
            n >= 2,
            o == ops_view(ops@),
            1 <= i <= n - 1,
            cmds@.len() == i - 1,
            forall|k: int| 1 <= k < i ==> (#[trigger] o[k]).len() > 0 && valid_utf8(o[k][0]),
            forall|j: int| #![trigger cmds@[j]] 0 <= j < cmds@.len() ==> {
                &&& cmds@[j].name@ == decode_utf8(o[j + 1][0])
                &&& args_view(cmds@[j].args@) == o[j + 1].drop_first()
                &&& cmds@[j].keep == (j + 1 == result)
            },
        decreases n - 1 - i,
    {
        let op = &ops[i];
        assert(o[i as int] == op@.map_values(|a: Vec<u8>| a@));
        if op.len() == 0 {
            let empty: Vec<u8> = Vec::new();
            assert(name_token(o[i as int]) =~= empty@);
            assert(first_bad_name(o, empty@));
            return Err(OhmerError::CommandError(empty));
        }
        let name_bytes = copy_bytes(&op[0]);
        let name = match string_from_utf8(name_bytes) {
            Some(s) => s,
            None => {
                let bad = copy_bytes(&op[0]);
                assert(o[i as int][0] == op@[0]@);
                assert(first_bad_name(o, bad@));
                return Err(OhmerError::CommandError(bad));
            },
        };
        let mut args: Vec<Vec<u8>> = Vec::new();
        let mut k: usize = 1;
        while k < op.len()
            invariant
                1 <= k <= op@.len(),
                args_view(args@) == op@.map_values(|a: Vec<u8>| a@).subrange(1, k as int),
            decreases op@.len() - k,
        {
            let ghost before = args_view(args@);
            let c = copy_bytes(&op[k]);
            args.push(c);
            assert(args_view(args@) =~= before.push(c@));
            assert(op@.map_values(|a: Vec<u8>| a@).subrange(1, k + 1) =~= op@.map_values(|a: Vec<u8>| a@).subrange(1, k as int).push(op@[k as int]@));
            k = k + 1;
        }
        assert(op@.map_values(|a: Vec<u8>| a@).subrange(1, op@.len() as int) =~= o[i as int].drop_first());
        cmds.push(BatchCommand { name, args, keep: i == result });
        i = i + 1;
    }
    Ok(cmds)
}

/// The pattern that a sort orders by: a counter's own key, or a field of
/// each record's hash.
pub open spec fn sort_pattern(class: Seq<char>, by: Seq<char>, is_counter: bool) -> Seq<char> {
    if is_counter {
        class + ":*:"@ + by
    } else {
        class + ":*->"@ + by
    }
}

/// The sort command, with an empty placeholder where the solver puts the
/// key of the set to sort.
pub open spec fn sort_template(
    class: Seq<char>,
    by: Seq<char>,
    is_counter: bool,
    limit: Option<(usize, usize)>,
    asc: bool,
    alpha: bool,
) -> Seq<Seq<u8>> {
    seq![text_bytes("SORT"@), Seq::empty(), text_bytes("BY"@), text_bytes(sort_pattern(class, by, is_counter))]
        + match limit {
            Some((offset, count)) => seq![
                text_bytes("LIMIT"@),
                text_bytes(decimal(offset as nat)),
                text_bytes(decimal(count as nat)),
            ],
            None => Seq::empty(),
        }
        + seq![text_bytes(if asc { "ASC"@ } else { "DESC"@ })]
        + if alpha { seq![text_bytes("ALPHA"@)] } else { Seq::empty() }
}

fn text(s: &str) -> (r: Vec<u8>)
    ensures
        r@ == text_bytes(s@),
{
    s.as_bytes_vec()
}

fn decimal_bytes(n: usize) -> (r: Vec<u8>)
    ensures
        r@ == text_bytes(decimal(n as nat)),
{
    let mut s = String::new();
    push_decimal(&mut s, n as u64);
    assert(s@ =~= decimal(n as nat));
    s.as_str().as_bytes_vec()
}

/// Whether `names` holds `name`.
fn holds(names: &Vec<String>, name: &str) -> (r: bool)
    ensures
        r == names_view(names@).contains(name@),
{
    let target = String::from_str(name);
    let mut i: usize = 0;
    while i < names.len()
        invariant
            0 <= i <= names@.len(),
            target@ == name@,
            forall|j: int| 0 <= j < i ==> names_view(names@)[j] != name@,
        decreases names@.len() - i,
    {
        if names[i] == target {
            assert(names_view(names@)[i as int] == name@);
            return true;
        }
        i = i + 1;
    }
    false
}

/// The sort command for records of `class` by the field `by`, which is a
/// counter when `counters` names it.
pub fn sort_command(class: &str, by: &str, limit: Option<(usize, usize)>, asc: bool, alpha: bool, counters: &Vec<String>) -> (r: Vec<Vec<u8>>)
    ensures
        args_view(r@) == sort_template(class@, by@, names_view(counters@).contains(by@), limit, asc, alpha),
{
    let is_counter = holds(counters, by);
    let mut pattern = String::from_str(class);
    if is_counter {
        pattern.append(":*:");
    } else {
        pattern.append(":*->");
    }
    pattern.append(by);
    let mut t: Vec<Vec<u8>> = Vec::new();
    t.push(text("SORT"));
    t.push(Vec::new());
    t.push(text("BY"));
    t.push(text(pattern.as_str()));
    let ghost head = args_view(t@);
    assert(head =~= seq![text_bytes("SORT"@), Seq::empty(), text_bytes("BY"@), text_bytes(sort_pattern(class@, by@, is_counter))]);
    let ghost lim: Seq<Seq<u8>> = Seq::empty();
    match limit {
        Some((offset, count)) => {
            t.push(text("LIMIT"));
            t.push(decimal_bytes(offset));
            t.push(decimal_bytes(count));
            proof {
                lim = seq![text_bytes("LIMIT"@), text_bytes(decimal(offset as nat)), text_bytes(decimal(count as nat))];
            }
        },
        None => {},
    }
    assert(args_view(t@) =~= head + lim);
    if asc {
        t.push(text("ASC"));
    } else {
        t.push(text("DESC"));
    }
    let ghost dir = seq![text_bytes(if asc { "ASC"@ } else { "DESC"@ })];
    assert(args_view(t@) =~= head + lim + dir);
    if alpha {
        t.push(text("ALPHA"));
    }
    assert(args_view(t@) =~= sort_template(class@, by@, is_counter, limit, asc, alpha));
    t
}

/// Exactly one command of the batch is kept.
pub open spec fn keeps_one(cmds: Seq<BatchCommand>) -> bool {
    exists|j: int| 0 <= j < cmds.len() && (#[trigger] cmds[j]).keep && forall|k: int| 0 <= k < cmds.len() && k != j ==> !(#[trigger] cmds[k]).keep
}

proof fn lemma_plan_keeps_one(cmds: Seq<BatchCommand>, ops: Seq<Seq<Seq<u8>>>, result: nat)
    requires
        is_plan(cmds, ops, result),
        ops.len() >= 3,
        1 <= result < ops.len() - 1,
    ensures
        keeps_one(cmds),
{
    let j = result - 1;
    assert(cmds[j].keep);
    assert forall|k: int| 0 <= k < cmds.len() && k != j implies !(#[trigger] cmds[k]).keep by {}
}

/// The batch for the solver's commands.
fn solved_plan(ops: Vec<Vec<Vec<u8>>>, result: usize) -> (r: Result<Vec<BatchCommand>, OhmerError>)
    requires
        ops@.len() >= 3,
        1 <= result < ops@.len() - 1,
    ensures
        r is Ok <==> plan_ok(ops_view(ops@)),
        r matches Ok(cmds) ==> is_plan(cmds@, ops_view(ops@), result as nat) && keeps_one(cmds@),
        r matches Err(e) ==> e matches OhmerError::CommandError(b) && first_bad_name(ops_view(ops@), b@),
{
    let r = plan(&ops, result);
    proof {
        if r is Ok {
            lemma_plan_keeps_one(r->Ok_0@, ops_view(ops@), result as nat);
        }
    }
    r
}

impl<T> Query<T> {
    /// The batch that lists the ids of the query's records: the solver's
    /// commands for the expression, made into a batch by `plan`. Exactly one
    /// command's reply is kept: the ids.
    pub fn try_iter(&self) -> (r: Result<Vec<BatchCommand>, OhmerError>)
        ensures
            r is Ok <==> plan_ok(ids_solution(self.set).0),
            r matches Ok(cmds) ==> is_plan(cmds@, ids_solution(self.set).0, ids_solution(self.set).1) && keeps_one(cmds@),
            r matches Err(e) ==> e matches OhmerError::CommandError(b) && first_bad_name(ids_solution(self.set).0, b@),
    {
        let (ops, result) = solve_ids(&self.set);
        solved_plan(ops, result)
    }

    /// As `try_iter`, consuming the query.
    pub fn try_into_iter(self) -> (r: Result<Vec<BatchCommand>, OhmerError>)
        ensures
            r is Ok <==> plan_ok(ids_solution(self.set).0),
            r matches Ok(cmds) ==> is_plan(cmds@, ids_solution(self.set).0, ids_solution(self.set).1) && keeps_one(cmds@),
            r matches Err(e) ==> e matches OhmerError::CommandError(b) && first_bad_name(ids_solution(self.set).0, b@),
    {
        let (ops, result) = solve_into_ids(self.set);
        solved_plan(ops, result)
    }

    /// The batch that lists the ids of the query's records sorted by the
    /// field `by` (a counter when `counters` names it), ascending or
    /// descending, as text or as numbers, skipping and taking as `limit`
    /// says: the solver's commands for `sort_template` over the
    /// expression, made into a batch by `plan`.
    pub fn sort(&self, by: &str, limit: Option<(usize, usize)>, asc: bool, alpha: bool, counters: &Vec<String>) -> (r: Result<Vec<BatchCommand>, OhmerError>)
        ensures
            ({
                let sol = template_solution(
                    sort_template(self.class@, by@, names_view(counters@).contains(by@), limit, asc, alpha),
                    self.set,
                );
                &&& r is Ok <==> plan_ok(sol.0)
                &&& r matches Ok(cmds) ==> is_plan(cmds@, sol.0, sol.1) && keeps_one(cmds@)
                &&& r matches Err(e) ==> e matches OhmerError::CommandError(b) && first_bad_name(sol.0, b@)
            }),
    {
        let template = sort_command(self.class.as_str(), by, limit, asc, alpha, counters);
        assert(args_view(template@).len() == template@.len());
        assert(sort_template(self.class@, by@, names_view(counters@).contains(by@), limit, asc, alpha).len() >= 5);
        let (ops, result) = solve_template(template, &self.set);
        solved_plan(ops, result)
    }
}

/// Intersections and unions do not depend on the order of their two
/// operands, and a difference removes exactly the members of what it
/// subtracts: the query operations behave as the operations on sets.
pub proof fn lemma_operand_order(x: stal::Set, y: stal::Set, v1: Vec<stal::Set>, v2: Vec<stal::Set>, store: Store)
    requires
        v1@ == seq![x, y],
        v2@ == seq![y, x],
    ensures
        eval(stal::Set::Inter(v1), store) == eval(x, store).intersect(eval(y, store)),
        eval(stal::Set::Inter(v1), store) == eval(stal::Set::Inter(v2), store),
        eval(stal::Set::Union(v1), store) == eval(x, store).union(eval(y, store)),
        eval(stal::Set::Union(v1), store) == eval(stal::Set::Union(v2), store),
        eval(stal::Set::Diff(v1), store) == eval(x, store).difference(eval(y, store)),
{
    assert(v1@.drop_last() =~= seq![x]);
    assert(v2@.drop_last() =~= seq![y]);
    assert(v1@.drop_first() =~= seq![y]);
    assert(seq![x].drop_last() =~= Seq::<stal::Set>::empty());
    assert(seq![y].drop_last() =~= Seq::<stal::Set>::empty());
    assert(inter_all(seq![x], store) == eval(x, store));
    assert(inter_all(seq![y], store) == eval(y, store));
    assert(union_all(Seq::<stal::Set>::empty(), store) == Set::<Seq<u8>>::empty());
    assert(seq![x].last() == x);
    assert(seq![y].last() == y);
    assert(union_all(seq![x], store) == Set::<Seq<u8>>::empty().union(eval(x, store)));
    assert(union_all(seq![y], store) == Set::<Seq<u8>>::empty().union(eval(y, store)));
    assert(Set::<Seq<u8>>::empty().union(eval(x, store)) =~= eval(x, store));
    assert(Set::<Seq<u8>>::empty().union(eval(y, store)) =~= eval(y, store));
    assert(v1@.last() == y && v2@.last() == x);
    assert(eval(stal::Set::Inter(v1), store) == inter_all(v1@, store));
    assert(eval(stal::Set::Inter(v2), store) == inter_all(v2@, store));
    assert(inter_all(v1@, store) == inter_all(v1@.drop_last(), store).intersect(eval(y, store)));
    assert(inter_all(v2@, store) == inter_all(v2@.drop_last(), store).intersect(eval(x, store)));
    assert(eval(x, store).intersect(eval(y, store)) =~= eval(y, store).intersect(eval(x, store)));
    assert(eval(stal::Set::Union(v1), store) == union_all(v1@, store));
    assert(eval(stal::Set::Union(v2), store) == union_all(v2@, store));
    assert(union_all(v1@, store) == union_all(v1@.drop_last(), store).union(eval(y, store)));
    assert(union_all(v2@, store) == union_all(v2@.drop_last(), store).union(eval(x, store)));
    assert(eval(x, store).union(eval(y, store)) =~= eval(y, store).union(eval(x, store)));
}

} // verus!
