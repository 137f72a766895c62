use crate::parser::types::{Expr, Node};
use crate::types::{clauses, ComparisonOp, Cond, Constraint, LogicalOp, SubRule, TagMap};
use vstd::prelude::*;

verus! {

/// The clause `clause` joined with each clause of `b` in turn.
pub open spec fn join_each(clause: Seq<Cond>, b: Seq<Seq<Cond>>) -> Seq<Seq<Cond>> {
    Seq::new(b.len(), |j: int| clause + b[j])
}

/// Each clause of `a` joined with each clause of `b`: the clauses of `a` in
/// order, and for each of them the clauses of `b` in order.
pub open spec fn cross(a: Seq<Seq<Cond>>, b: Seq<Seq<Cond>>) -> Seq<Seq<Cond>>
    decreases a.len(),
{
    if a.len() == 0 {
        seq![]
    } else {
        cross(a.drop_last(), b) + join_each(a.last(), b)
    }
}

/// The disjunctive normal form of an expression: a list of clauses, of
/// which one must hold; in a clause every constraint must hold. Constraints
/// are kept as they come, repeated or contradictory ones too.
pub open spec fn dnf(e: Expr) -> Seq<Seq<Cond>>
    decreases e,
{
    match e {
        Expr::Leaf(c) => seq![seq![c]],
        Expr::Binary(LogicalOp::OR, left, right) => dnf(*left) + dnf(*right),
        Expr::Binary(LogicalOp::AND, left, right) => cross(dnf(*left), dnf(*right)),
    }
}

/// Whether the object has the value under the tag. A tag that the object
/// lacks has no value.
pub open spec fn carries(object: TagMap, tag: Seq<char>, value: Seq<char>) -> bool {
    object.dom().contains(tag) && object[tag].contains(value)
}

/// Whether one constraint holds of an object.
pub open spec fn cond_holds(c: Cond, object: TagMap) -> bool {
    match c.op {
        ComparisonOp::ISEQ => carries(object, c.tag, c.value),
        ComparisonOp::NOEQ => !carries(object, c.tag, c.value),
    }
}

/// Whether every constraint of a clause holds of an object.
pub open spec fn clause_holds(clause: Seq<Cond>, object: TagMap) -> bool {
    forall|k: int| 0 <= k < clause.len() ==> cond_holds(#[trigger] clause[k], object)
}

/// Whether some clause holds of an object.
pub open spec fn satisfied(list: Seq<Seq<Cond>>, object: TagMap) -> bool {
    exists|i: int| 0 <= i < list.len() && clause_holds(#[trigger] list[i], object)
}

/// Whether an expression is true of an object, read as it stands.
pub open spec fn truth(e: Expr, object: TagMap) -> bool
    decreases e,
{
    match e {
        Expr::Leaf(c) => cond_holds(c, object),
        Expr::Binary(LogicalOp::AND, left, right) => truth(*left, object) && truth(*right, object),
        Expr::Binary(LogicalOp::OR, left, right) => truth(*left, object) || truth(*right, object),
    }
}

/// A clause without constraints holds of every object, and so a list with
/// such a clause matches every object.
pub proof fn lemma_empty_clause(list: Seq<Seq<Cond>>, i: int, object: TagMap)
    requires
        0 <= i < list.len(),
        list[i].len() == 0,
    ensures
        clause_holds(list[i], object),
        satisfied(list, object),
{
}

/// Two clauses joined hold where both hold.
pub proof fn lemma_join_holds(a: Seq<Cond>, b: Seq<Cond>, object: TagMap)
    ensures
        clause_holds(a + b, object) == (clause_holds(a, object) && clause_holds(b, object)),
{
    let ab = a + b;
    if clause_holds(a, object) && clause_holds(b, object) {
        assert forall|k: int| 0 <= k < ab.len() implies cond_holds(#[trigger] ab[k], object) by {
            if k < a.len() {
                assert(ab[k] == a[k]);
            } else {
                assert(ab[k] == b[k - a.len()]);
            }
        }
    }
    if clause_holds(ab, object) {
        assert forall|k: int| 0 <= k < a.len() implies cond_holds(#[trigger] a[k], object) by {
            assert(ab[k] == a[k]);
        }
        assert forall|k: int| 0 <= k < b.len() implies cond_holds(#[trigger] b[k], object) by {
            assert(ab[k + a.len()] == b[k]);
        }
    }
}

/// Two lists of clauses, one after the other, match where either matches.
pub proof fn lemma_or_satisfied(a: Seq<Seq<Cond>>, b: Seq<Seq<Cond>>, object: TagMap)
    ensures
        satisfied(a + b, object) == (satisfied(a, object) || satisfied(b, object)),
{
    let ab = a + b;
    if satisfied(a, object) {
        let i = choose|i: int| 0 <= i < a.len() && clause_holds(#[trigger] a[i], object);
        assert(ab[i] == a[i]);
    }
    if satisfied(b, object) {
        let i = choose|i: int| 0 <= i < b.len() && clause_holds(#[trigger] b[i], object);
        assert(ab[i + a.len()] == b[i]);
    }
    if satisfied(ab, object) {
        let i = choose|i: int| 0 <= i < ab.len() && clause_holds(#[trigger] ab[i], object);
        if i < a.len() {
            assert(ab[i] == a[i]);
        } else {
            assert(ab[i] == b[i - a.len()]);
        }
    }
}

/// A clause joined with each clause of a list matches where the clause
/// holds and the list matches.
proof fn lemma_join_each_satisfied(clause: Seq<Cond>, b: Seq<Seq<Cond>>, object: TagMap)
    ensures
        satisfied(join_each(clause, b), object) == (clause_holds(clause, object) && satisfied(
            b,
            object,
        )),
{
    let joined = join_each(clause, b);
    if clause_holds(clause, object) && satisfied(b, object) {
        let j = choose|j: int| 0 <= j < b.len() && clause_holds(#[trigger] b[j], object);
        lemma_join_holds(clause, b[j], object);
        assert(joined[j] == clause + b[j]);
    }
    if satisfied(joined, object) {
        let j = choose|j: int| 0 <= j < joined.len() && clause_holds(#[trigger] joined[j], object);
        lemma_join_holds(clause, b[j], object);
        assert(clause_holds(b[j], object));
    }
}

/// The cross product of two lists of clauses matches where both match.
pub proof fn lemma_and_satisfied(a: Seq<Seq<Cond>>, b: Seq<Seq<Cond>>, object: TagMap)
    ensures
        satisfied(cross(a, b), object) == (satisfied(a, object) && satisfied(b, object)),
    decreases a.len(),
{
    if a.len() > 0 {
        let front = a.drop_last();
        lemma_and_satisfied(front, b, object);
        lemma_join_each_satisfied(a.last(), b, object);
        lemma_or_satisfied(cross(front, b), join_each(a.last(), b), object);
        assert(a =~= front + seq![a.last()]);
        lemma_or_satisfied(front, seq![a.last()], object);
        assert(satisfied(seq![a.last()], object) == clause_holds(a.last(), object)) by {
            let one = seq![a.last()];
            if clause_holds(a.last(), object) {
                assert(one[0] == a.last());
            }
        }
    }
}

/// The normal form of an expression matches the objects of which the
/// expression is true.
pub proof fn lemma_dnf_sound(e: Expr, object: TagMap)
    ensures
        satisfied(dnf(e), object) == truth(e, object),
    decreases e,
{
    match e {
        Expr::Leaf(c) => {
            let list = seq![seq![c]];
            assert(list[0][0] == c);
            if cond_holds(c, object) {
                assert(clause_holds(list[0], object));
            }
        },
        Expr::Binary(LogicalOp::OR, left, right) => {
            lemma_dnf_sound(*left, object);
            lemma_dnf_sound(*right, object);
            lemma_or_satisfied(dnf(*left), dnf(*right), object);
        },
        Expr::Binary(LogicalOp::AND, left, right) => {
            lemma_dnf_sound(*left, object);
            lemma_dnf_sound(*right, object);
            lemma_and_satisfied(dnf(*left), dnf(*right), object);
        },
    }
}

/// A copy of a constraint.
pub fn copy_constraint(c: &Constraint) -> (r: Constraint)
    ensures
        r@ == c@,
{
    Constraint { tag: c.tag.clone(), op: c.op, value: c.value.clone() }
}

/// The constraints of `a` followed by those of `b`.
pub fn join(a: &SubRule, b: &SubRule) -> (r: SubRule)
    ensures
        r@ == a@ + b@,
{
    let mut list: Vec<Constraint> = Vec::new();
    let mut i: usize = 0;
    while i < a.constraints.len()
        invariant
            i <= a.constraints@.len(),
            list@.len() == i,
            forall|k: int| 0 <= k < i ==> (#[trigger] list@[k])@ == a.constraints@[k]@,
        decreases a.constraints@.len() - i,
    {
        list.push(copy_constraint(&a.constraints[i]));
        i = i + 1;
    }
    let mut j: usize = 0;
    while j < b.constraints.len()
        invariant
            j <= b.constraints@.len(),
            list@.len() == a.constraints@.len() + j,
            forall|k: int|
                0 <= k < a.constraints@.len() ==> (#[trigger] list@[k])@ == a.constraints@[k]@,
            forall|k: int|
                0 <= k < j ==> (#[trigger] list@[a.constraints@.len() + k])@ == b.constraints@[k]@,
        decreases b.constraints@.len() - j,
    {
        list.push(copy_constraint(&b.constraints[j]));
        j = j + 1;
    }
    let r = SubRule { constraints: list };
    assert(r@ =~= a@ + b@) by {
        assert forall|k: int| 0 <= k < r@.len() implies r@[k] == (a@ + b@)[k] by {
            if k >= a.constraints@.len() {
                assert(r.constraints@[a.constraints@.len() + (k - a.constraints@.len())]@
                    == b.constraints@[k - a.constraints@.len()]@);
            }
        }
    }
    r
}

/// Rewrites an expression tree into disjunctive normal form.
pub fn normal_form(node: &Node) -> (r: Vec<SubRule>)
    ensures
        clauses(r@) == dnf(node@),
    decreases node,
{
    match node {
        Node::Leaf { op, tag, value } => {
            let mut list: Vec<Constraint> = Vec::new();
            list.push(Constraint { tag: tag.clone(), op: *op, value: value.clone() });
            let mut r: Vec<SubRule> = Vec::new();
            r.push(SubRule { constraints: list });
            assert(clauses(r@) =~= dnf(node@)) by {
                assert(r@[0]@ =~= seq![node@->Leaf_0]);
            }
            r
        },
        Node::Binary { op, left, right } => {
            let a = normal_form(left);
            let b = normal_form(right);
            match op {
                LogicalOp::OR => {
                    let mut r: Vec<SubRule> = a;
                    let mut rest: Vec<SubRule> = b;
                    let ghost first = clauses(r@);
                    let ghost second = clauses(rest@);
                    r.append(&mut rest);
                    assert(clauses(r@) =~= first + second);
                    r
                },
                LogicalOp::AND => {
                    let ghost ca = clauses(a@);
                    let ghost cb = clauses(b@);
                    let mut r: Vec<SubRule> = Vec::new();
                    let mut i: usize = 0;
                    assert(ca.take(0) =~= seq![]);
                    while i < a.len()
                        invariant
                            ca == clauses(a@),
                            cb == clauses(b@),
                            i <= a@.len(),
                            clauses(r@) == cross(ca.take(i as int), cb),
                        decreases a@.len() - i,
                    {
                        let ghost done = clauses(r@);
                        let mut j: usize = 0;
                        while j < b.len()
                            invariant
                                ca == clauses(a@),
                                cb == clauses(b@),
                                i < a@.len(),
                                j <= b@.len(),
                                clauses(r@) == done + join_each(ca[i as int], cb).take(j as int),
                            decreases b@.len() - j,
                        {
                            let ghost before = clauses(r@);
                            r.push(join(&a[i], &b[j]));
                            assert(clauses(r@) =~= before.push(a@[i as int]@ + b@[j as int]@));
                            assert(join_each(ca[i as int], cb).take(j + 1) =~= join_each(
                                ca[i as int],
                                cb,
                            ).take(j as int).push(a@[i as int]@ + b@[j as int]@));
                            j = j + 1;
                        }
                        assert(join_each(ca[i as int], cb).take(b@.len() as int) =~= join_each(
                            ca[i as int],
                            cb,
                        ));
                        assert(ca.take(i + 1).drop_last() =~= ca.take(i as int));
                        assert(ca.take(i + 1).last() == ca[i as int]);
                        i = i + 1;
                    }
                    assert(ca.take(a@.len() as int) =~= ca);
                    r
                },
            }
        },
    }
}

} // verus!
