use crate::dnf::{carries, clause_holds, cond_holds, satisfied};
use crate::err::{renders_in, RulesError};
use crate::parser::compile::compilation;
use crate::parser::rules::{validation, RuleParser};
use crate::parser::tagcheck::{copy_tags, lemma_same_registry, registry_of, tag_holds};
use crate::types::{
    clauses, holds, names, tag_map, ComparisonOp, Constraint, Object, SubRule, TagRegistry,
};
use vstd::prelude::*;

verus! {

/// Compiles a rule line, against the tags that `registry` declares, into
/// the clauses of its disjunctive normal form.
pub fn compile(rule: &str, registry: &TagRegistry) -> (r: Result<Vec<SubRule>, RulesError>)
    ensures
        match compilation(registry_of(registry@), rule@) {
            Ok(list) => r is Ok && clauses(r->Ok_0@) == list,
            Err(f) => r is Err && r->Err_0.is_in(f, rule@),
        },
{
    let parser = RuleParser::new(copy_tags(registry));
    proof {
        lemma_same_registry(parser.tags(), registry@);
    }
    parser.compile(rule)
}

/// Validates a rule line against the tags that `registry` declares, without
/// building anything.
pub fn validate(rule: &str, registry: &TagRegistry) -> (r: Result<(), RulesError>)
    ensures
        renders_in(r, validation(registry_of(registry@), rule@), rule@),
{
    let parser = RuleParser::new(copy_tags(registry));
    proof {
        lemma_same_registry(parser.tags(), registry@);
    }
    parser.validate_rule(rule)
}

/// Whether one constraint holds of an object.
pub fn constraint_holds(c: &Constraint, object: &Object) -> (b: bool)
    ensures
        b == cond_holds(c@, tag_map(object@)),
{
    let found = tag_holds(object, &c.tag, &c.value);
    proof {
        let map = tag_map(object@);
        if holds(object@, c.tag@, c.value@) {
            let (i, j) = choose|i: int, j: int|
                0 <= i < object@.len() && 0 <= j < object@[i].values@.len() && object@[i].name@
                    == c.tag@ && #[trigger] object@[i].values@[j]@ == c.value@;
            assert(names(object@, c.tag@));
        }
        assert(carries(map, c.tag@, c.value@) == found);
    }
    match c.op {
        ComparisonOp::ISEQ => found,
        ComparisonOp::NOEQ => !found,
    }
}

/// Whether every constraint of a clause holds of an object.
pub fn subrule_holds(rule: &SubRule, object: &Object) -> (b: bool)
    ensures
        b == clause_holds(rule@, tag_map(object@)),
{
    let mut k: usize = 0;
    while k < rule.constraints.len()
        invariant
            k <= rule.constraints@.len(),
            forall|n: int| 0 <= n < k ==> cond_holds(#[trigger] rule@[n], tag_map(object@)),
        decreases rule.constraints@.len() - k,
    {
        assert(rule@[k as int] == rule.constraints@[k as int]@);
        if !constraint_holds(&rule.constraints[k], object) {
            return false;
        }
        k = k + 1;
    }
    true
}

/// Whether an object matches a rule in disjunctive normal form: whether
/// some clause holds of it. The object has, under each name, the values of
/// every entry of that name.
pub fn evaluate(rules: &Vec<SubRule>, object: &Object) -> (b: bool)
    ensures
        b == satisfied(clauses(rules@), tag_map(object@)),
{
    let mut i: usize = 0;
    while i < rules.len()
        invariant
            i <= rules@.len(),
            forall|n: int|
                0 <= n < i ==> !clause_holds(#[trigger] clauses(rules@)[n], tag_map(object@)),
        decreases rules@.len() - i,
    {
        assert(clauses(rules@)[i as int] == rules@[i as int]@);
        if subrule_holds(&rules[i], object) {
            return true;
        }
        i = i + 1;
    }
    false
}

} // verus!
