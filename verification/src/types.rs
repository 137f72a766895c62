use vstd::prelude::*;

verus! {

/// The name of a tag, such as `colour`.
pub type TagName = String;

/// The values of a tag, such as `red` and `green`.
pub type TagValues = Vec<String>;

/// A tag with the values it holds: a declaration in a registry, or what an
/// object has under one name.
#[derive(Debug, Clone)]
pub struct Tag {
    pub name: TagName,
    pub values: TagValues,
}

/// The tags that rules may name, each with the values declared for it.
/// Names and values are compared in lower case; tags whose names are the
/// same in lower case declare their values together.
pub type TagRegistry = Vec<Tag>;

/// What is held against rules: tags with the values that the object has
/// under them. Names and values are compared as they stand; entries of one
/// name are read together.
pub type Object = Vec<Tag>;

/// How a constraint compares a tag with a value.
#[derive(Debug, Clone, Copy, PartialEq, Eq, Structural)]
pub enum ComparisonOp {
    /// `=`: the tag has the value.
    ISEQ,
    /// `!`: the tag does not have the value.
    NOEQ,
}

/// How two expressions are joined.
#[derive(Debug, Clone, Copy, PartialEq, Eq, Structural)]
pub enum LogicalOp {
    AND,
    OR,
}

/// One comparison of a tag with a value, as a mathematical value.
pub struct Cond {
    pub tag: Seq<char>,
    pub op: ComparisonOp,
    pub value: Seq<char>,
}

/// One comparison of a tag with a value.
#[derive(Debug, Clone)]
pub struct Constraint {
    pub tag: String,
    pub op: ComparisonOp,
    pub value: String,
}

impl View for Constraint {
    type V = Cond;

    open spec fn view(&self) -> Cond {
        Cond { tag: self.tag@, op: self.op, value: self.value@ }
    }
}

/// One clause of a rule in disjunctive normal form: constraints that must
/// all hold, in the order in which the rule gave them.
#[derive(Debug, Clone)]
pub struct SubRule {
    pub constraints: Vec<Constraint>,
}

impl View for SubRule {
    type V = Seq<Cond>;

    open spec fn view(&self) -> Seq<Cond> {
        Seq::new(self.constraints@.len(), |i: int| self.constraints@[i]@)
    }
}

impl Default for SubRule {
    /// The clause without constraints, which holds of every object.
    fn default() -> (r: Self)
        ensures
            r@ == Seq::<Cond>::empty(),
    {
        let r = SubRule { constraints: Vec::new() };
        assert(r@ =~= Seq::<Cond>::empty());
        r
    }
}

/// The clauses of a list of subrules.
pub open spec fn clauses(rules: Seq<SubRule>) -> Seq<Seq<Cond>> {
    Seq::new(rules.len(), |i: int| rules[i]@)
}

/// Whether, among `tags`, the tag `name` holds `value`. A name that does not
/// occur holds nothing; a name that occurs more than once holds what any of
/// its entries holds.
pub open spec fn holds(tags: Seq<Tag>, name: Seq<char>, value: Seq<char>) -> bool {
    exists|i: int, j: int|
        0 <= i < tags.len() && 0 <= j < tags[i].values@.len() && tags[i].name@ == name
            && #[trigger] tags[i].values@[j]@ == value
}

/// Whether `name` occurs among `tags`.
pub open spec fn names(tags: Seq<Tag>, name: Seq<char>) -> bool {
    exists|i: int| 0 <= i < tags.len() && (#[trigger] tags[i]).name@ == name
}

/// Tags as a mathematical value: each name with the set of its values.
pub type TagMap = Map<Seq<char>, Set<Seq<char>>>;

/// The tags as a map from each name to the set of its values.
pub open spec fn tag_map(tags: Seq<Tag>) -> TagMap {
    Map::new(
        |name: Seq<char>| names(tags, name),
        |name: Seq<char>| Set::new(|value: Seq<char>| holds(tags, name, value)),
    )
}

} // verus!
