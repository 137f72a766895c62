use crate::dnf::{lemma_dnf_sound, satisfied, truth};
use crate::err::{renders_in, Fault, RulesError};
use crate::parser::compile::{compilation, tree_of};
use crate::parser::lex_laws::{
    lemma_comma_sugar, lemma_lex_trim,
    lemma_lex_no_paren, lemma_lex_sound, no_paren_char,
    is_lexer_fault, is_paren_fault, lemma_unbalanced_fails, lemma_unbalanced_paren_fault,
    lex_loose,
};
use crate::parser::lexer::{comma_allowed, is_single, lex, lex_flush, lex_prefix};
use crate::parser::rules::validation;
use crate::parser::tree_laws::{lemma_parse_flat, lemma_valid_is_flat};
use crate::parser::tagcheck::Registry;
use crate::text::is_space;
use crate::types::{Cond, TagMap};
use crate::utils::file::blank_or_comment;
use crate::utils::string::{count, normalised, trim, trim_end, trim_start};
use vstd::prelude::*;

verus! {

/// Whether a fault is a format error: one of the dash, of a token, of a
/// comma or of the parentheses.
pub open spec fn is_format_fault(f: Fault) -> bool {
    f is MissingDash || f is ExtraDashes || is_lexer_fault(f)
}

/// Counting goes through concatenation.
pub proof fn lemma_count_concat(a: Seq<char>, b: Seq<char>, c: char)
    ensures
        count(a + b, c) == count(a, c) + count(b, c),
    decreases b.len(),
{
    if b.len() == 0 {
        assert(a + b =~= a);
    } else {
        lemma_count_concat(a, b.drop_last(), c);
        assert((a + b).drop_last() =~= a + b.drop_last());
        assert((a + b).last() == b.last());
    }
}

/// Counting in a text of one character.
proof fn lemma_count_one(x: char, c: char)
    ensures
        count(seq![x], c) == if x == c {
            1nat
        } else {
            0nat
        },
{
    reveal_with_fuel(count, 2);
    assert(seq![x].drop_last() =~= Seq::<char>::empty());
    assert(seq![x].last() == x);
}

/// Trimming takes away no character that is not white space.
pub proof fn lemma_count_trim(s: Seq<char>, c: char)
    requires
        !is_space(c),
    ensures
        count(trim_start(s), c) == count(s, c),
        count(trim_end(s), c) == count(s, c),
        count(trim(s), c) == count(s, c),
    decreases s.len(),
{
    if s.len() > 0 {
        lemma_count_trim(s.drop_first(), c);
        lemma_count_trim(s.drop_last(), c);
        assert(s =~= seq![s[0]] + s.drop_first());
        lemma_count_concat(seq![s[0]], s.drop_first(), c);
        lemma_count_one(s[0], c);
    }
    lemma_count_trim_end(trim_start(s), c);
}

/// Trimming the end takes away no character that is not white space.
proof fn lemma_count_trim_end(s: Seq<char>, c: char)
    requires
        !is_space(c),
    ensures
        count(trim_end(s), c) == count(s, c),
    decreases s.len(),
{
    if s.len() > 0 {
        lemma_count_trim_end(s.drop_last(), c);
    }
}

/// The text of a rule holds the parentheses of its line.
pub proof fn lemma_count_normalised(line: Seq<char>, c: char)
    requires
        normalised(line) is Ok,
        c == '(' || c == ')',
    ensures
        count(normalised(line)->Ok_0, c) == count(line, c),
{
    let rest = line.drop_first();
    lemma_count_trim(rest, c);
    assert(line =~= seq![line[0]] + rest);
    lemma_count_concat(seq![line[0]], rest, c);
    lemma_count_one(line[0], c);
}

/// A rule line that holds more of one parenthesis than of the other is
/// never valid, whatever the registry: validation fails on it with a format
/// error, before the order of the tokens or any tag is looked at, and so
/// does compilation. Where the line begins with its one dash, the error is
/// one of the parentheses, unless the text is at fault apart from its
/// parentheses: then it may be that fault.
pub proof fn lemma_unbalanced_rule_fails(reg: Registry, line: Seq<char>)
    requires
        !blank_or_comment(line),
        count(line, '(') != count(line, ')'),
    ensures
        validation(reg, line) is Err,
        is_format_fault(validation(reg, line)->Err_0),
        compilation(reg, line) == Err::<Seq<Seq<Cond>>, Fault>(validation(reg, line)->Err_0),
        normalised(line) is Ok ==> is_paren_fault(validation(reg, line)->Err_0) || lex_loose(
            normalised(line)->Ok_0,
        ) == Err::<Seq<Seq<char>>, Fault>(validation(reg, line)->Err_0),
{
    if normalised(line) is Ok {
        lemma_count_normalised(line, '(');
        lemma_count_normalised(line, ')');
        lemma_unbalanced_fails(normalised(line)->Ok_0);
        lemma_unbalanced_paren_fault(normalised(line)->Ok_0);
    }
}

/// Trimming brings no parenthesis into a text.
proof fn lemma_trim_no_paren(s: Seq<char>)
    requires
        no_paren_char(s),
    ensures
        no_paren_char(trim_start(s)),
        no_paren_char(trim_end(s)),
        no_paren_char(trim(s)),
    decreases s.len(),
{
    if s.len() > 0 {
        assert(no_paren_char(s.drop_first())) by {
            assert forall|i: int| 0 <= i < s.drop_first().len() implies #[trigger] s.drop_first()[i]
                != '(' && s.drop_first()[i] != ')' by {
                assert(s.drop_first()[i] == s[i + 1]);
            }
        }
        assert(no_paren_char(s.drop_last())) by {
            assert forall|i: int| 0 <= i < s.drop_last().len() implies #[trigger] s.drop_last()[i]
                != '(' && s.drop_last()[i] != ')' by {
                assert(s.drop_last()[i] == s[i]);
            }
        }
        lemma_trim_no_paren(s.drop_first());
        lemma_trim_no_paren(s.drop_last());
    }
    lemma_trim_end_no_paren(trim_start(s));
}

/// Trimming the end brings no parenthesis into a text.
proof fn lemma_trim_end_no_paren(s: Seq<char>)
    requires
        no_paren_char(s),
    ensures
        no_paren_char(trim_end(s)),
    decreases s.len(),
{
    if s.len() > 0 {
        assert(no_paren_char(s.drop_last())) by {
            assert forall|i: int| 0 <= i < s.drop_last().len() implies #[trigger] s.drop_last()[i]
                != '(' && s.drop_last()[i] != ')' by {
                assert(s.drop_last()[i] == s[i]);
            }
        }
        lemma_trim_end_no_paren(s.drop_last());
    }
}

/// A valid rule without parentheses whose last token is not one character
/// of one byte compiles: the tree builder finds no fault in it.
pub proof fn lemma_valid_flat_compiles(reg: Registry, line: Seq<char>)
    requires
        !blank_or_comment(line),
        validation(reg, line) is Ok,
        no_paren_char(line),
        !is_single(lex(normalised(line)->Ok_0)->Ok_0.last()),
    ensures
        compilation(reg, line) is Ok,
{
    let text = normalised(line)->Ok_0;
    let tokens = lex(text)->Ok_0;
    assert(no_paren_char(line.drop_first())) by {
        assert forall|i: int| 0 <= i < line.drop_first().len() implies #[trigger] line.drop_first()[i]
            != '(' && line.drop_first()[i] != ')' by {
            assert(line.drop_first()[i] == line[i + 1]);
        }
    }
    lemma_trim_no_paren(line.drop_first());
    lemma_lex_sound(text);
    lemma_lex_no_paren(text);
    lemma_valid_is_flat(tokens);
    lemma_parse_flat(tokens);
}

/// A comma in a rule is short for `|`, the tag name and the operator of
/// the comparison before it. Where the text `a` of a rule leaves the lexer
/// in a state in which a comma is allowed, the rule of `a`, a comma and `b`
/// and the rule of `a`, `|`, that tag name, that operator and `b` have the
/// same verdict and compile to the same clauses, as long as both begin
/// with their one dash.
pub proof fn lemma_comma_rule(reg: Registry, a: Seq<char>, b: Seq<char>)
    requires
        lex_prefix(a, a.len()) is Ok,
        lex_flush(lex_prefix(a, a.len())->Ok_0) is Ok,
        comma_allowed(lex_flush(lex_prefix(a, a.len())->Ok_0)->Ok_0),
        normalised(seq!['-'] + (a + seq![','] + b)) is Ok,
        normalised(seq!['-'] + written_out(a, b)) is Ok,
    ensures
        validation(reg, seq!['-'] + (a + seq![','] + b)) == validation(
            reg,
            seq!['-'] + written_out(a, b),
        ),
        compilation(reg, seq!['-'] + (a + seq![','] + b)) == compilation(
            reg,
            seq!['-'] + written_out(a, b),
        ),
{
    let short = a + seq![','] + b;
    let long = written_out(a, b);
    let dash = seq!['-'];
    lemma_comma_sugar(a, b);
    lemma_lex_trim(short);
    lemma_lex_trim(long);
    assert((dash + short).drop_first() =~= short);
    assert((dash + long).drop_first() =~= long);
    assert(!blank_or_comment(dash + short)) by {
        assert((dash + short)[0] == '-');
    }
    assert(!blank_or_comment(dash + long)) by {
        assert((dash + long)[0] == '-');
    }
}

/// The text `a`, a comma and `b` with the comma written out: `|`, the tag
/// name and the operator that the lexer remembers after `a`.
pub open spec fn written_out(a: Seq<char>, b: Seq<char>) -> Seq<char> {
    let st = lex_flush(lex_prefix(a, a.len())->Ok_0)->Ok_0;
    a + seq!['|'] + st.tag_name->0 + st.comparison->0 + b
}

/// The clauses that a rule compiles to match the objects of which the
/// rule's expression is true.
pub proof fn lemma_compilation_sound(reg: Registry, line: Seq<char>, object: TagMap)
    requires
        compilation(reg, line) is Ok,
    ensures
        tree_of(reg, line) is Ok,
        satisfied(compilation(reg, line)->Ok_0, object) == truth(tree_of(reg, line)->Ok_0, object),
{
    lemma_dnf_sound(tree_of(reg, line)->Ok_0, object);
}

/// Validation keeps no state: where one validation of a line against a
/// registry has passed, any other of the same line against the same
/// registry passes too.
pub proof fn lemma_validation_repeats(
    reg: Registry,
    line: Seq<char>,
    first: Result<(), RulesError>,
    second: Result<(), RulesError>,
)
    requires
        renders_in(first, validation(reg, line), line),
        renders_in(second, validation(reg, line), line),
        first is Ok,
    ensures
        second is Ok,
{
}

} // verus!
