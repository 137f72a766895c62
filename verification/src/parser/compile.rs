use crate::dnf::{dnf, normal_form};
use crate::err::{Fault, RulesError};
use crate::parser::lexer::lex;
use crate::parser::rules::{validation, RuleParser};
use crate::parser::tagcheck::{registry_of, Registry};
use crate::parser::tree::parse;
use crate::parser::types::{Expr, Rule};
use crate::text::texts;
use crate::types::{clauses, Cond, SubRule, Tag};
use crate::utils::file::{blank_or_comment, line_blank_or_comment};
use crate::utils::string::{normalise, normalised};
use vstd::prelude::*;

verus! {

/// The expression that a rule line stands for, given the registry of declared tags: the
/// line must pass validation and be a rule, and its tokens must make a tree.
pub open spec fn tree_of(reg: Registry, line: Seq<char>) -> Result<Expr, Fault> {
    match validation(reg, line) {
        Err(f) => Err(f),
        Ok(()) => match normalised(line) {
            Err(f) => Err(f),
            Ok(text) => match lex(text) {
                Err(f) => Err(f),
                Ok(tokens) => parse(tokens),
            },
        },
    }
}

/// The clauses that a rule line compiles to.
pub open spec fn compilation(reg: Registry, line: Seq<char>) -> Result<Seq<Seq<Cond>>, Fault> {
    match tree_of(reg, line) {
        Err(f) => Err(f),
        Ok(e) => Ok(dnf(e)),
    }
}

/// The clauses that the first `n` lines of rule files compile to, one
/// line's clauses after another's: blank lines and comments give none, and
/// the first line at fault ends it, with its fault and its text.
pub open spec fn compiled(reg: Registry, lines: Seq<Seq<char>>, n: nat) -> Result<
    Seq<Seq<Cond>>,
    (Fault, Seq<char>),
>
    decreases n,
{
    if n == 0 {
        Ok(seq![])
    } else {
        match compiled(reg, lines, (n - 1) as nat) {
            Err(e) => Err(e),
            Ok(before) => if blank_or_comment(lines[n - 1]) {
                Ok(before)
            } else {
                match compilation(reg, lines[n - 1]) {
                    Err(f) => Err((f, lines[n - 1])),
                    Ok(list) => Ok(before + list),
                }
            },
        }
    }
}

/// Once a line has failed, the lines after it change nothing.
pub proof fn lemma_compiled_err(reg: Registry, lines: Seq<Seq<char>>, k: nat, n: nat)
    requires
        k <= n,
        compiled(reg, lines, k) is Err,
    ensures
        compiled(reg, lines, n) == compiled(reg, lines, k),
    decreases n,
{
    if k < n {
        lemma_compiled_err(reg, lines, k, (n - 1) as nat);
    }
}

impl RuleParser {
    /// Compiles the lines of rule files, against the tags `mapped_tags`,
    /// into one list of clauses.
    pub fn parse_rules(mapped_tags: Vec<Tag>, lines: &Vec<String>) -> (r: Result<
        Vec<SubRule>,
        RulesError,
    >)
        ensures
            match compiled(registry_of(mapped_tags@), texts(lines@), lines@.len()) {
                Ok(list) => r is Ok && clauses(r->Ok_0@) == list,
                Err((f, line)) => r is Err && r->Err_0.is_in(f, line),
            },
    {
        let ghost reg = registry_of(mapped_tags@);
        let ghost all = texts(lines@);
        let parser = RuleParser::new(mapped_tags);
        let mut dnf_subrules: Vec<SubRule> = Vec::new();
        let mut i: usize = 0;
        assert(clauses(dnf_subrules@) =~= seq![]);
        while i < lines.len()
            invariant
                reg == registry_of(mapped_tags@),
                reg == parser.registry(),
                all == texts(lines@),
                i <= lines@.len(),
                compiled(reg, all, i as nat) == Ok::<Seq<Seq<Cond>>, (Fault, Seq<char>)>(
                    clauses(dnf_subrules@),
                ),
            decreases lines@.len() - i,
        {
            assert(all[i as int] == lines@[i as int]@);
            let line: &str = lines[i].as_str();
            if !line_blank_or_comment(line) {
                match parser.compile(line) {
                    Ok(list) => {
                        let ghost before = clauses(dnf_subrules@);
                        let ghost added = clauses(list@);
                        let mut list = list;
                        dnf_subrules.append(&mut list);
                        assert(clauses(dnf_subrules@) =~= before + added);
                    },
                    Err(e) => {
                        proof {
                            lemma_compiled_err(reg, all, (i + 1) as nat, lines@.len());
                        }
                        return Err(e);
                    },
                }
            }
            i = i + 1;
        }
        Ok(dnf_subrules)
    }

    /// Validates a rule line and builds its expression tree.
    pub fn string_to_rule(&self, rule_str: &str) -> (r: Result<Rule, RulesError>)
        ensures
            match tree_of(self.registry(), rule_str@) {
                Ok(e) => r is Ok && r->Ok_0.root_node@ == e,
                Err(f) => r is Err && r->Err_0.is_in(f, rule_str@),
            },
    {
        match self.validate_rule(rule_str) {
            Ok(()) => {},
            Err(e) => {
                return Err(e);
            },
        }
        let text = match normalise(rule_str) {
            Ok(text) => text,
            Err(e) => {
                return Err(Self::add_error_context(e, rule_str));
            },
        };
        let tokens = match Self::tokenise_rule(&text) {
            Ok(tokens) => tokens,
            Err(e) => {
                return Err(Self::add_error_context(e, rule_str));
            },
        };
        match Self::build_ast(tokens) {
            Ok(root) => Ok(Rule { root_node: root }),
            Err(e) => Err(Self::add_error_context(e, rule_str)),
        }
    }

    /// Rewrites the tree of a rule into disjunctive normal form.
    pub fn rule_to_dnf_subrule(&self, rule: Rule) -> (r: Vec<SubRule>)
        ensures
            clauses(r@) == dnf(rule.root_node@),
    {
        normal_form(&rule.root_node)
    }

    /// Compiles a rule line into its clauses.
    pub fn compile(&self, rule: &str) -> (r: Result<Vec<SubRule>, RulesError>)
        ensures
            match compilation(self.registry(), rule@) {
                Ok(list) => r is Ok && clauses(r->Ok_0@) == list,
                Err(f) => r is Err && r->Err_0.is_in(f, rule@),
            },
    {
        match self.string_to_rule(rule) {
            Ok(tree) => Ok(self.rule_to_dnf_subrule(tree)),
            Err(e) => Err(e),
        }
    }
}

} // verus!
