use crate::err::{renders, renders_in, Fault, RuleError, RulesError};
use crate::parser::lexer::lex;
use crate::parser::syntax::{mapped, mapped_view, syntax_check, Mapped};
use crate::parser::tagcheck::{
    check_tags, fold_tags, folds, lemma_folded_registry, registry_of, tags_check, Registry,
};
use crate::parser::types::MappedRuleTokens;
use crate::text::{lowercase, texts, to_lower};
use crate::types::Tag;
use crate::utils::file::{blank_or_comment, line_blank_or_comment};
use crate::utils::string::{normalise, normalised};
use vstd::prelude::*;

verus! {

/// The lower-case forms of `tokens`, place by place.
pub open spec fn lowered(tokens: Seq<Seq<char>>) -> Seq<Seq<char>> {
    Seq::new(tokens.len(), |i: int| lowercase(tokens[i]))
}

/// The texts of typed tokens.
pub open spec fn token_texts(m: Seq<Mapped>) -> Seq<Seq<char>> {
    Seq::new(m.len(), |i: int| m[i].0)
}

/// The verdict on a rule line, given the registry of declared tags: a blank line or a
/// comment passes; any other line must begin with its one dash, split into
/// tokens, have them in a valid order, and name declared tags and values.
/// The first fault met in that order is the verdict.
pub open spec fn validation(reg: Registry, line: Seq<char>) -> Result<(), Fault> {
    if blank_or_comment(line) {
        Ok(())
    } else {
        match normalised(line) {
            Err(f) => Err(f),
            Ok(text) => match lex(text) {
                Err(f) => Err(f),
                Ok(tokens) => match syntax_check(mapped(tokens)) {
                    Err(f) => Err(f),
                    Ok(()) => tags_check(reg, mapped(tokens), lowered(tokens)),
                },
            },
        }
    }
}

/// The validator and compiler of rules over a set of declared tags.
pub struct RuleParser {
    m_mapped_tags: Vec<Tag>,
    m_folded: Vec<Tag>,
}

impl RuleParser {
    /// The second list holds the first in lower case.
    #[verifier::type_invariant]
    spec fn folded(self) -> bool {
        folds(self.m_folded@, self.m_mapped_tags@)
    }

    /// The tags that the parser was made with.
    pub closed spec fn tags(&self) -> Seq<Tag> {
        self.m_mapped_tags@
    }

    /// The registry that the parser checks against: what its tags declare,
    /// in lower case.
    pub open spec fn registry(&self) -> Registry {
        registry_of(self.tags())
    }

    /// A parser of rules over `tags`.
    pub fn new(tags: Vec<Tag>) -> (parser: Self)
        ensures
            parser.tags() == tags@,
    {
        let folded = fold_tags(&tags);
        RuleParser { m_mapped_tags: tags, m_folded: folded }
    }

    /// Validates a rule line against the declared tags.
    pub fn validate_rule(&self, rule: &str) -> (r: Result<(), RulesError>)
        ensures
            renders_in(r, validation(self.registry(), rule@), rule@),
    {
        if line_blank_or_comment(rule) {
            return Ok(());
        }
        let text = match normalise(rule) {
            Ok(text) => text,
            Err(e) => {
                return Err(Self::add_error_context(e, rule));
            },
        };
        let tokens = match Self::tokenise_rule(&text) {
            Ok(tokens) => tokens,
            Err(e) => {
                return Err(Self::add_error_context(e, rule));
            },
        };
        let mapped_tokens = Self::map_rule_tokens(&tokens);
        match Self::check_rule_syntax(&mapped_tokens) {
            Ok(()) => {},
            Err(e) => {
                return Err(Self::add_error_context(e, rule));
            },
        }
        assert(token_texts(mapped_view(mapped_tokens@)) =~= texts(tokens@));
        match self.check_valid_tags(&mapped_tokens) {
            Ok(()) => Ok(()),
            Err(e) => Err(Self::add_error_context(e, rule)),
        }
    }

    /// Attaches the text of the rule to an error that has none.
    pub fn add_error_context(error: RulesError, rule: &str) -> (e: RulesError)
        ensures
            e.fault() == error.fault(),
            e.context() == match error {
                RulesError::TagParseError(_) => None,
                RulesError::RuleParseError(_) => match error.context() {
                    Some(text) => Some(text),
                    None => Some(rule@),
                },
            },
    {
        match error {
            RulesError::TagParseError(t) => RulesError::TagParseError(t),
            RulesError::RuleParseError(inner) => {
                let RuleError { rule: attached, fault } = inner;
                match attached {
                    Some(text) => RulesError::RuleParseError(
                        RuleError { rule: Some(text), fault },
                    ),
                    None => RulesError::RuleParseError(
                        RuleError { rule: Some(rule.to_owned()), fault },
                    ),
                }
            },
        }
    }

    /// Checks every tag name and tag value among the tokens against the
    /// declared tags, in lower case.
    pub fn check_valid_tags(&self, tokens: &MappedRuleTokens) -> (r: Result<(), RulesError>)
        ensures
            renders(
                r,
                tags_check(
                    self.registry(),
                    mapped_view(tokens@),
                    lowered(token_texts(mapped_view(tokens@))),
                ),
            ),
    {
        proof {
            use_type_invariant(self);
            lemma_folded_registry(self.m_folded@, self.m_mapped_tags@);
        }
        let mut keys: Vec<String> = Vec::new();
        let mut i: usize = 0;
        while i < tokens.len()
            invariant
                i <= tokens.len(),
                keys@.len() == i,
                forall|k: int| 0 <= k < i ==> (#[trigger] keys@[k])@ == lowercase(tokens@[k].0@),
            decreases tokens.len() - i,
        {
            keys.push(to_lower(tokens[i].0.as_str()));
            i = i + 1;
        }
        assert(texts(keys@) =~= lowered(token_texts(mapped_view(tokens@))));
        check_tags(&self.m_folded, tokens, &keys)
    }
}

} // verus!
