use crate::parser::types::TokenType;
use vstd::prelude::*;

verus! {

/// What is wrong with the declaration of a tag, as a mathematical value:
/// the view of a [`TagFault`].
pub enum TagFlaw {
    NoColon,
    Malformed { line: Seq<char>, extra_colon: bool, no_dash: bool, name_spaces: bool, value_spaces: bool },
    EmptyName,
    NoValues,
    NameHasSpaces,
    ValueHasSpaces(Seq<char>),
}

/// What is wrong with the declaration of a tag.
#[derive(Debug, Clone)]
pub enum TagFault {
    /// The line has no `:` between name and values.
    NoColon,
    /// The line has one or more of four faults: a second `:`, a name that
    /// does not begin with `-`, a name of several words, a value of several
    /// words.
    Malformed { line: String, extra_colon: bool, no_dash: bool, name_spaces: bool, value_spaces: bool },
    /// The name of a tag to write is empty or white space.
    EmptyName,
    /// A tag to write has no value.
    NoValues,
    /// The name of a tag to write holds a space.
    NameHasSpaces,
    /// This value of a tag to write holds a space.
    ValueHasSpaces(String),
}

impl View for TagFault {
    type V = TagFlaw;

    open spec fn view(&self) -> TagFlaw {
        match *self {
            TagFault::NoColon => TagFlaw::NoColon,
            TagFault::Malformed { line, extra_colon, no_dash, name_spaces, value_spaces } => {
                TagFlaw::Malformed { line: line@, extra_colon, no_dash, name_spaces, value_spaces }
            },
            TagFault::EmptyName => TagFlaw::EmptyName,
            TagFault::NoValues => TagFlaw::NoValues,
            TagFault::NameHasSpaces => TagFlaw::NameHasSpaces,
            TagFault::ValueHasSpaces(v) => TagFlaw::ValueHasSpaces(v@),
        }
    }
}

/// What is wrong with a rule, as a mathematical value: the view of a
/// [`RuleFault`]. The last variant is the fault of a tag declaration, which
/// no rule has.
pub enum Fault {
    MissingDash,
    ExtraDashes(nat),
    InvalidToken(Seq<char>),
    ExpectedOperator(Seq<char>),
    MisplacedComma,
    UnmatchedClosingParen,
    UnmatchedOpeningParen,
    EmptyRule,
    BadStart(TokenType),
    BadSequence(TokenType, TokenType),
    BadEnd(TokenType),
    UnknownTagName(Seq<char>),
    OrphanTagValue(Seq<char>),
    UnknownTagValue(Seq<char>, Seq<char>),
    MalformedLeaf(nat),
    BadComparisonOp(Seq<char>),
    ExpectedLogicalOp(Seq<char>),
    DuplicateRule,
    Tag(TagFlaw),
}

/// What is wrong with a rule.
///
/// The first seven variants are format errors, the next four syntax errors,
/// the next three semantic errors; then come three faults of the tree
/// builder, and the fault of a rule that is written to a file twice.
#[derive(Debug, Clone)]
pub enum RuleFault {
    /// The line does not begin with `-`.
    MissingDash,
    /// The line holds this many dashes, more than one.
    ExtraDashes(usize),
    /// A one-character token that is no operator stands where one is needed.
    InvalidToken(String),
    /// A longer token stands where an operator is needed.
    ExpectedOperator(String),
    /// A comma that does not directly follow the value of a complete comparison.
    MisplacedComma,
    UnmatchedClosingParen,
    UnmatchedOpeningParen,
    /// No token but parentheses.
    EmptyRule,
    /// The first token is of this type, not a tag name.
    BadStart(TokenType),
    /// A token of the first type is followed by one of the second.
    BadSequence(TokenType, TokenType),
    /// The last token is of this type, not a tag value.
    BadEnd(TokenType),
    /// The case-folded tag name is not declared.
    UnknownTagName(String),
    /// The case-folded value has no tag name before it.
    OrphanTagValue(String),
    /// The case-folded value is not declared for the case-folded tag name.
    UnknownTagValue(String, String),
    /// A comparison made of this many tokens, not of three.
    MalformedLeaf(usize),
    /// The middle token of a comparison is neither `=` nor `!`.
    BadComparisonOp(String),
    /// The token at which an expression is split is neither `&` nor `|`.
    ExpectedLogicalOp(String),
    /// The rule stands in the file already.
    DuplicateRule,
}

impl View for RuleFault {
    type V = Fault;

    open spec fn view(&self) -> Fault {
        match *self {
            RuleFault::MissingDash => Fault::MissingDash,
            RuleFault::ExtraDashes(n) => Fault::ExtraDashes(n as nat),
            RuleFault::InvalidToken(t) => Fault::InvalidToken(t@),
            RuleFault::ExpectedOperator(t) => Fault::ExpectedOperator(t@),
            RuleFault::MisplacedComma => Fault::MisplacedComma,
            RuleFault::UnmatchedClosingParen => Fault::UnmatchedClosingParen,
            RuleFault::UnmatchedOpeningParen => Fault::UnmatchedOpeningParen,
            RuleFault::EmptyRule => Fault::EmptyRule,
            RuleFault::BadStart(t) => Fault::BadStart(t),
            RuleFault::BadSequence(a, b) => Fault::BadSequence(a, b),
            RuleFault::BadEnd(t) => Fault::BadEnd(t),
            RuleFault::UnknownTagName(t) => Fault::UnknownTagName(t@),
            RuleFault::OrphanTagValue(t) => Fault::OrphanTagValue(t@),
            RuleFault::UnknownTagValue(v, t) => Fault::UnknownTagValue(v@, t@),
            RuleFault::MalformedLeaf(n) => Fault::MalformedLeaf(n as nat),
            RuleFault::BadComparisonOp(t) => Fault::BadComparisonOp(t@),
            RuleFault::ExpectedLogicalOp(t) => Fault::ExpectedLogicalOp(t@),
            RuleFault::DuplicateRule => Fault::DuplicateRule,
        }
    }
}

/// A fault of a rule, with the text of the rule once it is known.
#[derive(Debug, Clone)]
pub struct RuleError {
    pub rule: Option<String>,
    pub fault: RuleFault,
}

/// The errors of the library.
#[derive(Debug, Clone)]
pub enum RulesError {
    /// The declaration of a tag is at fault.
    TagParseError(TagFault),
    /// A rule is at fault.
    RuleParseError(RuleError),
}

impl RulesError {
    /// The fault that a result carries, where it is an error.
    pub open spec fn fault(self) -> Fault {
        match self {
            RulesError::TagParseError(t) => Fault::Tag(t@),
            RulesError::RuleParseError(e) => e.fault@,
        }
    }

    /// Whether this is the error of a rule for `fault`, with no rule text
    /// attached.
    pub open spec fn is_bare(self, fault: Fault) -> bool {
        self is RuleParseError && self.fault() == fault && self.context() is None
    }

    /// Whether this is the error of the rule `line` for `fault`.
    pub open spec fn is_in(self, fault: Fault, line: Seq<char>) -> bool {
        self is RuleParseError && self.fault() == fault && self.context() == Some(line)
    }

    /// The text of the rule that the error was found in, where it is attached.
    pub open spec fn context(self) -> Option<Seq<char>> {
        match self {
            RulesError::TagParseError(_) => None,
            RulesError::RuleParseError(e) => match e.rule {
                Some(r) => Some(r@),
                None => None,
            },
        }
    }

    /// An error for the fault of a tag declaration.
    pub fn tag(fault: TagFault) -> (e: RulesError)
        ensures
            e.fault() == Fault::Tag(fault@),
            e.context() is None,
    {
        RulesError::TagParseError(fault)
    }

    /// An error for `fault`, with no rule text attached.
    pub fn bare(fault: RuleFault) -> (e: RulesError)
        ensures
            e.is_bare(fault@),
    {
        RulesError::RuleParseError(RuleError { rule: None, fault })
    }
}

/// Whether `r` is the exec form of `s`: the same value, or an error with the
/// same fault and no rule text.
pub open spec fn renders<T>(r: Result<T, RulesError>, s: Result<T, Fault>) -> bool {
    match s {
        Ok(v) => r == Ok::<T, RulesError>(v),
        Err(f) => r is Err && r->Err_0.is_bare(f),
    }
}

/// Whether `r` is the exec form of the token sequence or fault `s`.
pub open spec fn renders_tokens(r: Result<Vec<String>, RulesError>, s: Result<
    Seq<Seq<char>>,
    Fault,
>) -> bool {
    match s {
        Ok(t) => r is Ok && crate::text::texts(r->Ok_0@) == t,
        Err(f) => r is Err && r->Err_0.is_bare(f),
    }
}

/// Whether `r` is the exec form of the verdict `s` on the rule `line`: an
/// error carries the fault and the text of the line.
pub open spec fn renders_in<T>(r: Result<T, RulesError>, s: Result<T, Fault>, line: Seq<
    char,
>) -> bool {
    match s {
        Ok(v) => r == Ok::<T, RulesError>(v),
        Err(f) => r is Err && r->Err_0.is_in(f, line),
    }
}

} // verus!
