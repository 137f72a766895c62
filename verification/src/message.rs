use crate::err::{Fault, RuleError, RuleFault, RulesError, TagFault, TagFlaw};
use crate::parser::types::TokenType;
use crate::text::chars_of;
use vstd::prelude::*;
use vstd::string::*;

verus! {

/// The character of a decimal digit.
pub open spec fn digit(d: nat) -> char {
    if d == 0 {
        '0'
    } else if d == 1 {
        '1'
    } else if d == 2 {
        '2'
    } else if d == 3 {
        '3'
    } else if d == 4 {
        '4'
    } else if d == 5 {
        '5'
    } else if d == 6 {
        '6'
    } else if d == 7 {
        '7'
    } else if d == 8 {
        '8'
    } else {
        '9'
    }
}

/// A number in decimal digits.
pub open spec fn decimal(n: nat) -> Seq<char>
    decreases n,
{
    if n < 10 {
        seq![digit(n)]
    } else {
        decimal(n / 10).push(digit(n % 10))
    }
}

/// The name of a token type.
pub open spec fn kind_name(t: TokenType) -> Seq<char> {
    match t {
        TokenType::TagName => "TagName"@,
        TokenType::ComparisonOp => "ComparisonOp"@,
        TokenType::TagValue => "TagValue"@,
        TokenType::LogicalOp => "LogicalOp"@,
    }
}

impl Fault {
    /// What the fault says to a reader.
    pub open spec fn text(self) -> Seq<char> {
        match self {
            Fault::MissingDash => "Rule is missing initial dash."@,
            Fault::ExtraDashes(n) => "Rule should only contain 1 dash, found "@ + decimal(n),
            Fault::InvalidToken(t) => "Invalid token encountered: "@ + t,
            Fault::ExpectedOperator(t) => "Expected operator but got string instead: "@ + t,
            Fault::MisplacedComma => "Comma must follow a complete tag comparison"@,
            Fault::UnmatchedClosingParen => "Unmatched closing parenthesis"@,
            Fault::UnmatchedOpeningParen => "Unmatched opening parenthesis"@,
            Fault::EmptyRule => "Empty rule"@,
            Fault::BadStart(t) => "Rule must start with a tag name, found "@ + kind_name(t),
            Fault::BadSequence(a, b) => "Invalid token sequence: "@ + kind_name(a)
                + " followed by "@ + kind_name(b),
            Fault::BadEnd(t) => "Rule must end with a tag value, ended with "@ + kind_name(t),
            Fault::UnknownTagName(t) => "Rule contains invalid TagName: "@ + t,
            Fault::OrphanTagValue(t) => "TagValue '"@ + t + "' has no associated TagName"@,
            Fault::UnknownTagValue(v, t) => "Rule contains invalid TagValue: '"@ + v
                + "' is not a valid value for TagName '"@ + t + "'"@,
            Fault::MalformedLeaf(n) => "Invalid leaf node: expected 3 tokens, got "@ + decimal(n),
            Fault::BadComparisonOp(t) => "Invalid comparison operator: "@ + t,
            Fault::ExpectedLogicalOp(t) => "Expected logical operator, found: "@ + t,
            Fault::DuplicateRule => "Rule already exists in file"@,
            Fault::Tag(flaw) => flaw.text(),
        }
    }
}

/// `list` with `item` added, after `", "` where `list` is not empty.
pub open spec fn listed(list: Seq<char>, item: Seq<char>) -> Seq<char> {
    if list.len() == 0 {
        item
    } else {
        list + ", "@ + item
    }
}

/// `list` with `item` added where `present` holds.
pub open spec fn listed_if(list: Seq<char>, present: bool, item: Seq<char>) -> Seq<char> {
    if present {
        listed(list, item)
    } else {
        list
    }
}

impl TagFlaw {
    /// What the fault says to a reader. The faults of a malformed line are
    /// listed in a fixed order.
    pub open spec fn text(self) -> Seq<char> {
        match self {
            TagFlaw::NoColon => "Tag must contain a ':' separator"@,
            TagFlaw::Malformed { line, extra_colon, no_dash, name_spaces, value_spaces } => {
                "Errors parsing line: '"@ + line + "': "@ + listed_if(
                    listed_if(
                        listed_if(
                            listed_if(
                                seq![],
                                extra_colon,
                                "Tag must only contain one name and one set of values. Ensure there is only one semi-colon"@,
                            ),
                            no_dash,
                            "Tag must begin with '-'"@,
                        ),
                        name_spaces,
                        "Tag name cannot contain spaces"@,
                    ),
                    value_spaces,
                    "Tag values cannot contain spaces"@,
                )
            },
            TagFlaw::EmptyName => "Tag name cannot be empty"@,
            TagFlaw::NoValues => "Tag must have at least one value"@,
            TagFlaw::NameHasSpaces => "Tag name cannot contain spaces"@,
            TagFlaw::ValueHasSpaces(v) => "Tag value '"@ + v + "' cannot contain spaces"@,
        }
    }
}

/// What an error says to a reader: the text of the fault, after the rule in
/// quotes where one is attached.
pub open spec fn error_text(context: Option<Seq<char>>, fault: Fault) -> Seq<char> {
    match context {
        Some(rule) => "'"@ + rule + "': "@ + fault.text(),
        None => fault.text(),
    }
}

/// The text of a decimal digit.
fn digit_text(d: usize) -> (r: &'static str)
    requires
        d < 10,
    ensures
        r@ == seq![digit(d as nat)],
{
    proof {
        reveal_strlit("0");
        reveal_strlit("1");
        reveal_strlit("2");
        reveal_strlit("3");
        reveal_strlit("4");
        reveal_strlit("5");
        reveal_strlit("6");
        reveal_strlit("7");
        reveal_strlit("8");
        reveal_strlit("9");
    }
    let r: &'static str = if d == 0 {
        "0"
    } else if d == 1 {
        "1"
    } else if d == 2 {
        "2"
    } else if d == 3 {
        "3"
    } else if d == 4 {
        "4"
    } else if d == 5 {
        "5"
    } else if d == 6 {
        "6"
    } else if d == 7 {
        "7"
    } else if d == 8 {
        "8"
    } else {
        "9"
    };
    assert(r@ =~= seq![digit(d as nat)]);
    r
}

/// A number written in decimal digits.
pub fn decimal_text(n: usize) -> (r: String)
    ensures
        r@ == decimal(n as nat),
    decreases n,
{
    if n < 10 {
        digit_text(n).to_owned()
    } else {
        let mut r = decimal_text(n / 10);
        let d = digit_text(n % 10);
        r.append(d);
        assert(r@ =~= decimal(n as nat));
        r
    }
}

/// The name of a token type.
fn type_text(t: TokenType) -> (r: &'static str)
    ensures
        r@ == kind_name(t),
{
    match t {
        TokenType::TagName => "TagName",
        TokenType::ComparisonOp => "ComparisonOp",
        TokenType::TagValue => "TagValue",
        TokenType::LogicalOp => "LogicalOp",
    }
}

/// `head` followed by `tail`.
fn glue(head: &str, tail: &str) -> (r: String)
    ensures
        r@ == head@ + tail@,
{
    let mut r = head.to_owned();
    r.append(tail);
    r
}

impl RuleFault {
    /// What the fault says to a reader.
    pub fn message(&self) -> (r: String)
        ensures
            r@ == self@.text(),
    {
        match self {
            RuleFault::MissingDash => "Rule is missing initial dash.".to_owned(),
            RuleFault::ExtraDashes(n) => glue(
                "Rule should only contain 1 dash, found ",
                decimal_text(*n).as_str(),
            ),
            RuleFault::InvalidToken(t) => glue("Invalid token encountered: ", t.as_str()),
            RuleFault::ExpectedOperator(t) => glue(
                "Expected operator but got string instead: ",
                t.as_str(),
            ),
            RuleFault::MisplacedComma => "Comma must follow a complete tag comparison".to_owned(),
            RuleFault::UnmatchedClosingParen => "Unmatched closing parenthesis".to_owned(),
            RuleFault::UnmatchedOpeningParen => "Unmatched opening parenthesis".to_owned(),
            RuleFault::EmptyRule => "Empty rule".to_owned(),
            RuleFault::BadStart(t) => glue("Rule must start with a tag name, found ", type_text(*t)),
            RuleFault::BadSequence(a, b) => {
                let mut r = glue("Invalid token sequence: ", type_text(*a));
                r.append(" followed by ");
                r.append(type_text(*b));
                r
            },
            RuleFault::BadEnd(t) => glue(
                "Rule must end with a tag value, ended with ",
                type_text(*t),
            ),
            RuleFault::UnknownTagName(t) => glue("Rule contains invalid TagName: ", t.as_str()),
            RuleFault::OrphanTagValue(t) => {
                let mut r = glue("TagValue '", t.as_str());
                r.append("' has no associated TagName");
                r
            },
            RuleFault::UnknownTagValue(v, t) => {
                let mut r = glue("Rule contains invalid TagValue: '", v.as_str());
                r.append("' is not a valid value for TagName '");
                r.append(t.as_str());
                r.append("'");
                r
            },
            RuleFault::MalformedLeaf(n) => glue(
                "Invalid leaf node: expected 3 tokens, got ",
                decimal_text(*n).as_str(),
            ),
            RuleFault::BadComparisonOp(t) => glue("Invalid comparison operator: ", t.as_str()),
            RuleFault::ExpectedLogicalOp(t) => glue("Expected logical operator, found: ", t.as_str()),
            RuleFault::DuplicateRule => "Rule already exists in file".to_owned(),
        }
    }
}

/// Adds `item` to `list` where `present` holds.
fn list_if(list: &mut String, present: bool, item: &str)
    ensures
        final(list)@ == listed_if(old(list)@, present, item@),
{
    if present {
        if list.as_str().unicode_len() > 0 {
            list.append(", ");
        }
        list.append(item);
    }
}

impl TagFault {
    /// What the fault says to a reader.
    pub fn message(&self) -> (r: String)
        ensures
            r@ == self@.text(),
    {
        match self {
            TagFault::NoColon => "Tag must contain a ':' separator".to_owned(),
            TagFault::Malformed { line, extra_colon, no_dash, name_spaces, value_spaces } => {
                let mut list = String::new();
                list_if(
                    &mut list,
                    *extra_colon,
                    "Tag must only contain one name and one set of values. Ensure there is only one semi-colon",
                );
                list_if(&mut list, *no_dash, "Tag must begin with '-'");
                list_if(&mut list, *name_spaces, "Tag name cannot contain spaces");
                list_if(&mut list, *value_spaces, "Tag values cannot contain spaces");
                let mut r = glue("Errors parsing line: '", line.as_str());
                r.append("': ");
                r.append(list.as_str());
                r
            },
            TagFault::EmptyName => "Tag name cannot be empty".to_owned(),
            TagFault::NoValues => "Tag must have at least one value".to_owned(),
            TagFault::NameHasSpaces => "Tag name cannot contain spaces".to_owned(),
            TagFault::ValueHasSpaces(v) => {
                let mut r = glue("Tag value '", v.as_str());
                r.append("' cannot contain spaces");
                r
            },
        }
    }

    /// Whether the message holds `part`.
    pub fn contains(&self, part: &str) -> (b: bool)
        ensures
            b == holds_part(self@.text(), part@),
    {
        let text = self.message();
        find_part(text.as_str(), part)
    }
}

impl RuleError {
    /// What the error says to a reader: the text of the fault, after the
    /// rule in quotes where one is attached.
    pub fn message(&self) -> (r: String)
        ensures
            r@ == error_text(
                match self.rule {
                    Some(text) => Some(text@),
                    None => None,
                },
                self.fault@,
            ),
    {
        let text = self.fault.message();
        match &self.rule {
            Some(rule) => {
                let mut r = glue("'", rule.as_str());
                r.append("': ");
                r.append(text.as_str());
                r
            },
            None => text,
        }
    }

    /// Whether the message holds `part`.
    pub fn contains(&self, part: &str) -> (b: bool)
        ensures
            b == holds_part(self.message_text(), part@),
    {
        let text = self.message();
        find_part(text.as_str(), part)
    }

    /// The message, as a mathematical value.
    pub open spec fn message_text(self) -> Seq<char> {
        error_text(
            match self.rule {
                Some(text) => Some(text@),
                None => None,
            },
            self.fault@,
        )
    }
}

impl RulesError {
    /// What the error says to a reader.
    pub fn message(&self) -> (r: String)
        ensures
            r@ == error_text(self.context(), self.fault()),
    {
        match self {
            RulesError::TagParseError(t) => t.message(),
            RulesError::RuleParseError(e) => e.message(),
        }
    }
}

/// Whether `part` occurs in `text` as a run of characters.
pub open spec fn holds_part(text: Seq<char>, part: Seq<char>) -> bool {
    exists|i: int|
        0 <= i <= text.len() - part.len() && #[trigger] text.subrange(i, i + part.len()) == part
}

/// Whether `part` occurs in `text`.
pub fn find_part(text: &str, part: &str) -> (b: bool)
    ensures
        b == holds_part(text@, part@),
{
    let t = chars_of(text);
    let p = chars_of(part);
    if p.len() > t.len() {
        return false;
    }
    let mut i: usize = 0;
    while i <= t.len() - p.len()
        invariant
            t@ == text@,
            p@ == part@,
            p.len() <= t.len(),
            i <= t.len() - p.len() + 1,
            forall|k: int| 0 <= k < i ==> #[trigger] t@.subrange(k, k + p.len()) != p@,
        decreases t.len() - p.len() + 1 - i,
    {
        let mut j: usize = 0;
        while j < p.len() && t[i + j] == p[j]
            invariant
                p.len() <= t.len(),
                i <= t.len() - p.len(),
                j <= p.len(),
                forall|k: int| 0 <= k < j ==> t@[i + k] == p@[k],
            decreases p.len() - j,
        {
            j = j + 1;
        }
        if j == p.len() {
            assert(t@.subrange(i as int, i + p.len()) =~= p@);
            return true;
        }
        assert(t@.subrange(i as int, i + p.len())[j as int] != p@[j as int]);
        i = i + 1;
    }
    false
}

} // verus!
