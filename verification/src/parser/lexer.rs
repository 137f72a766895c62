use crate::err::{renders, renders_tokens, Fault, RuleFault, RulesError};
use crate::parser::lex_laws::lemma_lex_sound;
use crate::parser::rules::RuleParser;
use crate::parser::syntax::well_typed;
use crate::parser::types::{TokenDepth, TokenType};
use crate::text::{chars_of, is_op_char, is_space, op_char, piece, space_char, texts};
use vstd::prelude::*;
use vstd::string::*;

verus! {

/// Whether a token is one character of one byte: the shape of an operator.
pub open spec fn is_single(t: Seq<char>) -> bool {
    t.len() == 1 && (t[0] as u32) < 0x80
}

/// The type expected after the one-character token `c`.
pub open spec fn after_single(c: char) -> Result<TokenType, Fault> {
    if c == '(' || c == '&' || c == '|' {
        Ok(TokenType::TagName)
    } else if c == ')' {
        Ok(TokenType::LogicalOp)
    } else if c == '=' || c == '!' || c == ',' {
        Ok(TokenType::TagValue)
    } else {
        Err(Fault::InvalidToken(seq![c]))
    }
}

/// The type expected after a word that follows the token `before`.
pub open spec fn after_word(before: Seq<char>) -> Result<TokenType, Fault> {
    if !is_single(before) {
        Err(Fault::ExpectedOperator(before))
    } else {
        let c = before[0];
        if c == '(' || c == '&' || c == '|' {
            Ok(TokenType::ComparisonOp)
        } else if c == ')' {
            Ok(TokenType::TagName)
        } else if c == '=' || c == '!' || c == ',' {
            Ok(TokenType::LogicalOp)
        } else {
            Err(Fault::InvalidToken(before))
        }
    }
}

/// The type that the token after `tokens` is expected to have. It goes by the
/// last token, and where that is a word, by the token before it.
pub open spec fn expected_type(tokens: Seq<Seq<char>>) -> Result<TokenType, Fault> {
    if tokens.len() == 0 {
        Ok(TokenType::TagName)
    } else if is_single(tokens.last()) {
        after_single(tokens.last()[0])
    } else if tokens.len() < 2 {
        Ok(TokenType::ComparisonOp)
    } else {
        after_word(tokens[tokens.len() - 2])
    }
}

/// The lexer between two characters.
pub struct LexState {
    /// The tokens completed so far.
    pub tokens: Seq<Seq<char>>,
    /// The characters of the word being read.
    pub word: Seq<char>,
    /// How many parentheses are open.
    pub depth: int,
    /// The last word that stood where a tag name was expected.
    pub tag_name: Option<Seq<char>>,
    /// The last `=` or `!` that stood where a comparison was expected.
    pub comparison: Option<Seq<char>>,
}

/// The lexer before the first character.
pub open spec fn lex_start() -> LexState {
    LexState { tokens: seq![], word: seq![], depth: 0, tag_name: None, comparison: None }
}

/// Ends the word being read, if there is one, and makes it a token.
pub open spec fn lex_flush(st: LexState) -> Result<LexState, Fault> {
    if st.word.len() == 0 {
        Ok(st)
    } else {
        match expected_type(st.tokens) {
            Err(f) => Err(f),
            Ok(t) => Ok(
                LexState {
                    tokens: st.tokens.push(st.word),
                    word: seq![],
                    tag_name: if t == TokenType::TagName {
                        Some(st.word)
                    } else {
                        st.tag_name
                    },
                    ..st
                },
            ),
        }
    }
}

/// Whether a comma may follow `st`: the last token is the value of a
/// comparison whose tag name and operator are remembered.
pub open spec fn comma_allowed(st: LexState) -> bool {
    &&& st.tokens.len() > 0
    &&& !is_single(st.tokens.last())
    &&& expected_type(st.tokens) == Ok::<TokenType, Fault>(TokenType::LogicalOp)
    &&& st.tag_name is Some
    &&& st.comparison is Some
}

/// Reads the operator character `c` in a state with no word open.
pub open spec fn lex_operator(st: LexState, c: char) -> Result<LexState, Fault> {
    if c == ',' {
        if comma_allowed(st) {
            Ok(
                LexState {
                    tokens: st.tokens.push(seq!['|']).push(st.tag_name->0).push(st.comparison->0),
                    ..st
                },
            )
        } else {
            Err(Fault::MisplacedComma)
        }
    } else {
        match expected_type(st.tokens) {
            Err(f) => Err(f),
            Ok(t) => if c == ')' && st.depth <= 0 {
                Err(Fault::UnmatchedClosingParen)
            } else {
                Ok(
                    LexState {
                        tokens: st.tokens.push(seq![c]),
                        depth: if c == '(' {
                            st.depth + 1
                        } else if c == ')' {
                            st.depth - 1
                        } else {
                            st.depth
                        },
                        comparison: if t == TokenType::ComparisonOp && (c == '=' || c == '!') {
                            Some(seq![c])
                        } else {
                            st.comparison
                        },
                        ..st
                    },
                )
            },
        }
    }
}

/// Reads one character.
pub open spec fn lex_step(st: LexState, c: char) -> Result<LexState, Fault> {
    if is_op_char(c) {
        match lex_flush(st) {
            Err(f) => Err(f),
            Ok(st1) => lex_operator(st1, c),
        }
    } else if is_space(c) {
        lex_flush(st)
    } else {
        Ok(LexState { word: st.word.push(c), ..st })
    }
}

/// The lexer after the first `n` characters of `s`.
pub open spec fn lex_prefix(s: Seq<char>, n: nat) -> Result<LexState, Fault>
    decreases n,
{
    if n == 0 {
        Ok(lex_start())
    } else {
        match lex_prefix(s, (n - 1) as nat) {
            Err(f) => Err(f),
            Ok(st) => lex_step(st, s[n - 1]),
        }
    }
}

/// The tokens of the rule text `s`, which has lost its leading dash: words
/// and operator characters in order, each comma replaced by `|`, the tag name
/// and the operator of the comparison before it.
pub open spec fn lex(s: Seq<char>) -> Result<Seq<Seq<char>>, Fault> {
    match lex_prefix(s, s.len()) {
        Err(f) => Err(f),
        Ok(st) => match lex_flush(st) {
            Err(f) => Err(f),
            Ok(end) => if end.depth != 0 {
                Err(Fault::UnmatchedOpeningParen)
            } else {
                Ok(end.tokens)
            },
        },
    }
}

/// Once the lexer has failed it stays failed.
pub proof fn lemma_lex_prefix_err(s: Seq<char>, k: nat, m: nat)
    requires
        k <= m,
        lex_prefix(s, k) is Err,
    ensures
        lex_prefix(s, m) == lex_prefix(s, k),
    decreases m,
{
    if k < m {
        lemma_lex_prefix_err(s, k, (m - 1) as nat);
    }
}

/// The view of a string that may be absent.
pub open spec fn opt_text(o: Option<String>) -> Option<Seq<char>> {
    match o {
        Some(s) => Some(s@),
        None => None,
    }
}

/// The operator character `c` as a token.
fn symbol(c: char) -> (r: String)
    requires
        is_op_char(c),
    ensures
        r@ == seq![c],
{
    proof {
        reveal_strlit("(");
        reveal_strlit(")");
        reveal_strlit("=");
        reveal_strlit("!");
        reveal_strlit("&");
        reveal_strlit("|");
        reveal_strlit(",");
    }
    let t: &str = if c == '(' {
        "("
    } else if c == ')' {
        ")"
    } else if c == '=' {
        "="
    } else if c == '!' {
        "!"
    } else if c == '&' {
        "&"
    } else if c == '|' {
        "|"
    } else {
        ","
    };
    assert(t@ =~= seq![c]);
    t.to_owned()
}

/// What the lexer holds between two characters, but for the open word, which
/// is a range of the text.
struct Lexer {
    tokens: Vec<String>,
    depth: usize,
    tag_name: Option<String>,
    comparison: Option<String>,
}

impl Lexer {
    /// The state of the lexer, with `word` open.
    spec fn state(&self, word: Seq<char>) -> LexState {
        LexState {
            tokens: texts(self.tokens@),
            word,
            depth: self.depth as int,
            tag_name: opt_text(self.tag_name),
            comparison: opt_text(self.comparison),
        }
    }

    /// Ends the open word, the characters `start..end` of `rule`.
    fn flush(&mut self, rule: &str, start: usize, end: usize) -> (r: Result<(), RulesError>)
        requires
            start <= end <= rule@.len(),
        ensures
            match lex_flush(old(self).state(rule@.subrange(start as int, end as int))) {
                Ok(st) => r is Ok && final(self).state(seq![]) == st,
                Err(f) => r is Err && r->Err_0.is_bare(f),
            },
            final(self).depth == old(self).depth,
    {
        let ghost word = rule@.subrange(start as int, end as int);
        if start == end {
            assert(word =~= seq![]);
            return Ok(());
        }
        let expected = match Self::expected(&self.tokens) {
            Ok(t) => t,
            Err(e) => {
                return Err(e);
            },
        };
        let token = piece(rule, start, end);
        let ghost before = self.tokens@;
        self.tokens.push(token.clone());
        assert(texts(self.tokens@) =~= texts(before).push(word));
        if expected == TokenType::TagName {
            self.tag_name = Some(token);
        }
        Ok(())
    }

    /// The type expected after `tokens`.
    fn expected(tokens: &Vec<String>) -> (r: Result<TokenType, RulesError>)
        ensures
            renders(r, expected_type(texts(tokens@))),
    {
        RuleParser::get_expected_token_type(tokens, 0)
    }

    /// Reads the operator character `c`, with no word open.
    fn operator(&mut self, c: char) -> (r: Result<(), RulesError>)
        requires
            is_op_char(c),
            old(self).depth < usize::MAX,
        ensures
            match lex_operator(old(self).state(seq![]), c) {
                Ok(st) => r is Ok && final(self).state(seq![]) == st,
                Err(f) => r is Err && r->Err_0.is_bare(f),
            },
            final(self).depth <= old(self).depth + 1,
    {
        let ghost before = self.tokens@;
        if c == ',' {
            let n = self.tokens.len();
            let after_value = n > 0 && !single(self.tokens[n - 1].as_str()) && match Self::expected(
                &self.tokens,
            ) {
                Ok(t) => t == TokenType::LogicalOp,
                Err(_) => false,
            };
            assert(n > 0 ==> texts(before).last() == before[n - 1]@);
            if !after_value {
                return Err(RulesError::bare(RuleFault::MisplacedComma));
            }
            let name = match &self.tag_name {
                Some(t) => t.clone(),
                None => {
                    return Err(RulesError::bare(RuleFault::MisplacedComma));
                },
            };
            let op = match &self.comparison {
                Some(t) => t.clone(),
                None => {
                    return Err(RulesError::bare(RuleFault::MisplacedComma));
                },
            };
            self.tokens.push(symbol('|'));
            self.tokens.push(name);
            self.tokens.push(op);
            assert(texts(self.tokens@) =~= texts(before).push(seq!['|']).push(
                opt_text(self.tag_name)->0,
            ).push(opt_text(self.comparison)->0));
            return Ok(());
        }
        let expected = match Self::expected(&self.tokens) {
            Ok(t) => t,
            Err(e) => {
                return Err(e);
            },
        };
        if c == ')' && self.depth == 0 {
            return Err(RulesError::bare(RuleFault::UnmatchedClosingParen));
        }
        let token = symbol(c);
        self.tokens.push(token.clone());
        assert(texts(self.tokens@) =~= texts(before).push(seq![c]));
        if expected == TokenType::ComparisonOp && (c == '=' || c == '!') {
            self.comparison = Some(token);
        }
        if c == '(' {
            self.depth = self.depth + 1;
        } else if c == ')' {
            self.depth = self.depth - 1;
        }
        Ok(())
    }
}

/// Whether `s` has the shape of an operator.
pub fn single(s: &str) -> (b: bool)
    ensures
        b == is_single(s@),
{
    if s.unicode_len() == 1 {
        let c = s.get_char(0);
        (c as u32) < 0x80
    } else {
        false
    }
}

impl RuleParser {
    /// The type that the next token is expected to have, after `parsed_tokens`.
    pub fn get_expected_token_type(parsed_tokens: &Vec<String>, paren_depth: TokenDepth) -> (r: Result<
        TokenType,
        RulesError,
    >)
        ensures
            renders(r, expected_type(texts(parsed_tokens@))),
    {
        let n = parsed_tokens.len();
        if n == 0 {
            return Ok(TokenType::TagName);
        }
        let last: &String = &parsed_tokens[n - 1];
        assert(texts(parsed_tokens@).last() == last@);
        if single(last.as_str()) {
            let c = last.as_str().get_char(0);
            if c == '(' || c == '&' || c == '|' {
                Ok(TokenType::TagName)
            } else if c == ')' {
                Ok(TokenType::LogicalOp)
            } else if c == '=' || c == '!' || c == ',' {
                Ok(TokenType::TagValue)
            } else {
                assert(last@ =~= seq![c]);
                Err(RulesError::bare(RuleFault::InvalidToken(last.clone())))
            }
        } else if n < 2 {
            Ok(TokenType::ComparisonOp)
        } else {
            let before: &String = &parsed_tokens[n - 2];
            assert(texts(parsed_tokens@)[n - 2] == before@);
            if !single(before.as_str()) {
                return Err(RulesError::bare(RuleFault::ExpectedOperator(before.clone())));
            }
            let c = before.as_str().get_char(0);
            if c == '(' || c == '&' || c == '|' {
                Ok(TokenType::ComparisonOp)
            } else if c == ')' {
                Ok(TokenType::TagName)
            } else if c == '=' || c == '!' || c == ',' {
                Ok(TokenType::LogicalOp)
            } else {
                Err(RulesError::bare(RuleFault::InvalidToken(before.clone())))
            }
        }
    }
    /// Splits a rule, which has lost its leading dash, into its tokens.
    pub fn tokenise_rule(rule: &String) -> (r: Result<Vec<String>, RulesError>)
        ensures
            renders_tokens(r, lex(rule@)),
            r is Ok ==> well_typed(texts(r->Ok_0@)),
    {
        proof {
            if lex(rule@) is Ok {
                lemma_lex_sound(rule@);
            }
        }
        let text = rule.as_str();
        let cs = chars_of(text);
        let n = cs.len();
        let mut lexer = Lexer { tokens: Vec::new(), depth: 0, tag_name: None, comparison: None };
        let mut start: usize = 0;
        let mut i: usize = 0;
        assert(lexer.state(text@.subrange(0, 0)) =~= lex_start()) by {
            assert(texts(lexer.tokens@) =~= seq![]);
            assert(text@.subrange(0, 0) =~= seq![]);
        }
        while i < n
            invariant
                text@ == rule@,
                cs@ == rule@,
                n == cs.len(),
                start <= i <= n,
                lex_prefix(rule@, i as nat) == Ok::<LexState, Fault>(
                    lexer.state(rule@.subrange(start as int, i as int)),
                ),
                lexer.depth <= i,
            decreases n - i,
        {
            let c = cs[i];
            let ghost st = lexer.state(rule@.subrange(start as int, i as int));
            assert(lex_prefix(rule@, (i + 1) as nat) == lex_step(st, c));
            if op_char(c) || space_char(c) {
                match lexer.flush(text, start, i) {
                    Ok(()) => {},
                    Err(e) => {
                        proof {
                            lemma_lex_prefix_err(rule@, (i + 1) as nat, n as nat);
                        }
                        return Err(e);
                    },
                }
                if op_char(c) {
                    match lexer.operator(c) {
                        Ok(()) => {},
                        Err(e) => {
                            proof {
                                lemma_lex_prefix_err(rule@, (i + 1) as nat, n as nat);
                            }
                            return Err(e);
                        },
                    }
                }
                start = i + 1;
                assert(rule@.subrange(start as int, i + 1) =~= seq![]);
            } else {
                assert(rule@.subrange(start as int, i + 1) =~= rule@.subrange(
                    start as int,
                    i as int,
                ).push(c));
            }
            i = i + 1;
        }
        match lexer.flush(text, start, n) {
            Ok(()) => {},
            Err(e) => {
                return Err(e);
            },
        }
        if lexer.depth != 0 {
            return Err(RulesError::bare(RuleFault::UnmatchedOpeningParen));
        }
        Ok(lexer.tokens)
    }
}

} // verus!
