use crate::err::{renders, Fault, RuleFault, RulesError};
use crate::parser::lexer::expected_type;
use crate::parser::rules::RuleParser;
use crate::parser::types::{MappedRuleTokens, TokenDepth, TokenType};
use crate::text::{is_sym, texts};
use vstd::prelude::*;

verus! {

/// A token with its type and its parenthesis depth, as a mathematical value.
pub type Mapped = (Seq<char>, TokenType, int);

/// Typed tokens as mathematical values, place by place.
pub open spec fn mapped_view(v: Seq<(String, TokenType, TokenDepth)>) -> Seq<Mapped> {
    Seq::new(v.len(), |i: int| (v[i].0@, v[i].1, v[i].2 as int))
}

/// Whether a token is a parenthesis.
pub open spec fn is_paren(t: Seq<char>) -> bool {
    t == seq!['('] || t == seq![')']
}

/// How many parentheses are open before token `i`: those opened less those
/// closed. It is negative where more were closed.
pub open spec fn depth_before(tokens: Seq<Seq<char>>, i: int) -> int
    decreases i,
{
    if i <= 0 {
        0
    } else {
        depth_before(tokens, i - 1) + if tokens[i - 1] == seq!['('] {
            1int
        } else if tokens[i - 1] == seq![')'] {
            -1int
        } else {
            0int
        }
    }
}

/// Whether every token has an expected type, given the tokens before it.
pub open spec fn well_typed(tokens: Seq<Seq<char>>) -> bool {
    forall|i: int| 0 <= i < tokens.len() ==> (#[trigger] expected_type(tokens.take(i))) is Ok
}

/// Each token with the type expected at its place and the depth before it.
pub open spec fn mapped(tokens: Seq<Seq<char>>) -> Seq<Mapped> {
    Seq::new(
        tokens.len(),
        |i: int| (tokens[i], expected_type(tokens.take(i))->Ok_0, depth_before(tokens, i)),
    )
}

/// The depth before a token is at most the number of tokens before it,
/// above or below zero.
pub proof fn lemma_depth_bound(tokens: Seq<Seq<char>>, i: int)
    requires
        0 <= i,
    ensures
        -i <= depth_before(tokens, i) <= i,
    decreases i,
{
    if i > 0 {
        lemma_depth_bound(tokens, i - 1);
    }
}

/// Whether a token of type `next` may follow one of type `prev`, parentheses
/// left aside.
pub open spec fn follows(prev: TokenType, next: TokenType) -> bool {
    match (prev, next) {
        (TokenType::TagName, TokenType::ComparisonOp) => true,
        (TokenType::ComparisonOp, TokenType::TagValue) => true,
        (TokenType::TagValue, TokenType::LogicalOp) => true,
        (TokenType::LogicalOp, TokenType::TagName) => true,
        _ => false,
    }
}

/// The automaton of the syntax check reads a token of type `next`, having
/// last read one of type `prev`.
pub open spec fn syntax_step(prev: Option<TokenType>, next: TokenType) -> Result<
    Option<TokenType>,
    Fault,
> {
    match prev {
        None => if next == TokenType::TagName {
            Ok(Some(next))
        } else {
            Err(Fault::BadStart(next))
        },
        Some(p) => if follows(p, next) {
            Ok(Some(next))
        } else {
            Err(Fault::BadSequence(p, next))
        },
    }
}

/// The automaton after the first `n` tokens: the type of the last token that
/// is no parenthesis, or the first fault.
pub open spec fn syntax_scan(m: Seq<Mapped>, n: nat) -> Result<Option<TokenType>, Fault>
    decreases n,
{
    if n == 0 {
        Ok(None)
    } else {
        match syntax_scan(m, (n - 1) as nat) {
            Err(f) => Err(f),
            Ok(prev) => if is_paren(m[n - 1].0) {
                Ok(prev)
            } else {
                syntax_step(prev, m[n - 1].1)
            },
        }
    }
}

/// The verdict on the order of the token types: tag name, comparison, tag
/// value, then a logical operator and the same again, ending on a tag value.
pub open spec fn syntax_check(m: Seq<Mapped>) -> Result<(), Fault> {
    match syntax_scan(m, m.len()) {
        Err(f) => Err(f),
        Ok(None) => Err(Fault::EmptyRule),
        Ok(Some(TokenType::TagValue)) => Ok(()),
        Ok(Some(other)) => Err(Fault::BadEnd(other)),
    }
}

/// Once the automaton has failed it stays failed.
pub proof fn lemma_syntax_scan_err(m: Seq<Mapped>, k: nat, n: nat)
    requires
        k <= n,
        syntax_scan(m, k) is Err,
    ensures
        syntax_scan(m, n) == syntax_scan(m, k),
    decreases n,
{
    if k < n {
        lemma_syntax_scan_err(m, k, (n - 1) as nat);
    }
}

/// The types of the tokens among the first `n` that are no parentheses.
pub open spec fn substantive(m: Seq<Mapped>, n: nat) -> Seq<TokenType>
    decreases n,
{
    if n == 0 {
        seq![]
    } else if is_paren(m[n - 1].0) {
        substantive(m, (n - 1) as nat)
    } else {
        substantive(m, (n - 1) as nat).push(m[n - 1].1)
    }
}

/// The type that the grammar asks for at place `k` among the tokens that
/// are no parentheses.
pub open spec fn turn(k: int) -> TokenType {
    if k % 4 == 0 {
        TokenType::TagName
    } else if k % 4 == 1 {
        TokenType::ComparisonOp
    } else if k % 4 == 2 {
        TokenType::TagValue
    } else {
        TokenType::LogicalOp
    }
}

/// Whether each type is the one that the grammar asks for at its place.
pub open spec fn in_turn(types: Seq<TokenType>) -> bool {
    forall|k: int| 0 <= k < types.len() ==> #[trigger] types[k] == turn(k)
}

/// What the automaton has found after `n` tokens.
proof fn lemma_syntax_scan(m: Seq<Mapped>, n: nat)
    ensures
        match syntax_scan(m, n) {
            Ok(prev) => in_turn(substantive(m, n)) && prev == if substantive(m, n).len() == 0 {
                None
            } else {
                Some(substantive(m, n).last())
            },
            Err(_) => !in_turn(substantive(m, n)),
        },
    decreases n,
{
    if n > 0 {
        lemma_syntax_scan(m, (n - 1) as nat);
        let before = substantive(m, (n - 1) as nat);
        let now = substantive(m, n);
        if !is_paren(m[n - 1].0) {
            let next = m[n - 1].1;
            assert(now == before.push(next));
            assert(now[now.len() - 1] == next);
            match syntax_scan(m, (n - 1) as nat) {
                Ok(prev) => {
                    if before.len() > 0 {
                        assert(before[before.len() - 1] == turn(before.len() - 1));
                    }
                    if syntax_step(prev, next) is Ok {
                        assert forall|k: int| 0 <= k < now.len() implies #[trigger] now[k] == turn(
                            k,
                        ) by {
                            if k < before.len() {
                                assert(now[k] == before[k]);
                            }
                        }
                    }
                },
                Err(_) => {
                    let k = choose|k: int| 0 <= k < before.len() && #[trigger] before[k] != turn(k);
                    assert(now[k] == before[k]);
                },
            }
        }
    }
}

/// The order of the tokens is valid where, parentheses left aside, the
/// types come in turn, tag name, comparison, tag value, logical operator
/// and again, and the last is a tag value.
pub proof fn lemma_syntax_check(m: Seq<Mapped>)
    ensures
        syntax_check(m) is Ok <==> in_turn(substantive(m, m.len())) && substantive(
            m,
            m.len(),
        ).len() % 4 == 3,
{
    lemma_syntax_scan(m, m.len());
    let types = substantive(m, m.len());
    if types.len() > 0 {
        assert(in_turn(types) ==> types[types.len() - 1] == turn(types.len() - 1));
    }
}

impl RuleParser {
    /// Gives each token the type expected at its place and the parenthesis
    /// depth before it.
    pub fn map_rule_tokens(tokens: &Vec<String>) -> (r: MappedRuleTokens)
        requires
            well_typed(texts(tokens@)),
        ensures
            mapped_view(r@) == mapped(texts(tokens@)),
    {
        let ghost all = texts(tokens@);
        let mut list: MappedRuleTokens = Vec::new();
        let mut parsed: Vec<String> = Vec::new();
        let mut paren_depth: TokenDepth = 0;
        let n = tokens.len();
        let mut i: usize = 0;
        while i < n
            invariant
                all == texts(tokens@),
                well_typed(all),
                n == tokens.len(),
                i <= n,
                texts(parsed@) == all.take(i as int),
                paren_depth == depth_before(all, i as int),
                list.len() == i,
                forall|k: int| 0 <= k < i ==> (#[trigger] mapped_view(list@)[k]) == mapped(all)[k],
            decreases n - i,
        {
            let token: &String = &tokens[i];
            let expected = match Self::get_expected_token_type(&parsed, paren_depth) {
                Ok(t) => t,
                Err(_) => {
                    assert(expected_type(all.take(i as int)) is Ok);
                    unreached()
                },
            };
            let ghost before = parsed@;
            parsed.push(token.clone());
            assert(texts(parsed@) =~= all.take(i + 1)) by {
                assert(texts(parsed@) =~= texts(before).push(token@));
                assert(all.take(i + 1) =~= all.take(i as int).push(all[i as int]));
            }
            let ghost listed = list@;
            list.push((token.clone(), expected, paren_depth));
            assert forall|k: int| 0 <= k < i + 1 implies (#[trigger] mapped_view(list@)[k])
                == mapped(all)[k] by {
                if k < i {
                    assert(mapped_view(listed)[k] == mapped(all)[k]);
                }
            }
            proof {
                lemma_depth_bound(all, i + 1);
            }
            if is_sym(token.as_str(), '(') {
                paren_depth = paren_depth + 1;
            } else if is_sym(token.as_str(), ')') {
                paren_depth = paren_depth - 1;
            }
            i = i + 1;
        }
        assert(mapped_view(list@) =~= mapped(all));
        list
    }

    /// Checks that the token types, parentheses left aside, follow one
    /// another as the grammar asks.
    pub fn check_rule_syntax(tokens: &MappedRuleTokens) -> (r: Result<(), RulesError>)
        ensures
            renders(r, syntax_check(mapped_view(tokens@))),
    {
        let ghost m = mapped_view(tokens@);
        let mut prev: Option<TokenType> = None;
        let n = tokens.len();
        let mut i: usize = 0;
        while i < n
            invariant
                m == mapped_view(tokens@),
                n == tokens.len(),
                i <= n,
                syntax_scan(m, i as nat) == Ok::<Option<TokenType>, Fault>(prev),
            decreases n - i,
        {
            let text: &String = &tokens[i].0;
            let current: TokenType = tokens[i].1;
            assert(m[i as int].0 == text@ && m[i as int].1 == current);
            if !(is_sym(text.as_str(), '(') || is_sym(text.as_str(), ')')) {
                let fault = match prev {
                    None => if current == TokenType::TagName {
                        None
                    } else {
                        Some(RuleFault::BadStart(current))
                    },
                    Some(p) => if Self::may_follow(p, current) {
                        None
                    } else {
                        Some(RuleFault::BadSequence(p, current))
                    },
                };
                match fault {
                    Some(f) => {
                        proof {
                            lemma_syntax_scan_err(m, (i + 1) as nat, n as nat);
                        }
                        return Err(RulesError::bare(f));
                    },
                    None => {},
                }
                prev = Some(current);
            }
            i = i + 1;
        }
        match prev {
            Some(TokenType::TagValue) => Ok(()),
            Some(other) => Err(RulesError::bare(RuleFault::BadEnd(other))),
            None => Err(RulesError::bare(RuleFault::EmptyRule)),
        }
    }

    /// Whether a token of type `next` may follow one of type `prev`.
    fn may_follow(prev: TokenType, next: TokenType) -> (b: bool)
        ensures
            b == follows(prev, next),
    {
        match prev {
            TokenType::TagName => next == TokenType::ComparisonOp,
            TokenType::ComparisonOp => next == TokenType::TagValue,
            TokenType::TagValue => next == TokenType::LogicalOp,
            TokenType::LogicalOp => next == TokenType::TagName,
        }
    }
}

} // verus!
