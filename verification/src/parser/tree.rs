use crate::err::{Fault, RuleFault, RulesError};
use crate::parser::rules::RuleParser;
use crate::parser::syntax::{depth_before, lemma_depth_bound};
use crate::parser::types::{Expr, Node};
use crate::text::{is_sym, texts};
use crate::types::{ComparisonOp, Cond, LogicalOp};
use vstd::prelude::*;

verus! {

/// Whether a token is `&` or `|`.
pub open spec fn is_logical(t: Seq<char>) -> bool {
    t == seq!['&'] || t == seq!['|']
}

/// Whether some token is `&` or `|`, at whatever depth.
pub open spec fn has_logical(tokens: Seq<Seq<char>>) -> bool {
    exists|i: int| 0 <= i < tokens.len() && is_logical(#[trigger] tokens[i])
}

/// The precedence rank of an operator: `&` before `|` before `=` and `!`.
pub open spec fn rank(t: Seq<char>) -> Option<int> {
    if t == seq!['&'] {
        Some(0)
    } else if t == seq!['|'] {
        Some(1)
    } else if t == seq!['='] || t == seq!['!'] {
        Some(2)
    } else {
        None
    }
}

/// Whether token `i` is an operator with a rank.
pub open spec fn ranked(tokens: Seq<Seq<char>>, i: int) -> bool {
    0 <= i < tokens.len() && rank(tokens[i]) is Some
}

/// Whether operator `i` is split at rather than operator `j`: it stands at
/// a smaller depth, or at the same depth with a smaller rank.
pub open spec fn before(tokens: Seq<Seq<char>>, i: int, j: int) -> bool {
    depth_before(tokens, i) < depth_before(tokens, j) || (depth_before(tokens, i) == depth_before(
        tokens,
        j,
    ) && rank(tokens[i])->0 < rank(tokens[j])->0)
}

/// Whether `i` is where the tokens are split: the first of the operators
/// that no other comes before.
pub open spec fn is_split(tokens: Seq<Seq<char>>, i: int) -> bool {
    &&& ranked(tokens, i)
    &&& forall|j: int| #[trigger] ranked(tokens, j) && j < i ==> before(tokens, i, j)
    &&& forall|j: int| #[trigger] ranked(tokens, j) && j > i ==> !before(tokens, j, i)
}

/// Where the tokens are split.
pub open spec fn split_index(tokens: Seq<Seq<char>>) -> int {
    choose|i: int| is_split(tokens, i)
}

/// There is one place at most to split at.
pub proof fn lemma_split_unique(tokens: Seq<Seq<char>>, a: int, b: int)
    requires
        is_split(tokens, a),
        is_split(tokens, b),
    ensures
        a == b,
{
    if a < b {
        assert(ranked(tokens, a));
        assert(ranked(tokens, b));
    } else if b < a {
        assert(ranked(tokens, a));
        assert(ranked(tokens, b));
    }
}

/// Whether the tokens are enclosed by one pair of parentheses: the first
/// token opens what the last one closes.
pub open spec fn wrapped(tokens: Seq<Seq<char>>) -> bool {
    &&& tokens.len() > 2
    &&& tokens[0] == seq!['(']
    &&& tokens.last() == seq![')']
    &&& forall|i: int| 1 <= i < tokens.len() ==> #[trigger] depth_before(tokens, i) >= 1
    &&& depth_before(tokens, tokens.len() - 1) == 1
}

/// The tokens without the pair of parentheses that encloses them, if one
/// does.
pub open spec fn stripped(tokens: Seq<Seq<char>>) -> Seq<Seq<char>> {
    if wrapped(tokens) {
        tokens.subrange(1, tokens.len() - 1)
    } else {
        tokens
    }
}

/// The comparison that three tokens make: a tag name, `=` or `!`, and a
/// value.
pub open spec fn leaf(tokens: Seq<Seq<char>>) -> Result<Expr, Fault> {
    if tokens.len() != 3 {
        Err(Fault::MalformedLeaf(tokens.len()))
    } else if tokens[1] == seq!['='] {
        Ok(Expr::Leaf(Cond { tag: tokens[0], op: ComparisonOp::ISEQ, value: tokens[2] }))
    } else if tokens[1] == seq!['!'] {
        Ok(Expr::Leaf(Cond { tag: tokens[0], op: ComparisonOp::NOEQ, value: tokens[2] }))
    } else {
        Err(Fault::BadComparisonOp(tokens[1]))
    }
}

/// The expression that the tokens stand for. One enclosing pair of
/// parentheses is dropped. Tokens without `&` and `|` are one comparison.
/// Others are split at the operator of the smallest depth and, at that
/// depth, of the smallest rank, the first of those; what stands before it
/// and what stands after it are expressions in their turn, the one before
/// read first.
pub open spec fn parse(tokens: Seq<Seq<char>>) -> Result<Expr, Fault>
    decreases tokens.len(),
{
    let span = stripped(tokens);
    if !has_logical(span) {
        leaf(span)
    } else {
        let i = split_index(span);
        if 0 <= i < span.len() && is_logical(span[i]) {
            match parse(span.take(i)) {
                Err(f) => Err(f),
                Ok(left) => match parse(span.skip(i + 1)) {
                    Err(f) => Err(f),
                    Ok(right) => Ok(
                        Expr::Binary(
                            if span[i] == seq!['&'] {
                                LogicalOp::AND
                            } else {
                                LogicalOp::OR
                            },
                            Box::new(left),
                            Box::new(right),
                        ),
                    ),
                },
            }
        } else {
            Err(Fault::ExpectedLogicalOp(span[i]))
        }
    }
}

/// Whether `r` is the exec form of the expression or fault `s`.
pub open spec fn renders_node(r: Result<Node, RulesError>, s: Result<Expr, Fault>) -> bool {
    match s {
        Ok(e) => r is Ok && r->Ok_0@ == e,
        Err(f) => r is Err && r->Err_0.is_bare(f),
    }
}

/// The tokens `from..to` of `tokens`.
pub fn span_of(tokens: &Vec<String>, from: usize, to: usize) -> (r: Vec<String>)
    requires
        from <= to <= tokens@.len(),
    ensures
        texts(r@) == texts(tokens@).subrange(from as int, to as int),
{
    let mut r: Vec<String> = Vec::new();
    let mut i: usize = from;
    while i < to
        invariant
            from <= i <= to <= tokens@.len(),
            r@.len() == i - from,
            forall|k: int| 0 <= k < i - from ==> (#[trigger] r@[k])@ == tokens@[from + k]@,
        decreases to - i,
    {
        r.push(tokens[i].clone());
        i = i + 1;
    }
    assert(texts(r@) =~= texts(tokens@).subrange(from as int, to as int));
    r
}

/// The rank of an operator token.
fn rank_of(token: &str) -> (r: Option<u8>)
    ensures
        match rank(token@) {
            Some(n) => r == Some(n as u8) && n <= 2,
            None => r is None,
        },
{
    if is_sym(token, '&') {
        Some(0)
    } else if is_sym(token, '|') {
        Some(1)
    } else if is_sym(token, '=') || is_sym(token, '!') {
        Some(2)
    } else {
        None
    }
}

/// Whether one pair of parentheses encloses the tokens.
fn is_wrapped(tokens: &Vec<String>) -> (b: bool)
    ensures
        b == wrapped(texts(tokens@)),
{
    let ghost all = texts(tokens@);
    let n = tokens.len();
    if n <= 2 || !is_sym(tokens[0].as_str(), '(') || !is_sym(tokens[n - 1].as_str(), ')') {
        assert(n > 0 ==> all[0] == tokens@[0]@ && all.last() == tokens@[n - 1]@);
        return false;
    }
    assert(all[0] == tokens@[0]@ && all.last() == tokens@[n - 1]@);
    let mut depth: i128 = 1;
    let mut i: usize = 1;
    assert(depth_before(all, 1) == 1) by {
        assert(depth_before(all, 0) == 0);
    }
    while i < n - 1
        invariant
            all == texts(tokens@),
            n == tokens@.len(),
            1 <= i <= n - 1,
            depth == depth_before(all, i as int),
            forall|k: int| 1 <= k <= i ==> #[trigger] depth_before(all, k) >= 1,
        decreases n - i,
    {
        proof {
            lemma_depth_bound(all, i + 1);
        }
        assert(all[i as int] == tokens@[i as int]@);
        if is_sym(tokens[i].as_str(), '(') {
            depth = depth + 1;
        } else if is_sym(tokens[i].as_str(), ')') {
            depth = depth - 1;
        }
        i = i + 1;
        if depth < 1 {
            return false;
        }
    }
    depth == 1
}

impl RuleParser {
    /// Whether some token is `&` or `|`.
    pub fn contains_logical_op(tokens: &Vec<String>) -> (b: bool)
        ensures
            b == has_logical(texts(tokens@)),
    {
        let ghost all = texts(tokens@);
        let mut i: usize = 0;
        while i < tokens.len()
            invariant
                all == texts(tokens@),
                i <= tokens.len(),
                forall|k: int| 0 <= k < i ==> !is_logical(#[trigger] all[k]),
            decreases tokens.len() - i,
        {
            assert(all[i as int] == tokens@[i as int]@);
            if is_sym(tokens[i].as_str(), '&') || is_sym(tokens[i].as_str(), '|') {
                return true;
            }
            i = i + 1;
        }
        false
    }

    /// Where to split the tokens: at the first operator of the smallest
    /// depth and, at that depth, of the smallest rank; at 0 where no token
    /// is an operator with a rank.
    pub fn find_lowest_prec_op_index(tokens: &Vec<String>) -> (r: usize)
        ensures
            (exists|j: int| ranked(texts(tokens@), j)) ==> is_split(texts(tokens@), r as int),
            !(exists|j: int| ranked(texts(tokens@), j)) ==> r == 0,
    {
        let ghost all = texts(tokens@);
        let n = tokens.len();
        let mut lowest: Option<(usize, i128, u8)> = None;
        let mut depth: i128 = 0;
        let mut i: usize = 0;
        while i < n
            invariant
                all == texts(tokens@),
                n == tokens@.len(),
                i <= n,
                depth == depth_before(all, i as int),
                match lowest {
                    None => forall|j: int| 0 <= j < i ==> !#[trigger] ranked(all, j),
                    Some((at, d, p)) => {
                        &&& at < i
                        &&& ranked(all, at as int)
                        &&& d == depth_before(all, at as int)
                        &&& p == rank(all[at as int])->0
                        &&& forall|j: int| #[trigger]
                            ranked(all, j) && j < at ==> before(all, at as int, j)
                        &&& forall|j: int| #[trigger]
                            ranked(all, j) && at < j < i ==> !before(all, j, at as int)
                    },
                },
            decreases n - i,
        {
            proof {
                lemma_depth_bound(all, i + 1);
            }
            assert(all[i as int] == tokens@[i as int]@);
            let token: &str = tokens[i].as_str();
            match rank_of(token) {
                Some(p) => {
                    let reassign = match lowest {
                        Some((_, d, q)) => depth < d || (depth == d && p < q),
                        None => true,
                    };
                    if reassign {
                        lowest = Some((i, depth, p));
                    }
                },
                None => {},
            }
            if is_sym(token, '(') {
                depth = depth + 1;
            } else if is_sym(token, ')') {
                depth = depth - 1;
            }
            i = i + 1;
        }
        match lowest {
            Some((at, _, _)) => at,
            None => 0,
        }
    }

    /// The comparison that three tokens make.
    pub fn create_leaf_node(tokens: Vec<String>) -> (r: Result<Node, RulesError>)
        ensures
            renders_node(r, leaf(texts(tokens@))),
    {
        if tokens.len() != 3 {
            return Err(RulesError::bare(RuleFault::MalformedLeaf(tokens.len())));
        }
        assert(texts(tokens@)[0] == tokens@[0]@);
        assert(texts(tokens@)[1] == tokens@[1]@);
        assert(texts(tokens@)[2] == tokens@[2]@);
        let operator: &String = &tokens[1];
        let op = if is_sym(operator.as_str(), '=') {
            ComparisonOp::ISEQ
        } else if is_sym(operator.as_str(), '!') {
            ComparisonOp::NOEQ
        } else {
            return Err(RulesError::bare(RuleFault::BadComparisonOp(operator.clone())));
        };
        Ok(Node::Leaf { op, tag: tokens[0].clone(), value: tokens[2].clone() })
    }

    /// Builds the expression tree of the tokens of a rule.
    pub fn build_ast(tokens: Vec<String>) -> (r: Result<Node, RulesError>)
        ensures
            renders_node(r, parse(texts(tokens@))),
        decreases tokens@.len(),
    {
        let ghost given = texts(tokens@);
        let span: Vec<String> = if is_wrapped(&tokens) {
            span_of(&tokens, 1, tokens.len() - 1)
        } else {
            tokens
        };
        let ghost all = texts(span@);
        assert(all == stripped(given));
        assert(span@.len() == all.len() <= given.len());
        if !Self::contains_logical_op(&span) {
            return Self::create_leaf_node(span);
        }
        let at = Self::find_lowest_prec_op_index(&span);
        proof {
            let k = choose|k: int| 0 <= k < all.len() && is_logical(#[trigger] all[k]);
            assert(ranked(all, k));
            lemma_split_unique(all, at as int, split_index(all));
        }
        assert(all[at as int] == span@[at as int]@);
        let operator: &String = &span[at];
        let op = if is_sym(operator.as_str(), '&') {
            LogicalOp::AND
        } else if is_sym(operator.as_str(), '|') {
            LogicalOp::OR
        } else {
            return Err(RulesError::bare(RuleFault::ExpectedLogicalOp(operator.clone())));
        };
        let left_tokens = span_of(&span, 0, at);
        let right_tokens = span_of(&span, at + 1, span.len());
        assert(texts(left_tokens@) =~= all.take(at as int));
        assert(texts(right_tokens@) =~= all.skip(at + 1));
        assert(left_tokens@.len() == texts(left_tokens@).len());
        assert(right_tokens@.len() == texts(right_tokens@).len());
        let left = match Self::build_ast(left_tokens) {
            Ok(node) => node,
            Err(e) => {
                return Err(e);
            },
        };
        let right = match Self::build_ast(right_tokens) {
            Ok(node) => node,
            Err(e) => {
                return Err(e);
            },
        };
        Ok(Node::Binary { op, left: Box::new(left), right: Box::new(right) })
    }
}

} // verus!
