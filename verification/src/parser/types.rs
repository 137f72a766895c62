use crate::types::{ComparisonOp, Cond, LogicalOp};
use vstd::prelude::*;

verus! {

/// The grammatical role the lexer assigns to a token.
#[derive(Debug, Clone, Copy, PartialEq, Eq, Structural)]
pub enum TokenType {
    TagName,
    ComparisonOp,
    TagValue,
    LogicalOp,
}

/// The parenthesis depth at which a token stands. The type is wide enough
/// for the depth of any list of tokens, below zero too.
pub type TokenDepth = i128;

/// Tokens with their type and parenthesis depth.
pub type MappedRuleTokens = Vec<(String, TokenType, TokenDepth)>;

/// An operator character of the rule language, or none.
#[derive(Debug, Clone, Copy, PartialEq, Eq, Structural)]
pub enum Token {
    LeftParen,
    RightParen,
    Equals,
    NotEquals,
    And,
    Or,
    Comma,
    Invalid,
}

impl Token {
    /// The character of an operator; `Invalid` has none.
    pub open spec fn symbol(self) -> Option<char> {
        match self {
            Token::LeftParen => Some('('),
            Token::RightParen => Some(')'),
            Token::Equals => Some('='),
            Token::NotEquals => Some('!'),
            Token::And => Some('&'),
            Token::Or => Some('|'),
            Token::Comma => Some(','),
            Token::Invalid => None,
        }
    }

    /// The character that stands for the operator.
    pub fn as_char(&self) -> (c: char)
        requires
            *self != Token::Invalid,
        ensures
            self.symbol() == Some(c),
    {
        match self {
            Token::LeftParen => '(',
            Token::RightParen => ')',
            Token::Equals => '=',
            Token::NotEquals => '!',
            Token::And => '&',
            Token::Or => '|',
            Token::Comma => ',',
            Token::Invalid => ' ',
        }
    }

    /// The operator that `c` stands for, if it stands for one.
    pub fn from_char(c: char) -> (t: Option<Self>)
        ensures
            match t {
                Some(token) => token.symbol() == Some(c),
                None => forall|token: Token| token.symbol() != Some(c),
            },
    {
        match c {
            '(' => Some(Token::LeftParen),
            ')' => Some(Token::RightParen),
            '=' => Some(Token::Equals),
            '!' => Some(Token::NotEquals),
            '&' => Some(Token::And),
            '|' => Some(Token::Or),
            ',' => Some(Token::Comma),
            _ => None,
        }
    }
}

/// A boolean expression over comparisons, as a mathematical value.
pub enum Expr {
    Leaf(Cond),
    Binary(LogicalOp, Box<Expr>, Box<Expr>),
}

/// A boolean expression over comparisons: a comparison, or two expressions
/// joined by a logical operator.
#[derive(Debug)]
pub enum Node {
    Leaf { op: ComparisonOp, tag: String, value: String },
    Binary { op: LogicalOp, left: Box<Node>, right: Box<Node> },
}

impl Node {
    /// The expression that the tree stands for.
    pub open spec fn expr(self) -> Expr
        decreases self,
    {
        match self {
            Node::Leaf { op, tag, value } => Expr::Leaf(Cond { tag: tag@, op, value: value@ }),
            Node::Binary { op, left, right } => Expr::Binary(
                op,
                Box::new(left.expr()),
                Box::new(right.expr()),
            ),
        }
    }
}

impl View for Node {
    type V = Expr;

    open spec fn view(&self) -> Expr {
        self.expr()
    }
}

/// A rule as an expression tree.
#[derive(Debug)]
pub struct Rule {
    pub root_node: Node,
}

} // verus!
