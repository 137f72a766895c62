use crate::parser::lexer::{after_single, after_word, expected_type, is_single};
use crate::parser::lex_laws::{no_comma, no_paren};
use crate::parser::syntax::{
    depth_before, in_turn, is_paren, lemma_syntax_check, mapped, substantive, syntax_check, turn,
    well_typed,
};
use crate::parser::tree::{
    before, has_logical, is_logical, is_split, lemma_split_unique, parse, rank, ranked,
    split_index, wrapped,
};
use crate::parser::types::TokenType;
use vstd::prelude::*;

verus! {

/// Whether `t` is a token that may stand at place `k` of comparisons joined
/// by logical operators: a word, `=` or `!`, a word, `&` or `|`, and again.
pub open spec fn fits(t: Seq<char>, k: int) -> bool {
    if k % 4 == 1 {
        t == seq!['='] || t == seq!['!']
    } else if k % 4 == 3 {
        is_logical(t)
    } else {
        !is_single(t)
    }
}

/// Whether the tokens are comparisons joined by logical operators, without
/// parentheses.
pub open spec fn flat(tokens: Seq<Seq<char>>) -> bool {
    &&& tokens.len() % 4 == 3
    &&& forall|k: int| 0 <= k < tokens.len() ==> fits(#[trigger] tokens[k], k)
}

/// The operator tokens have the shape of an operator, each its own.
proof fn lemma_symbols()
    ensures
        is_single(seq!['(']),
        is_single(seq![')']),
        is_single(seq!['=']),
        is_single(seq!['!']),
        is_single(seq!['&']),
        is_single(seq!['|']),
        seq!['('][0] == '(',
        seq![')'][0] == ')',
        seq!['='][0] == '=',
        seq!['!'][0] == '!',
        seq!['&'][0] == '&',
        seq!['|'][0] == '|',
{
}

/// Among flat tokens no parenthesis is open anywhere.
proof fn lemma_flat_depth(tokens: Seq<Seq<char>>, i: int)
    requires
        flat(tokens),
        0 <= i <= tokens.len(),
    ensures
        depth_before(tokens, i) == 0,
    decreases i,
{
    lemma_symbols();
    if i > 0 {
        lemma_flat_depth(tokens, i - 1);
        assert(fits(tokens[i - 1], i - 1));
    }
}

/// Among flat tokens the operators with a rank are those at the places of
/// operators: rank 2 for a comparison, a smaller one for a logical operator.
proof fn lemma_flat_rank(tokens: Seq<Seq<char>>, k: int)
    requires
        flat(tokens),
        0 <= k < tokens.len(),
    ensures
        k % 4 == 1 ==> rank(tokens[k]) == Some(2int),
        k % 4 == 3 ==> rank(tokens[k]) is Some && rank(tokens[k])->0 <= 1,
        k % 4 == 0 || k % 4 == 2 ==> rank(tokens[k]) is None && !is_logical(tokens[k]),
        k % 4 == 1 ==> !is_logical(tokens[k]),
{
    lemma_symbols();
    assert(fits(tokens[k], k));
}

/// Whether `i` is where the first `n` tokens are split.
pub open spec fn is_split_of(tokens: Seq<Seq<char>>, i: int, n: int) -> bool {
    &&& ranked(tokens, i)
    &&& i < n
    &&& forall|j: int| #[trigger] ranked(tokens, j) && j < i ==> before(tokens, i, j)
    &&& forall|j: int| #[trigger] ranked(tokens, j) && i < j < n ==> !before(tokens, j, i)
}

/// Where one of the first `n` tokens is an operator with a rank, there is a
/// place to split them at.
proof fn lemma_split_exists(tokens: Seq<Seq<char>>, n: int) -> (i: int)
    requires
        0 <= n <= tokens.len(),
        exists|j: int| ranked(tokens, j) && j < n,
    ensures
        is_split_of(tokens, i, n),
    decreases n,
{
    let last = n - 1;
    if exists|j: int| ranked(tokens, j) && j < last {
        let best = lemma_split_exists(tokens, last);
        if ranked(tokens, last) && before(tokens, last, best) {
            assert forall|j: int| #[trigger] ranked(tokens, j) && j < last implies before(
                tokens,
                last,
                j,
            ) by {
                if j < best {
                    assert(before(tokens, best, j));
                } else if j > best {
                    assert(!before(tokens, j, best));
                }
            }
            last
        } else {
            best
        }
    } else {
        let j = choose|j: int| ranked(tokens, j) && j < n;
        assert(j == last);
        last
    }
}

/// Flat tokens make an expression.
pub proof fn lemma_parse_flat(tokens: Seq<Seq<char>>)
    requires
        flat(tokens),
    ensures
        parse(tokens) is Ok,
    decreases tokens.len(),
{
    lemma_symbols();
    assert(fits(tokens[0], 0));
    assert(!wrapped(tokens));
    assert forall|k: int| 0 <= k < tokens.len() implies (is_logical(#[trigger] tokens[k]) <==> k
        % 4 == 3) by {
        lemma_flat_rank(tokens, k);
    }
    if tokens.len() == 3 {
        assert(!has_logical(tokens));
        assert(fits(tokens[1], 1));
    } else {
        assert(is_logical(tokens[3]));
        lemma_flat_rank(tokens, 3);
        assert(ranked(tokens, 3));
        let found = lemma_split_exists(tokens, tokens.len() as int);
        assert(is_split(tokens, found));
        let i = split_index(tokens);
        assert(is_split(tokens, i));
        lemma_flat_rank(tokens, i);
        lemma_flat_depth(tokens, i);
        lemma_flat_depth(tokens, 3);
        assert(i % 4 == 3) by {
            if i % 4 == 1 {
                if 3 < i {
                    assert(before(tokens, i, 3));
                } else {
                    assert(!before(tokens, 3, i));
                }
            }
        }
        let left = tokens.take(i);
        let right = tokens.skip(i + 1);
        assert forall|k: int| 0 <= k < left.len() implies fits(#[trigger] left[k], k) by {
            assert(fits(tokens[k], k));
        }
        assert forall|k: int| 0 <= k < right.len() implies fits(#[trigger] right[k], k) by {
            assert(right[k] == tokens[k + i + 1]);
            assert(fits(tokens[k + i + 1], k + i + 1));
        }
        lemma_parse_flat(left);
        lemma_parse_flat(right);
    }
}

/// Without parentheses every token counts for the order of the types.
proof fn lemma_substantive_all(tokens: Seq<Seq<char>>, n: nat)
    requires
        n <= tokens.len(),
        no_paren(tokens),
    ensures
        substantive(mapped(tokens), n).len() == n,
        forall|k: int|
            0 <= k < n ==> #[trigger] substantive(mapped(tokens), n)[k] == mapped(tokens)[k].1,
    decreases n,
{
    if n > 0 {
        lemma_substantive_all(tokens, (n - 1) as nat);
        assert(mapped(tokens)[n - 1].0 == tokens[n - 1]);
        assert(!is_paren(tokens[n - 1]));
    }
}

/// Tokens of a valid order, without parentheses and commas, that end on a
/// word are flat.
pub proof fn lemma_valid_is_flat(tokens: Seq<Seq<char>>)
    requires
        well_typed(tokens),
        no_comma(tokens),
        no_paren(tokens),
        syntax_check(mapped(tokens)) is Ok,
        !is_single(tokens.last()),
    ensures
        flat(tokens),
{
    lemma_symbols();
    let m = mapped(tokens);
    let n = tokens.len();
    lemma_syntax_check(m);
    lemma_substantive_all(tokens, n);
    let types = substantive(m, m.len());
    assert(n % 4 == 3);
    assert forall|k: int| 0 <= k < n implies fits(#[trigger] tokens[k], k) by {
        if k == n - 1 {
            assert(tokens[k] == tokens.last());
        } else {
            let prefix = tokens.take(k + 1);
            assert(types[k + 1] == turn(k + 1));
            assert(m[k + 1].1 == expected_type(prefix)->Ok_0);
            assert(expected_type(prefix) is Ok);
            assert(prefix.last() == tokens[k]);
            let t = tokens[k];
            assert(!is_paren(t));
            assert(t != seq![',']);
            if is_single(t) {
                assert(t =~= seq![t[0]]);
                assert(expected_type(prefix) == after_single(t[0]));
            } else if k >= 1 {
                assert(prefix[prefix.len() - 2] == tokens[k - 1]);
                assert(!is_paren(tokens[k - 1]));
                assert(expected_type(prefix) == after_word(tokens[k - 1]));
                if is_single(tokens[k - 1]) {
                    assert(tokens[k - 1] =~= seq![tokens[k - 1][0]]);
                }
            }
        }
    }
}

} // verus!
