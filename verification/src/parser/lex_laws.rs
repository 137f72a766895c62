use crate::err::Fault;
use crate::parser::lexer::{
    comma_allowed, expected_type, is_single, lex, lex_flush, lex_operator, lex_prefix, lex_start,
    lex_step, LexState,
};
use crate::parser::syntax::{depth_before, is_paren, well_typed};
use crate::text::{is_op_char, is_space};
use crate::utils::string::{count, trim, trim_end, trim_start};
use vstd::prelude::*;

verus! {

/// Whether `w` holds neither an operator character nor white space.
pub open spec fn is_word(w: Seq<char>) -> bool {
    forall|k: int| 0 <= k < w.len() ==> !is_op_char(#[trigger] w[k]) && !is_space(w[k])
}

/// What holds of the lexer after `n` characters: every token so far stood
/// where some type was expected, the depth is that of the tokens and was
/// never negative, and what the lexer remembers for a comma can be repeated.
pub open spec fn lex_inv(st: LexState, n: nat) -> bool {
    &&& well_typed(st.tokens)
    &&& forall|i: int|
        0 <= i <= st.tokens.len() ==> 0 <= #[trigger] depth_before(st.tokens, i) <= n
    &&& st.depth == depth_before(st.tokens, st.tokens.len() as int)
    &&& is_word(st.word)
    &&& st.tag_name is Some ==> {
        let name = st.tag_name->0;
        &&& name.len() > 0
        &&& is_word(name)
        &&& (!is_single(name) || (st.tokens.len() > 0 && st.tokens.last() == name))
    }
    &&& st.comparison is Some ==> (st.comparison->0 == seq!['='] || st.comparison->0 == seq!['!'])
    &&& no_comma(st.tokens)
}

/// Whether no token is a comma.
pub open spec fn no_comma(tokens: Seq<Seq<char>>) -> bool {
    forall|i: int| 0 <= i < tokens.len() ==> #[trigger] tokens[i] != seq![',']
}

/// A token that is no comma may be added.
proof fn lemma_push_no_comma(tokens: Seq<Seq<char>>, t: Seq<char>)
    requires
        no_comma(tokens),
        t.len() != 1 || t[0] != ',',
    ensures
        no_comma(tokens.push(t)),
{
    let more = tokens.push(t);
    assert(seq![','].len() == 1 && seq![','][0] == ',');
    assert forall|i: int| 0 <= i < more.len() implies #[trigger] more[i] != seq![','] by {
        if i < tokens.len() {
            assert(more[i] == tokens[i]);
        }
    }
}

/// The depth before a token goes by the tokens before it alone.
pub proof fn lemma_depth_push(tokens: Seq<Seq<char>>, t: Seq<char>, i: int)
    requires
        0 <= i <= tokens.len(),
    ensures
        depth_before(tokens.push(t), i) == depth_before(tokens, i),
    decreases i,
{
    if i > 0 {
        lemma_depth_push(tokens, t, i - 1);
        assert(tokens.push(t)[i - 1] == tokens[i - 1]);
    }
}

/// A token may be added where a type is expected.
pub proof fn lemma_push_well_typed(tokens: Seq<Seq<char>>, t: Seq<char>)
    requires
        well_typed(tokens),
        expected_type(tokens) is Ok,
    ensures
        well_typed(tokens.push(t)),
{
    let more = tokens.push(t);
    assert forall|i: int| 0 <= i < more.len() implies (#[trigger] expected_type(more.take(i)))
        is Ok by {
        if i < tokens.len() {
            assert(more.take(i) =~= tokens.take(i));
        } else {
            assert(more.take(i) =~= tokens);
        }
    }
}

/// Adding a token changes the depth by what the token is, and keeps the
/// depths before it.
proof fn lemma_push_depths(tokens: Seq<Seq<char>>, t: Seq<char>, lo: int, hi: int)
    requires
        forall|i: int| 0 <= i <= tokens.len() ==> lo <= #[trigger] depth_before(tokens, i) <= hi,
        lo <= depth_before(tokens.push(t), tokens.len() as int + 1) <= hi,
    ensures
        forall|i: int|
            0 <= i <= tokens.push(t).len() ==> lo <= #[trigger] depth_before(tokens.push(t), i)
                <= hi,
{
    let more = tokens.push(t);
    assert forall|i: int| 0 <= i <= more.len() implies lo <= #[trigger] depth_before(more, i)
        <= hi by {
        if i <= tokens.len() {
            lemma_depth_push(tokens, t, i);
            assert(lo <= depth_before(tokens, i) <= hi);
        }
    }
}

/// Ending the open word keeps the invariant.
proof fn lemma_flush_inv(st: LexState, n: nat)
    requires
        lex_inv(st, n),
        lex_flush(st) is Ok,
    ensures
        lex_inv(lex_flush(st)->Ok_0, n),
{
    if st.word.len() > 0 {
        let after = lex_flush(st)->Ok_0;
        let w = st.word;
        lemma_push_well_typed(st.tokens, w);
        assert(!is_op_char(w[0]));
        assert(is_word(after.word));
        assert(w != seq!['('] && w != seq![')']) by {
            assert(seq!['('][0] == '(');
            assert(seq![')'][0] == ')');
        }
        lemma_depth_push(st.tokens, w, st.tokens.len() as int);
        assert(after.tokens[after.tokens.len() - 1] == w);
        assert(depth_before(after.tokens, after.tokens.len() as int) == st.depth);
        lemma_push_depths(st.tokens, w, 0, n as int);
        assert(after.tokens.last() == w);
        lemma_push_no_comma(st.tokens, w);
    }
}

/// Reading an operator character keeps the invariant.
proof fn lemma_operator_inv(st: LexState, c: char, n: nat)
    requires
        lex_inv(st, n),
        st.word.len() == 0,
        is_op_char(c),
        lex_operator(st, c) is Ok,
    ensures
        lex_inv(lex_operator(st, c)->Ok_0, n + 1),
{
    let after = lex_operator(st, c)->Ok_0;
    assert(forall|i: int|
        0 <= i <= st.tokens.len() ==> 0 <= #[trigger] depth_before(st.tokens, i) <= n + 1);
    if c == ',' {
        let name = st.tag_name->0;
        let op = st.comparison->0;
        let bar = seq!['|'];
        let t1 = st.tokens.push(bar);
        let t2 = t1.push(name);
        let t3 = t2.push(op);
        assert(bar[0] == '|');
        assert(seq!['('][0] == '(');
        assert(seq![')'][0] == ')');
        assert(seq!['='][0] == '=');
        assert(seq!['!'][0] == '!');
        lemma_push_well_typed(st.tokens, bar);
        assert(t1.last() == bar);
        assert(is_single(bar));
        lemma_push_well_typed(t1, name);
        assert(t2.last() == name);
        assert(!is_single(name));
        assert(t2[t2.len() - 2] == bar);
        lemma_push_well_typed(t2, op);
        lemma_depth_push(st.tokens, bar, st.tokens.len() as int);
        assert(t1[t1.len() - 1] == bar);
        assert(depth_before(t1, t1.len() as int) == st.depth);
        lemma_push_depths(st.tokens, bar, 0, (n + 1) as int);
        lemma_depth_push(t1, name, t1.len() as int);
        assert(t2[t2.len() - 1] == name);
        assert(depth_before(t2, t2.len() as int) == st.depth);
        lemma_push_depths(t1, name, 0, (n + 1) as int);
        lemma_depth_push(t2, op, t2.len() as int);
        assert(t3[t3.len() - 1] == op);
        assert(depth_before(t3, t3.len() as int) == st.depth);
        lemma_push_depths(t2, op, 0, (n + 1) as int);
        assert(after.tokens == t3);
        assert(t3.last() == op);
        lemma_push_no_comma(st.tokens, bar);
        lemma_push_no_comma(t1, name);
        lemma_push_no_comma(t2, op);
    } else {
        let t = seq![c];
        let more = st.tokens.push(t);
        assert(t[0] == c);
        assert(seq!['('][0] == '(');
        assert(seq![')'][0] == ')');
        lemma_push_well_typed(st.tokens, t);
        lemma_depth_push(st.tokens, t, st.tokens.len() as int);
        assert(more[more.len() - 1] == t);
        assert(depth_before(more, more.len() as int) == after.depth);
        lemma_push_depths(st.tokens, t, 0, (n + 1) as int);
        assert(after.tokens == more);
        lemma_push_no_comma(st.tokens, t);
        if st.tag_name is Some && is_single(st.tag_name->0) {
            assert(st.tokens.last() == st.tag_name->0);
            assert(expected_type(st.tokens) is Err);
        }
    }
}

/// Reading a character keeps the invariant.
proof fn lemma_step_inv(st: LexState, c: char, n: nat)
    requires
        lex_inv(st, n),
        lex_step(st, c) is Ok,
    ensures
        lex_inv(lex_step(st, c)->Ok_0, n + 1),
{
    if is_op_char(c) {
        lemma_flush_inv(st, n);
        lemma_operator_inv(lex_flush(st)->Ok_0, c, n);
    } else if is_space(c) {
        lemma_flush_inv(st, n);
        let after = lex_flush(st)->Ok_0;
        assert(forall|i: int|
            0 <= i <= after.tokens.len() ==> 0 <= #[trigger] depth_before(after.tokens, i) <= n
                + 1);
    } else {
        let after = lex_step(st, c)->Ok_0;
        assert(forall|i: int|
            0 <= i <= after.tokens.len() ==> 0 <= #[trigger] depth_before(after.tokens, i) <= n
                + 1);
    }
}

/// The invariant holds as long as the lexer has not failed.
pub proof fn lemma_lex_prefix_inv(s: Seq<char>, n: nat)
    requires
        lex_prefix(s, n) is Ok,
    ensures
        lex_inv(lex_prefix(s, n)->Ok_0, n),
    decreases n,
{
    if n == 0 {
        assert(lex_start().tokens.take(0) =~= lex_start().tokens);
    } else {
        lemma_lex_prefix_inv(s, (n - 1) as nat);
        lemma_step_inv(lex_prefix(s, (n - 1) as nat)->Ok_0, s[n - 1], (n - 1) as nat);
    }
}

/// The tokens that the lexer gives can be typed, none of them is a comma,
/// and no depth among them is negative or above the number of characters
/// read.
pub proof fn lemma_lex_sound(s: Seq<char>)
    requires
        lex(s) is Ok,
    ensures
        well_typed(lex(s)->Ok_0),
        no_comma(lex(s)->Ok_0),
        forall|i: int|
            0 <= i <= lex(s)->Ok_0.len() ==> 0 <= #[trigger] depth_before(lex(s)->Ok_0, i)
                <= s.len(),
        depth_before(lex(s)->Ok_0, lex(s)->Ok_0.len() as int) == 0,
{
    lemma_lex_prefix_inv(s, s.len());
    lemma_flush_inv(lex_prefix(s, s.len())->Ok_0, s.len());
}

/// Whether a fault is one that the lexer finds.
pub open spec fn is_lexer_fault(f: Fault) -> bool {
    f is InvalidToken || f is ExpectedOperator || f is MisplacedComma || f
        is UnmatchedClosingParen || f is UnmatchedOpeningParen
}

/// Whether a fault says that the parentheses do not match.
pub open spec fn is_paren_fault(f: Fault) -> bool {
    f is UnmatchedClosingParen || f is UnmatchedOpeningParen
}

/// How many more `(` than `)` the text holds.
pub open spec fn paren_balance(s: Seq<char>) -> int {
    count(s, '(') - count(s, ')')
}

/// The faults of a token that stands where none is expected.
proof fn lemma_expected_fault(tokens: Seq<Seq<char>>)
    ensures
        expected_type(tokens) is Err ==> expected_type(tokens)->Err_0 is InvalidToken
            || expected_type(tokens)->Err_0 is ExpectedOperator,
{
}

/// The faults of one step of the lexer.
proof fn lemma_step_fault(st: LexState, c: char)
    requires
        lex_step(st, c) is Err,
    ensures
        is_lexer_fault(lex_step(st, c)->Err_0),
        !(lex_step(st, c)->Err_0 is UnmatchedOpeningParen),
{
    lemma_expected_fault(st.tokens);
    if lex_flush(st) is Ok {
        lemma_expected_fault(lex_flush(st)->Ok_0.tokens);
    }
}

/// While it reads the text, the lexer finds no faults but its own.
pub proof fn lemma_lex_prefix_fault(s: Seq<char>, n: nat)
    requires
        lex_prefix(s, n) is Err,
    ensures
        is_lexer_fault(lex_prefix(s, n)->Err_0),
        !(lex_prefix(s, n)->Err_0 is UnmatchedOpeningParen),
    decreases n,
{
    if n > 0 {
        match lex_prefix(s, (n - 1) as nat) {
            Err(_) => {
                lemma_lex_prefix_fault(s, (n - 1) as nat);
            },
            Ok(st) => {
                lemma_step_fault(st, s[n - 1]);
            },
        }
    }
}

/// The lexer finds no faults but its own.
pub proof fn lemma_lex_fault(s: Seq<char>)
    requires
        lex(s) is Err,
    ensures
        is_lexer_fault(lex(s)->Err_0),
{
    match lex_prefix(s, s.len()) {
        Err(_) => {
            lemma_lex_prefix_fault(s, s.len());
        },
        Ok(st) => {
            lemma_expected_fault(st.tokens);
        },
    }
}

/// As long as the lexer has not failed, its depth is the number of `(` read
/// less the number of `)` read.
pub proof fn lemma_lex_prefix_depth(s: Seq<char>, n: nat)
    requires
        n <= s.len(),
        lex_prefix(s, n) is Ok,
    ensures
        lex_prefix(s, n)->Ok_0.depth == paren_balance(s.take(n as int)),
    decreases n,
{
    if n > 0 {
        lemma_lex_prefix_depth(s, (n - 1) as nat);
        assert(s.take(n as int).drop_last() =~= s.take(n - 1));
        assert(s.take(n as int).last() == s[n - 1]);
    }
}

/// A text that holds more of one parenthesis than of the other has no
/// tokens: the lexer fails on it, and with no fault but one of its own.
pub proof fn lemma_unbalanced_fails(s: Seq<char>)
    requires
        count(s, '(') != count(s, ')'),
    ensures
        lex(s) is Err,
        is_lexer_fault(lex(s)->Err_0),
{
    if lex_prefix(s, s.len()) is Ok {
        lemma_lex_prefix_depth(s, s.len());
        assert(s.take(s.len() as int) =~= s);
    }
    lemma_lex_fault(s);
}

/// A state of the lexer with its depth left out.
pub open spec fn uncounted(st: LexState) -> LexState {
    LexState { depth: 0, ..st }
}

/// Reads an operator character as the lexer does, but without counting
/// parentheses.
pub open spec fn loose_operator(st: LexState, c: char) -> Result<LexState, Fault> {
    match lex_operator(LexState { depth: 1, ..st }, c) {
        Err(f) => Err(f),
        Ok(after) => Ok(uncounted(after)),
    }
}

/// Reads one character without counting parentheses.
pub open spec fn loose_step(st: LexState, c: char) -> Result<LexState, Fault> {
    if is_op_char(c) {
        match lex_flush(st) {
            Err(f) => Err(f),
            Ok(st1) => loose_operator(st1, c),
        }
    } else {
        lex_step(st, c)
    }
}

/// The lexer that does not count parentheses, after the first `n`
/// characters of `s`.
pub open spec fn loose_prefix(s: Seq<char>, n: nat) -> Result<LexState, Fault>
    decreases n,
{
    if n == 0 {
        Ok(lex_start())
    } else {
        match loose_prefix(s, (n - 1) as nat) {
            Err(f) => Err(f),
            Ok(st) => loose_step(st, s[n - 1]),
        }
    }
}

/// The tokens of `s` where parentheses are not counted: what is wrong with
/// the text apart from its parentheses, or its tokens.
pub open spec fn lex_loose(s: Seq<char>) -> Result<Seq<Seq<char>>, Fault> {
    match loose_prefix(s, s.len()) {
        Err(f) => Err(f),
        Ok(st) => match lex_flush(st) {
            Err(f) => Err(f),
            Ok(end) => Ok(end.tokens),
        },
    }
}

/// One step of the lexer and of the lexer that does not count
/// parentheses go together, unless a parenthesis closes what was not
/// opened.
proof fn lemma_loose_step(st: LexState, c: char)
    ensures
        match lex_step(st, c) {
            Ok(after) => loose_step(uncounted(st), c) == Ok::<LexState, Fault>(uncounted(after)),
            Err(f) => f is UnmatchedClosingParen || loose_step(uncounted(st), c) == Err::<
                LexState,
                Fault,
            >(f),
        },
{
    if is_op_char(c) {
        match lex_flush(st) {
            Ok(st1) => {
                assert(lex_flush(uncounted(st)) == Ok::<LexState, Fault>(uncounted(st1)));
            },
            Err(f) => {
                assert(lex_flush(uncounted(st)) == Err::<LexState, Fault>(f));
            },
        }
    } else if is_space(c) {
        match lex_flush(st) {
            Ok(st1) => {
                assert(lex_flush(uncounted(st)) == Ok::<LexState, Fault>(uncounted(st1)));
            },
            Err(f) => {
                assert(lex_flush(uncounted(st)) == Err::<LexState, Fault>(f));
            },
        }
    }
}

/// The lexer and the lexer that does not count parentheses go together
/// until a parenthesis closes what was not opened.
pub proof fn lemma_loose_prefix(s: Seq<char>, n: nat)
    ensures
        match lex_prefix(s, n) {
            Ok(st) => loose_prefix(s, n) == Ok::<LexState, Fault>(uncounted(st)),
            Err(f) => f is UnmatchedClosingParen || loose_prefix(s, n) == Err::<LexState, Fault>(f),
        },
    decreases n,
{
    if n > 0 {
        lemma_loose_prefix(s, (n - 1) as nat);
        match lex_prefix(s, (n - 1) as nat) {
            Ok(st) => {
                lemma_loose_step(st, s[n - 1]);
                assert(uncounted(lex_start()) == lex_start());
            },
            Err(_) => {},
        }
    }
}

/// A text that holds more of one parenthesis than of the other fails, and
/// with a fault of the parentheses, unless the text is at fault apart from
/// its parentheses: then it may fail with that fault.
pub proof fn lemma_unbalanced_paren_fault(s: Seq<char>)
    requires
        count(s, '(') != count(s, ')'),
    ensures
        lex(s) is Err,
        is_paren_fault(lex(s)->Err_0) || lex_loose(s) == lex(s),
        lex_loose(s) is Ok ==> is_paren_fault(lex(s)->Err_0),
{
    lemma_unbalanced_fails(s);
    lemma_loose_prefix(s, s.len());
    match lex_prefix(s, s.len()) {
        Ok(st) => {
            lemma_lex_prefix_depth(s, s.len());
            assert(s.take(s.len() as int) =~= s);
            match lex_flush(st) {
                Ok(end) => {
                    assert(end.depth == st.depth);
                },
                Err(f) => {
                    assert(lex_flush(uncounted(st)) == Err::<LexState, Fault>(f));
                },
            }
        },
        Err(_) => {},
    }
}

/// The lexer after the first `n` characters of `s`, read from the state
/// `st` on.
pub open spec fn lex_run(st: LexState, s: Seq<char>, n: nat) -> Result<LexState, Fault>
    decreases n,
{
    if n == 0 {
        Ok(st)
    } else {
        match lex_run(st, s, (n - 1) as nat) {
            Err(f) => Err(f),
            Ok(mid) => lex_step(mid, s[n - 1]),
        }
    }
}

/// What the lexer gives at the end of a text, from where reading left it.
pub open spec fn lex_end(read: Result<LexState, Fault>) -> Result<Seq<Seq<char>>, Fault> {
    match read {
        Err(f) => Err(f),
        Ok(st) => match lex_flush(st) {
            Err(f) => Err(f),
            Ok(end) => if end.depth != 0 {
                Err(Fault::UnmatchedOpeningParen)
            } else {
                Ok(end.tokens)
            },
        },
    }
}

/// Reading a text is reading it from the start state.
proof fn lemma_prefix_is_run(s: Seq<char>, n: nat)
    ensures
        lex_prefix(s, n) == lex_run(lex_start(), s, n),
    decreases n,
{
    if n > 0 {
        lemma_prefix_is_run(s, (n - 1) as nat);
    }
}

/// Reading goes by the characters read alone.
proof fn lemma_run_agree(st: LexState, s1: Seq<char>, s2: Seq<char>, n: nat)
    requires
        n <= s1.len(),
        n <= s2.len(),
        forall|i: int| 0 <= i < n ==> s1[i] == s2[i],
    ensures
        lex_run(st, s1, n) == lex_run(st, s2, n),
    decreases n,
{
    if n > 0 {
        lemma_run_agree(st, s1, s2, (n - 1) as nat);
    }
}

/// Reading two texts on end is reading the first and then the second.
proof fn lemma_run_concat(st: LexState, x: Seq<char>, y: Seq<char>, k: nat)
    requires
        k <= y.len(),
    ensures
        lex_run(st, x + y, x.len() + k) == match lex_run(st, x, x.len()) {
            Err(f) => Err(f),
            Ok(mid) => lex_run(mid, y, k),
        },
    decreases k,
{
    if k == 0 {
        lemma_run_agree(st, x + y, x, x.len());
    } else {
        lemma_run_concat(st, x, y, (k - 1) as nat);
        assert((x + y)[x.len() + k - 1] == y[k - 1]);
    }
}

/// Reading a word adds it to the word that is open.
proof fn lemma_run_word(st: LexState, w: Seq<char>, n: nat)
    requires
        is_word(w),
        n <= w.len(),
    ensures
        lex_run(st, w, n) == Ok::<LexState, Fault>(
            LexState { word: st.word + w.take(n as int), ..st },
        ),
    decreases n,
{
    if n == 0 {
        assert(st.word + w.take(0) =~= st.word);
    } else {
        lemma_run_word(st, w, (n - 1) as nat);
        assert(st.word + w.take(n as int) =~= (st.word + w.take(n - 1)).push(w[n - 1]));
    }
}

/// Where a comma is allowed, reading it leaves the lexer where reading
/// `|`, the remembered tag name and the remembered operator leaves it.
proof fn lemma_comma_step(st: LexState, n: nat)
    requires
        lex_inv(st, n),
        st.word.len() == 0,
        comma_allowed(st),
    ensures
        lex_run(
            st,
            seq!['|'] + st.tag_name->0 + st.comparison->0,
            st.tag_name->0.len() + 2,
        ) == lex_operator(st, ','),
{
    let name = st.tag_name->0;
    let op = st.comparison->0;
    let bar = seq!['|'];
    let c = op[0];
    assert(bar[0] == '|');
    assert(seq!['='][0] == '=' && seq!['!'][0] == '!');
    assert(op =~= seq![c]);
    assert(c == '=' || c == '!');
    // the bar
    let s1 = lex_step(st, '|')->Ok_0;
    assert(lex_flush(st) == Ok::<LexState, Fault>(st));
    assert(lex_step(st, '|') == Ok::<LexState, Fault>(
        LexState { tokens: st.tokens.push(bar), ..st },
    ));
    assert(lex_run(st, bar, 1) == lex_step(st, '|')) by {
        assert(lex_run(st, bar, 0) == Ok::<LexState, Fault>(st));
    }
    // the name
    lemma_run_word(s1, name, name.len());
    assert(name.take(name.len() as int) =~= name);
    assert(s1.word + name =~= name);
    let s2 = LexState { word: name, ..s1 };
    // the operator
    assert(s1.tokens.last() == bar);
    assert(is_single(bar));
    assert(!is_single(name));
    let t2 = s1.tokens.push(name);
    assert(t2.last() == name);
    assert(t2[t2.len() - 2] == bar);
    let s3 = lex_flush(s2)->Ok_0;
    assert(s3 == LexState { tokens: t2, word: seq![], ..s1 });
    assert(lex_step(s2, c) == lex_operator(s3, c));
    assert(lex_operator(s3, c) == Ok::<LexState, Fault>(
        LexState { tokens: t2.push(op), word: seq![], ..s1 },
    ));
    assert(lex_run(s2, op, 1) == lex_step(s2, c)) by {
        assert(lex_run(s2, op, 0) == Ok::<LexState, Fault>(s2));
    }
    lemma_run_concat(s1, name, op, 1);
    lemma_run_concat(st, bar, name + op, name.len() + 1);
    assert(bar + (name + op) =~= bar + name + op);
    assert(st.word =~= seq![]);
}

/// A comma is short for `|`, the tag name and the operator of the
/// comparison before it: where the text `a` leaves the lexer in a state in
/// which a comma is allowed, the text `a`, a comma and `b` has the tokens,
/// or the fault, of `a`, `|`, that tag name, that operator and `b`.
pub proof fn lemma_comma_sugar(a: Seq<char>, b: Seq<char>)
    requires
        lex_prefix(a, a.len()) is Ok,
        lex_flush(lex_prefix(a, a.len())->Ok_0) is Ok,
        comma_allowed(lex_flush(lex_prefix(a, a.len())->Ok_0)->Ok_0),
    ensures
        ({
            let st = lex_flush(lex_prefix(a, a.len())->Ok_0)->Ok_0;
            lex(a + seq![','] + b) == lex(a + seq!['|'] + st.tag_name->0 + st.comparison->0 + b)
        }),
{
    let read = lex_prefix(a, a.len())->Ok_0;
    let st = lex_flush(read)->Ok_0;
    let name = st.tag_name->0;
    let op = st.comparison->0;
    let mid = seq!['|'] + name + op;
    let t1 = a + seq![','] + b;
    let t2 = a + seq!['|'] + name + op + b;
    lemma_lex_prefix_inv(a, a.len());
    lemma_flush_inv(read, a.len());
    lemma_comma_step(st, a.len());
    assert(seq!['='].len() == 1 && seq!['!'].len() == 1);
    assert(mid.len() == name.len() + 2);
    lemma_prefix_is_run(a, a.len());
    lemma_prefix_is_run(t1, t1.len());
    lemma_prefix_is_run(t2, t2.len());
    let start = lex_start();
    // the text with the comma
    assert(t1 =~= a + (seq![','] + b));
    lemma_run_concat(start, a, seq![','] + b, b.len() + 1);
    lemma_run_concat(read, seq![','], b, b.len());
    assert(lex_run(read, seq![','], 1) == lex_step(read, ',')) by {
        assert(lex_run(read, seq![','], 0) == Ok::<LexState, Fault>(read));
        assert(seq![','][0] == ',');
    }
    assert(lex_step(read, ',') == lex_operator(st, ','));
    // the text with the comma written out
    assert(t2 =~= a + (mid + b));
    lemma_run_concat(start, a, mid + b, mid.len() + b.len());
    lemma_run_concat(read, mid, b, b.len());
    // reading `mid` from `read` flushes the open word first, as the comma does
    lemma_run_from_flush(read, mid, mid.len());
}

/// Reading a text that begins with an operator character ends the open
/// word first.
proof fn lemma_run_from_flush(st: LexState, s: Seq<char>, n: nat)
    requires
        1 <= n <= s.len(),
        is_op_char(s[0]),
        lex_flush(st) is Ok,
    ensures
        lex_run(st, s, n) == lex_run(lex_flush(st)->Ok_0, s, n),
    decreases n,
{
    let flushed = lex_flush(st)->Ok_0;
    if n == 1 {
        assert(lex_run(st, s, 0) == Ok::<LexState, Fault>(st));
        assert(lex_run(flushed, s, 0) == Ok::<LexState, Fault>(flushed));
        assert(lex_flush(flushed) == Ok::<LexState, Fault>(flushed));
    } else {
        lemma_run_from_flush(st, s, (n - 1) as nat);
    }
}

/// Whether the text holds no parenthesis.
pub open spec fn no_paren_char(s: Seq<char>) -> bool {
    forall|i: int| 0 <= i < s.len() ==> #[trigger] s[i] != '(' && s[i] != ')'
}

/// Whether no token is a parenthesis.
pub open spec fn no_paren(tokens: Seq<Seq<char>>) -> bool {
    forall|k: int| 0 <= k < tokens.len() ==> !is_paren(#[trigger] tokens[k])
}

/// A token that is no parenthesis may be added.
proof fn lemma_push_no_paren(tokens: Seq<Seq<char>>, t: Seq<char>)
    requires
        no_paren(tokens),
        !is_paren(t),
    ensures
        no_paren(tokens.push(t)),
{
    let more = tokens.push(t);
    assert forall|k: int| 0 <= k < more.len() implies !is_paren(#[trigger] more[k]) by {
        if k < tokens.len() {
            assert(more[k] == tokens[k]);
        }
    }
}

/// The lexer makes no parenthesis of a text that holds none.
proof fn lemma_lex_prefix_no_paren(s: Seq<char>, n: nat)
    requires
        n <= s.len(),
        no_paren_char(s),
        lex_prefix(s, n) is Ok,
    ensures
        no_paren(lex_prefix(s, n)->Ok_0.tokens),
    decreases n,
{
    assert(seq!['('][0] == '(' && seq![')'][0] == ')');
    assert(seq!['='][0] == '=' && seq!['!'][0] == '!' && seq!['|'][0] == '|');
    if n > 0 {
        lemma_lex_prefix_no_paren(s, (n - 1) as nat);
        lemma_lex_prefix_inv(s, (n - 1) as nat);
        let st = lex_prefix(s, (n - 1) as nat)->Ok_0;
        let c = s[n - 1];
        if is_op_char(c) || is_space(c) {
            let st1 = lex_flush(st)->Ok_0;
            lemma_flush_inv(st, (n - 1) as nat);
            if st.word.len() > 0 {
                assert(!is_op_char(st.word[0]));
                lemma_push_no_paren(st.tokens, st.word);
            }
            if is_op_char(c) {
                if c == ',' {
                    let name = st1.tag_name->0;
                    assert(!is_op_char(name[0]));
                    lemma_push_no_paren(st1.tokens, seq!['|']);
                    lemma_push_no_paren(st1.tokens.push(seq!['|']), name);
                    lemma_push_no_paren(
                        st1.tokens.push(seq!['|']).push(name),
                        st1.comparison->0,
                    );
                } else {
                    assert(seq![c][0] == c);
                    lemma_push_no_paren(st1.tokens, seq![c]);
                }
            }
        }
    }
}

/// The tokens of a text that holds no parenthesis hold none.
pub proof fn lemma_lex_no_paren(s: Seq<char>)
    requires
        no_paren_char(s),
        lex(s) is Ok,
    ensures
        no_paren(lex(s)->Ok_0),
{
    lemma_lex_prefix_no_paren(s, s.len());
    lemma_lex_prefix_inv(s, s.len());
    let st = lex_prefix(s, s.len())->Ok_0;
    if st.word.len() > 0 {
        assert(!is_op_char(st.word[0]));
        assert(seq!['('][0] == '(' && seq![')'][0] == ')');
        lemma_push_no_paren(st.tokens, st.word);
    }
}

/// White space at the start of a text changes nothing for the lexer.
proof fn lemma_lex_space_first(x: Seq<char>)
    requires
        x.len() > 0,
        is_space(x[0]),
    ensures
        lex(x) == lex(x.drop_first()),
{
    let rest = x.drop_first();
    let head = seq![x[0]];
    assert(x =~= head + rest);
    lemma_prefix_is_run(x, x.len());
    lemma_prefix_is_run(rest, rest.len());
    lemma_run_concat(lex_start(), head, rest, rest.len());
    assert(lex_run(lex_start(), head, 1) == lex_step(lex_start(), x[0])) by {
        assert(lex_run(lex_start(), head, 0) == Ok::<LexState, Fault>(lex_start()));
        assert(head[0] == x[0]);
    }
    assert(!is_op_char(x[0]));
    assert(lex_step(lex_start(), x[0]) == Ok::<LexState, Fault>(lex_start()));
}

/// White space at the end of a text changes nothing for the lexer.
proof fn lemma_lex_space_last(x: Seq<char>)
    requires
        x.len() > 0,
        is_space(x.last()),
    ensures
        lex(x) == lex(x.drop_last()),
{
    let front = x.drop_last();
    let n = front.len();
    lemma_prefix_is_run(x, n);
    lemma_prefix_is_run(front, n);
    lemma_run_agree(lex_start(), x, front, n);
    assert(!is_op_char(x.last()));
    match lex_prefix(front, n) {
        Ok(st) => {
            assert(lex_prefix(x, x.len()) == lex_flush(st));
            match lex_flush(st) {
                Ok(flushed) => {
                    assert(lex_flush(flushed) == Ok::<LexState, Fault>(flushed));
                },
                Err(_) => {},
            }
        },
        Err(_) => {},
    }
}

/// Trimming a text changes nothing for the lexer.
pub proof fn lemma_lex_trim(x: Seq<char>)
    ensures
        lex(trim_start(x)) == lex(x),
        lex(trim_end(x)) == lex(x),
        lex(trim(x)) == lex(x),
    decreases x.len(),
{
    if x.len() > 0 {
        lemma_lex_trim(x.drop_first());
        lemma_lex_trim(x.drop_last());
        if is_space(x[0]) {
            lemma_lex_space_first(x);
        }
        if is_space(x.last()) {
            lemma_lex_space_last(x);
        }
    }
    lemma_lex_trim_end(trim_start(x));
}

/// Trimming the end of a text changes nothing for the lexer.
proof fn lemma_lex_trim_end(x: Seq<char>)
    ensures
        lex(trim_end(x)) == lex(x),
    decreases x.len(),
{
    if x.len() > 0 && is_space(x.last()) {
        lemma_lex_trim_end(x.drop_last());
        lemma_lex_space_last(x);
    }
}

} // verus!
