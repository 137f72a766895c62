use crate::err::{Fault, RuleFault, RulesError};
use crate::text::{chars_of, is_space, piece, space_char, texts};
use vstd::prelude::*;
use vstd::string::*;

verus! {

/// `s` without the white space at its start.
pub open spec fn trim_start(s: Seq<char>) -> Seq<char>
    decreases s.len(),
{
    if s.len() > 0 && is_space(s[0]) {
        trim_start(s.drop_first())
    } else {
        s
    }
}

/// `s` without the white space at its end.
pub open spec fn trim_end(s: Seq<char>) -> Seq<char>
    decreases s.len(),
{
    if s.len() > 0 && is_space(s.last()) {
        trim_end(s.drop_last())
    } else {
        s
    }
}

/// `s` without the white space at its start and at its end.
pub open spec fn trim(s: Seq<char>) -> Seq<char> {
    trim_end(trim_start(s))
}

/// How often `c` occurs in `s`.
pub open spec fn count(s: Seq<char>, c: char) -> nat
    decreases s.len(),
{
    if s.len() == 0 {
        0
    } else {
        count(s.drop_last(), c) + if s.last() == c {
            1nat
        } else {
            0nat
        }
    }
}

/// The text of a rule line without its dash: the line must begin with a
/// dash and hold no other.
pub open spec fn normalised(s: Seq<char>) -> Result<Seq<char>, Fault> {
    if s.len() == 0 || s[0] != '-' {
        Err(Fault::MissingDash)
    } else if count(s, '-') > 1 {
        Err(Fault::ExtraDashes(count(s, '-')))
    } else {
        Ok(trim(s.drop_first()))
    }
}

/// Where `trim_start` cuts: all before `a` is white space, and `a` is the
/// end or no white space.
proof fn lemma_trim_start(s: Seq<char>, a: int)
    requires
        0 <= a <= s.len(),
        forall|k: int| 0 <= k < a ==> is_space(#[trigger] s[k]),
        a < s.len() ==> !is_space(s[a]),
    ensures
        trim_start(s) == s.subrange(a, s.len() as int),
    decreases s.len(),
{
    if a == 0 {
        assert(s.subrange(0, s.len() as int) =~= s);
    } else {
        assert(is_space(s[0]));
        let t = s.drop_first();
        assert forall|k: int| 0 <= k < a - 1 implies is_space(#[trigger] t[k]) by {
            assert(t[k] == s[k + 1]);
        }
        lemma_trim_start(t, a - 1);
        assert(t.subrange(a - 1, t.len() as int) =~= s.subrange(a, s.len() as int));
    }
}

/// Where `trim_end` cuts.
proof fn lemma_trim_end(s: Seq<char>, b: int)
    requires
        0 <= b <= s.len(),
        forall|k: int| b <= k < s.len() ==> is_space(#[trigger] s[k]),
        b > 0 ==> !is_space(s[b - 1]),
    ensures
        trim_end(s) == s.subrange(0, b),
    decreases s.len(),
{
    if b == s.len() {
        assert(s.subrange(0, b) =~= s);
    } else {
        assert(is_space(s.last()));
        let t = s.drop_last();
        assert forall|k: int| b <= k < t.len() implies is_space(#[trigger] t[k]) by {
            assert(t[k] == s[k]);
        }
        lemma_trim_end(t, b);
        assert(t.subrange(0, b) =~= s.subrange(0, b));
    }
}

/// The characters `from..to` of `s`, without the white space at both ends.
pub fn trimmed(s: &str, from: usize, to: usize) -> (r: String)
    requires
        from <= to <= s@.len(),
    ensures
        r@ == trim(s@.subrange(from as int, to as int)),
{
    let cs = chars_of(s);
    let ghost part = s@.subrange(from as int, to as int);
    let mut a: usize = from;
    while a < to && space_char(cs[a])
        invariant
            cs@ == s@,
            from <= a <= to <= s@.len(),
            forall|k: int| from <= k < a ==> is_space(#[trigger] s@[k]),
        decreases to - a,
    {
        a = a + 1;
    }
    let mut b: usize = to;
    while b > a && space_char(cs[b - 1])
        invariant
            cs@ == s@,
            a <= b <= to <= s@.len(),
            forall|k: int| b <= k < to ==> is_space(#[trigger] s@[k]),
        decreases b - a,
    {
        b = b - 1;
    }
    proof {
        assert forall|k: int| 0 <= k < a - from implies is_space(#[trigger] part[k]) by {
            assert(part[k] == s@[k + from]);
        }
        lemma_trim_start(part, a - from);
        let rest = part.subrange(a - from, part.len() as int);
        assert(rest =~= s@.subrange(a as int, to as int));
        assert forall|k: int| b - a <= k < rest.len() implies is_space(#[trigger] rest[k]) by {
            assert(rest[k] == s@[k + a]);
        }
        lemma_trim_end(rest, b - a);
        assert(rest.subrange(0, b - a) =~= s@.subrange(a as int, b as int));
    }
    piece(s, a, b)
}

/// How often `c` occurs among `cs`.
pub fn occurrences(cs: &Vec<char>, c: char) -> (n: usize)
    ensures
        n == count(cs@, c),
{
    let mut n: usize = 0;
    let mut i: usize = 0;
    while i < cs.len()
        invariant
            i <= cs.len(),
            n == count(cs@.take(i as int), c),
            n <= i,
        decreases cs.len() - i,
    {
        assert(cs@.take(i + 1).drop_last() =~= cs@.take(i as int));
        if cs[i] == c {
            n = n + 1;
        }
        i = i + 1;
    }
    assert(cs@.take(cs@.len() as int) =~= cs@);
    n
}

/// Reading a text by the place of a character.
pub trait StringUtils {
    /// The character at place `index`, if there is one.
    fn at(&self, index: usize) -> Option<char>;
}

impl StringUtils for str {
    fn at(&self, index: usize) -> (c: Option<char>)
        ensures
            c == if index < self@.len() {
                Some(self@[index as int])
            } else {
                None
            },
    {
        if index < self.unicode_len() {
            Some(self.get_char(index))
        } else {
            None
        }
    }
}

/// Takes the leading dash off a rule line and trims what is left.
pub fn normalise(string: &str) -> (r: Result<String, RulesError>)
    ensures
        match normalised(string@) {
            Ok(text) => r is Ok && r->Ok_0@ == text,
            Err(f) => r is Err && r->Err_0.is_bare(f),
        },
{
    if string.at(0) != Some('-') {
        return Err(RulesError::bare(RuleFault::MissingDash));
    }
    let cs = chars_of(string);
    let dashes = occurrences(&cs, '-');
    if dashes > 1 {
        return Err(RulesError::bare(RuleFault::ExtraDashes(dashes)));
    }
    assert(string@.drop_first() =~= string@.subrange(1, string@.len() as int));
    Ok(trimmed(string, 1, cs.len()))
}

/// Where `c` first stands in `s` at or after `from`; the length of `s`
/// where it does not.
pub open spec fn find(s: Seq<char>, c: char, from: int) -> int
    decreases s.len() - from,
{
    if from >= s.len() {
        s.len() as int
    } else if s[from] == c {
        from
    } else {
        find(s, c, from + 1)
    }
}

/// The pieces of `s` between the occurrences of `c`: one more than there
/// are occurrences.
pub open spec fn pieces(s: Seq<char>, c: char) -> Seq<Seq<char>>
    decreases s.len(),
{
    let at = find(s, c, 0);
    if 0 <= at < s.len() {
        seq![s.subrange(0, at)] + pieces(s.subrange(at + 1, s.len() as int), c)
    } else {
        seq![s]
    }
}

/// Where the first `c` stands, given that none stands before `at`.
pub proof fn lemma_find(s: Seq<char>, c: char, from: int, at: int)
    requires
        0 <= from <= at <= s.len(),
        forall|k: int| from <= k < at ==> s[k] != c,
        at < s.len() ==> s[at] == c,
    ensures
        find(s, c, from) == at,
    decreases at - from,
{
    if from < at {
        lemma_find(s, c, from + 1, at);
    }
}

/// Splits the characters `from..to` of `s` at each `c`.
pub fn split(s: &str, c: char, from: usize, to: usize) -> (r: Vec<String>)
    requires
        from <= to <= s@.len(),
    ensures
        texts(r@) == pieces(s@.subrange(from as int, to as int), c),
{
    let cs = chars_of(s);
    let ghost whole = s@.subrange(from as int, to as int);
    let mut r: Vec<String> = Vec::new();
    let mut start: usize = from;
    let mut i: usize = from;
    assert(texts(r@) + pieces(s@.subrange(start as int, to as int), c) =~= pieces(
        whole,
        c,
    ));
    while i < to
        invariant
            cs@ == s@,
            from <= start <= i <= to <= s@.len(),
            whole == s@.subrange(from as int, to as int),
            forall|k: int| start <= k < i ==> s@[k] != c,
            texts(r@) + pieces(s@.subrange(start as int, to as int), c) == pieces(
                whole,
                c,
            ),
        decreases to - i,
    {
        if cs[i] == c {
            let ghost rest = s@.subrange(start as int, to as int);
            let ghost done = texts(r@);
            proof {
                assert forall|k: int| 0 <= k < i - start implies rest[k] != c by {
                    assert(rest[k] == s@[start + k]);
                }
                lemma_find(rest, c, 0, i - start);
                assert(rest.subrange(0, i - start) =~= s@.subrange(start as int, i as int));
                assert(rest.subrange(i - start + 1, rest.len() as int) =~= s@.subrange(
                    i + 1,
                    to as int,
                ));
            }
            r.push(piece(s, start, i));
            assert(texts(r@) =~= done + seq![s@.subrange(start as int, i as int)]);
            start = i + 1;
        }
        i = i + 1;
    }
    proof {
        let rest = s@.subrange(start as int, to as int);
        assert forall|k: int| 0 <= k < rest.len() implies rest[k] != c by {
            assert(rest[k] == s@[start + k]);
        }
        lemma_find(rest, c, 0, rest.len() as int);
    }
    let ghost done = texts(r@);
    r.push(piece(s, start, to));
    assert(texts(r@) =~= done + seq![s@.subrange(start as int, to as int)]);
    r
}

} // verus!
