use vstd::prelude::*;
use vstd::string::*;

verus! {

/// Whether `c` separates words: the characters with the Unicode property
/// `White_Space`.
pub open spec fn is_space(c: char) -> bool {
    let n = c as u32;
    (0x09 <= n <= 0x0D) || n == 0x20 || n == 0x85 || n == 0xA0 || n == 0x1680 || (0x2000 <= n
        <= 0x200A) || n == 0x2028 || n == 0x2029 || n == 0x202F || n == 0x205F || n == 0x3000
}

/// Whether `c` is white space.
pub fn space_char(c: char) -> (b: bool)
    ensures
        b == is_space(c),
{
    let n: u32 = c as u32;
    (0x09 <= n && n <= 0x0D) || n == 0x20 || n == 0x85 || n == 0xA0 || n == 0x1680 || (0x2000
        <= n && n <= 0x200A) || n == 0x2028 || n == 0x2029 || n == 0x202F || n == 0x205F || n
        == 0x3000
}

/// Whether `c` is one of the operator characters of the rule language.
pub open spec fn is_op_char(c: char) -> bool {
    c == '(' || c == ')' || c == '=' || c == '!' || c == '&' || c == '|' || c == ','
}

/// Whether `c` is an operator character.
pub fn op_char(c: char) -> (b: bool)
    ensures
        b == is_op_char(c),
{
    c == '(' || c == ')' || c == '=' || c == '!' || c == '&' || c == '|' || c == ','
}

/// The lower-case form of a text, as `str::to_lowercase` of the standard
/// library gives it. It follows the Unicode character database, whose
/// tables are not written out here: nothing is known of it but that it is a
/// function of the text.
pub uninterp spec fn lowercase(s: Seq<char>) -> Seq<char>;

/// Calls `str::to_lowercase` of the standard library. The contract is
/// believed, not proved: the result goes by the characters of `s` alone, on
/// every machine and in every locale, and so is `lowercase` of them.
#[verifier::external_body]
pub(crate) fn to_lower(s: &str) -> (r: String)
    ensures
        r@ == lowercase(s@),
{
    s.to_lowercase()
}

/// The views of a sequence of strings.
pub open spec fn texts(v: Seq<String>) -> Seq<Seq<char>> {
    Seq::new(v.len(), |i: int| v[i]@)
}

/// The characters of `s`, in order.
pub fn chars_of(s: &str) -> (v: Vec<char>)
    ensures
        v@ == s@,
{
    broadcast use vstd::string::group_string_axioms;

    let mut v: Vec<char> = Vec::new();
    for c in it: s.chars()
        invariant
            it.seq() == s@,
            v@ == it.seq().take(it.index() as int),
    {
        v.push(c);
    }
    assert(v@ =~= s@);
    v
}

/// The characters of `s` from position `from` up to `to`, as a string.
pub fn piece(s: &str, from: usize, to: usize) -> (r: String)
    requires
        from <= to <= s@.len(),
    ensures
        r@ == s@.subrange(from as int, to as int),
{
    s.substring_char(from, to).to_owned()
}

/// Whether `s` is the one character `c`.
pub fn is_sym(s: &str, c: char) -> (b: bool)
    ensures
        b == (s@ == seq![c]),
{
    if s.unicode_len() == 1 {
        let d = s.get_char(0);
        assert(s@ =~= seq![d]);
        assert(seq![c][0] == c);
        d == c
    } else {
        assert(seq![c].len() == 1);
        false
    }
}

} // verus!
