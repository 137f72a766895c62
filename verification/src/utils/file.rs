use crate::text::{chars_of, is_space, space_char};
use crate::utils::string::trim_start;
use vstd::prelude::*;

verus! {

/// Whether a line holds nothing but white space, or a comment: `#` is its
/// first character that is no white space.
pub open spec fn blank_or_comment(line: Seq<char>) -> bool {
    trim_start(line).len() == 0 || trim_start(line)[0] == '#'
}

/// White space at the start does not change what trimming leaves.
proof fn lemma_trim_start_skip(s: Seq<char>, a: int)
    requires
        0 <= a <= s.len(),
        forall|k: int| 0 <= k < a ==> is_space(#[trigger] s[k]),
    ensures
        trim_start(s) == trim_start(s.subrange(a, s.len() as int)),
    decreases a,
{
    if a == 0 {
        assert(s.subrange(0, s.len() as int) =~= s);
    } else {
        lemma_trim_start_skip(s, a - 1);
        let t = s.subrange(a - 1, s.len() as int);
        assert(is_space(t[0]));
        assert(t.drop_first() =~= s.subrange(a, s.len() as int));
    }
}

/// Whether a line is blank or a comment.
pub fn line_blank_or_comment(line: &str) -> (b: bool)
    ensures
        b == blank_or_comment(line@),
{
    let cs = chars_of(line);
    let mut a: usize = 0;
    while a < cs.len() && space_char(cs[a])
        invariant
            a <= cs.len(),
            forall|k: int| 0 <= k < a ==> is_space(#[trigger] cs@[k]),
        decreases cs.len() - a,
    {
        a = a + 1;
    }
    proof {
        lemma_trim_start_skip(cs@, a as int);
        let rest = cs@.subrange(a as int, cs@.len() as int);
        if a < cs.len() {
            assert(rest[0] == cs@[a as int]);
        }
    }
    a == cs.len() || cs[a] == '#'
}

} // verus!
