use crate::api::write::tag::{extend_filename, with_extension};
use crate::err::{renders_tokens, Fault, RuleFault, RulesError};
use crate::parser::tags::trim_all;
use crate::text::texts;
use crate::utils::string::trim;
use vstd::prelude::*;

verus! {

/// The name of a rule file: it ends with `.rules`.
pub fn normalize_filename(file_name: &str) -> (r: String)
    ensures
        r@ == with_extension(file_name@, ".rules"@),
{
    extend_filename(file_name, ".rules")
}

/// Whether one of the lines, trimmed, is the trimmed rule.
pub open spec fn holds_rule(lines: Seq<Seq<char>>, rule: Seq<char>) -> bool {
    exists|i: int| 0 <= i < lines.len() && trim(#[trigger] lines[i]) == trim(rule)
}

/// The lines of a rule file after a rule is written to it: the trimmed
/// rule is added at the end, unless a line holds it already.
pub open spec fn appended(lines: Seq<Seq<char>>, rule: Seq<char>) -> Result<Seq<Seq<char>>, Fault> {
    if holds_rule(lines, rule) {
        Err(Fault::DuplicateRule)
    } else {
        Ok(lines.push(trim(rule)))
    }
}

/// Writes a rule into the lines of a rule file.
pub fn append_rule(lines: Vec<String>, rule: &str) -> (r: Result<Vec<String>, RulesError>)
    ensures
        renders_tokens(r, appended(texts(lines@), rule@)),
{
    let ghost all = texts(lines@);
    let mut out = lines;
    let wanted = trim_all(rule);
    let mut i: usize = 0;
    while i < out.len()
        invariant
            all == texts(lines@),
            out@ == lines@,
            wanted@ == trim(rule@),
            i <= out@.len(),
            forall|k: int| 0 <= k < i ==> trim(#[trigger] all[k]) != trim(rule@),
        decreases out@.len() - i,
    {
        assert(all[i as int] == out@[i as int]@);
        if trim_all(out[i].as_str()) == wanted {
            assert(trim(all[i as int]) == trim(rule@));
            return Err(RulesError::bare(RuleFault::DuplicateRule));
        }
        i = i + 1;
    }
    out.push(wanted);
    assert(texts(out@) =~= all.push(trim(rule@)));
    Ok(out)
}

} // verus!
