use crate::err::{Fault, RulesError, TagFault, TagFlaw};
use crate::text::{chars_of, is_space, space_char, texts};
use crate::types::Tag;
use crate::utils::file::{blank_or_comment, line_blank_or_comment};
use crate::utils::string::{pieces, split, trim, trimmed};
use vstd::prelude::*;

verus! {

/// Whether `s` holds white space.
pub open spec fn has_space(s: Seq<char>) -> bool {
    exists|i: int| 0 <= i < s.len() && is_space(#[trigger] s[i])
}

/// Whether `s` holds the space character.
pub open spec fn has_blank(s: Seq<char>) -> bool {
    exists|i: int| 0 <= i < s.len() && #[trigger] s[i] == ' '
}

/// Whether one of the values, trimmed, holds the space character.
pub open spec fn any_spaced(values: Seq<Seq<char>>) -> bool {
    exists|k: int| 0 <= k < values.len() && has_blank(trim(#[trigger] values[k]))
}

/// `s` without its first character, if it has one.
pub open spec fn rest(s: Seq<char>) -> Seq<char> {
    if s.len() > 0 {
        s.drop_first()
    } else {
        s
    }
}

/// The texts, each trimmed.
pub open spec fn trimmed_all(v: Seq<Seq<char>>) -> Seq<Seq<char>> {
    Seq::new(v.len(), |k: int| trim(v[k]))
}

/// The verdict on the line of a tag file. A blank line or a comment passes.
/// Any other line must hold a `:`; before it, trimmed, stands the name,
/// which begins with `-` and is one word; after it, up to a second `:`
/// which must not be there, stand the values between commas, each one word.
pub open spec fn tag_verdict(line: Seq<char>) -> Result<(), TagFlaw> {
    if blank_or_comment(line) {
        Ok(())
    } else {
        let parts = pieces(line, ':');
        if parts.len() < 2 {
            Err(TagFlaw::NoColon)
        } else {
            let name = trim(parts[0]);
            let extra_colon = parts.len() > 2;
            let no_dash = name.len() > 0 && name[0] != '-';
            let name_spaces = name.len() > 0 && has_space(trim(rest(name)));
            let value_spaces = any_spaced(pieces(parts[1], ','));
            if extra_colon || no_dash || name_spaces || value_spaces {
                Err(TagFlaw::Malformed { line, extra_colon, no_dash, name_spaces, value_spaces })
            } else {
                Ok(())
            }
        }
    }
}

/// The name and the values that the line of a tag file declares: the name
/// without its first character, the values in order, all trimmed.
pub open spec fn tag_of(line: Seq<char>) -> Result<(Seq<char>, Seq<Seq<char>>), TagFlaw> {
    match tag_verdict(line) {
        Err(f) => Err(f),
        Ok(()) => {
            let parts = pieces(line, ':');
            if parts.len() < 2 {
                Err(TagFlaw::NoColon)
            } else {
                Ok((trim(rest(trim(parts[0]))), trimmed_all(pieces(parts[1], ','))))
            }
        },
    }
}

/// Whether `s` holds white space.
fn spaced(s: &str) -> (b: bool)
    ensures
        b == has_space(s@),
{
    let cs = chars_of(s);
    let mut i: usize = 0;
    while i < cs.len()
        invariant
            cs@ == s@,
            i <= cs.len(),
            forall|k: int| 0 <= k < i ==> !is_space(#[trigger] s@[k]),
        decreases cs.len() - i,
    {
        if space_char(cs[i]) {
            return true;
        }
        i = i + 1;
    }
    false
}

/// Whether `s` holds the space character.
pub fn blanked(s: &str) -> (b: bool)
    ensures
        b == has_blank(s@),
{
    let cs = chars_of(s);
    let mut i: usize = 0;
    while i < cs.len()
        invariant
            cs@ == s@,
            i <= cs.len(),
            forall|k: int| 0 <= k < i ==> #[trigger] s@[k] != ' ',
        decreases cs.len() - i,
    {
        if cs[i] == ' ' {
            return true;
        }
        i = i + 1;
    }
    false
}

/// The whole of `s`, trimmed.
pub fn trim_all(s: &str) -> (r: String)
    ensures
        r@ == trim(s@),
{
    let n = s.unicode_len();
    assert(s@.subrange(0, n as int) =~= s@);
    trimmed(s, 0, n)
}

/// `s` without its first character, trimmed.
fn trim_rest(s: &str) -> (r: String)
    ensures
        r@ == trim(rest(s@)),
{
    let n = s.unicode_len();
    if n == 0 {
        trim_all(s)
    } else {
        assert(s@.subrange(1, n as int) =~= s@.drop_first());
        trimmed(s, 1, n)
    }
}

/// The name that the parts of a tag line declare: the first part, trimmed,
/// without its first character, trimmed again.
pub fn get_name_from_tag(parts: &Vec<String>) -> (r: String)
    requires
        parts@.len() >= 1,
    ensures
        r@ == trim(rest(trim(parts@[0]@))),
{
    trim_rest(trim_all(parts[0].as_str()).as_str())
}

/// The values that the parts of a tag line declare: the pieces of the
/// second part between commas, each trimmed.
pub fn get_values_from_tag(parts: &Vec<String>) -> (r: Vec<String>)
    requires
        parts@.len() >= 2,
    ensures
        texts(r@) == trimmed_all(pieces(parts@[1]@, ',')),
{
    let s: &str = parts[1].as_str();
    let n = s.unicode_len();
    assert(s@.subrange(0, n as int) =~= s@);
    let raw = split(s, ',', 0, n);
    let mut r: Vec<String> = Vec::new();
    let mut k: usize = 0;
    while k < raw.len()
        invariant
            k <= raw@.len(),
            r@.len() == k,
            forall|j: int| 0 <= j < k ==> (#[trigger] r@[j])@ == trim(raw@[j]@),
        decreases raw@.len() - k,
    {
        r.push(trim_all(raw[k].as_str()));
        k = k + 1;
    }
    assert(texts(r@) =~= trimmed_all(texts(raw@)));
    r
}

/// Whether one of the values holds the space character.
fn any_blanked(values: &Vec<String>) -> (b: bool)
    ensures
        b == exists|k: int| 0 <= k < values@.len() && has_blank((#[trigger] values@[k])@),
{
    let mut k: usize = 0;
    while k < values.len()
        invariant
            k <= values@.len(),
            forall|j: int| 0 <= j < k ==> !has_blank((#[trigger] values@[j])@),
        decreases values@.len() - k,
    {
        if blanked(values[k].as_str()) {
            return true;
        }
        k = k + 1;
    }
    false
}

/// Whether `r` is the exec form of the verdict `s` on a tag line.
pub open spec fn renders_tag<T>(r: Result<T, RulesError>, s: Result<T, TagFlaw>) -> bool {
    match s {
        Ok(v) => r == Ok::<T, RulesError>(v),
        Err(f) => r is Err && r->Err_0 is TagParseError && r->Err_0.fault() == Fault::Tag(f),
    }
}

/// Validates the line of a tag file.
pub fn validate_tag(line: &str) -> (r: Result<(), RulesError>)
    ensures
        renders_tag(r, tag_verdict(line@)),
{
    if line_blank_or_comment(line) {
        return Ok(());
    }
    let n = line.unicode_len();
    assert(line@.subrange(0, n as int) =~= line@);
    let parts = split(line, ':', 0, n);
    if parts.len() < 2 {
        return Err(RulesError::tag(TagFault::NoColon));
    }
    let ghost ps = pieces(line@, ':');
    assert(ps[0] == parts@[0]@ && ps[1] == parts@[1]@);
    let extra_colon = parts.len() > 2;
    let name = trim_all(parts[0].as_str());
    let name_len = name.as_str().unicode_len();
    let no_dash = name_len > 0 && name.as_str().get_char(0) != '-';
    let name_spaces = name_len > 0 && spaced(trim_rest(name.as_str()).as_str());
    let values = get_values_from_tag(&parts);
    let value_spaces = any_blanked(&values);
    proof {
        let raw = pieces(ps[1], ',');
        assert(texts(values@).len() == raw.len());
        if value_spaces {
            let k = choose|k: int| 0 <= k < values@.len() && has_blank((#[trigger] values@[k])@);
            assert(texts(values@)[k] == trim(raw[k]));
        }
        if any_spaced(raw) {
            let k = choose|k: int| 0 <= k < raw.len() && has_blank(trim(#[trigger] raw[k]));
            assert(texts(values@)[k] == values@[k]@);
        }
    }
    if extra_colon || no_dash || name_spaces || value_spaces {
        return Err(
            RulesError::tag(
                TagFault::Malformed {
                    line: line.to_owned(),
                    extra_colon,
                    no_dash,
                    name_spaces,
                    value_spaces,
                },
            ),
        );
    }
    Ok(())
}

/// The name and the values that the line of a tag file declares.
pub fn get_name_and_values_from_tag(line: &str) -> (r: Result<(String, Vec<String>), RulesError>)
    ensures
        match tag_of(line@) {
            Ok((name, values)) => r is Ok && r->Ok_0.0@ == name && texts(r->Ok_0.1@) == values,
            Err(f) => r is Err && r->Err_0 is TagParseError && r->Err_0.fault() == Fault::Tag(f),
        },
{
    match validate_tag(line) {
        Ok(()) => {},
        Err(e) => {
            return Err(e);
        },
    }
    let n = line.unicode_len();
    assert(line@.subrange(0, n as int) =~= line@);
    let parts = split(line, ':', 0, n);
    if parts.len() < 2 {
        return Err(RulesError::tag(TagFault::NoColon));
    }
    let ghost ps = pieces(line@, ':');
    assert(ps[0] == parts@[0]@ && ps[1] == parts@[1]@);
    let name = get_name_from_tag(&parts);
    let values = get_values_from_tag(&parts);
    Ok((name, values))
}

/// What a tag holds, as a mathematical value.
pub open spec fn tag_view(tag: Tag) -> (Seq<char>, Seq<Seq<char>>) {
    (tag.name@, texts(tag.values@))
}

/// What the tags hold, place by place.
pub open spec fn tag_views(tags: Seq<Tag>) -> Seq<(Seq<char>, Seq<Seq<char>>)> {
    Seq::new(tags.len(), |i: int| tag_view(tags[i]))
}

/// The tags that the first `n` lines of a tag file declare, in order: blank
/// lines and comments declare nothing, and the first line at fault ends it.
pub open spec fn declared(lines: Seq<Seq<char>>, n: nat) -> Result<
    Seq<(Seq<char>, Seq<Seq<char>>)>,
    TagFlaw,
>
    decreases n,
{
    if n == 0 {
        Ok(seq![])
    } else {
        match declared(lines, (n - 1) as nat) {
            Err(f) => Err(f),
            Ok(before) => if blank_or_comment(lines[n - 1]) {
                Ok(before)
            } else {
                match tag_of(lines[n - 1]) {
                    Err(f) => Err(f),
                    Ok(tag) => Ok(before.push(tag)),
                }
            },
        }
    }
}

/// Once a line has failed, the lines after it change nothing.
pub proof fn lemma_declared_err(lines: Seq<Seq<char>>, k: nat, n: nat)
    requires
        k <= n,
        declared(lines, k) is Err,
    ensures
        declared(lines, n) == declared(lines, k),
    decreases n,
{
    if k < n {
        lemma_declared_err(lines, k, (n - 1) as nat);
    }
}

/// The tags that the lines of tag files declare.
pub fn parse_tags(lines: &Vec<String>) -> (r: Result<Vec<Tag>, RulesError>)
    ensures
        match declared(texts(lines@), lines@.len()) {
            Ok(tags) => r is Ok && tag_views(r->Ok_0@) == tags,
            Err(f) => r is Err && r->Err_0 is TagParseError && r->Err_0.fault() == Fault::Tag(f),
        },
{
    let ghost all = texts(lines@);
    let mut tags: Vec<Tag> = Vec::new();
    let mut i: usize = 0;
    assert(tag_views(tags@) =~= seq![]);
    while i < lines.len()
        invariant
            all == texts(lines@),
            i <= lines@.len(),
            declared(all, i as nat) == Ok::<Seq<(Seq<char>, Seq<Seq<char>>)>, TagFlaw>(
                tag_views(tags@),
            ),
        decreases lines@.len() - i,
    {
        assert(all[i as int] == lines@[i as int]@);
        let line: &str = lines[i].as_str();
        if !line_blank_or_comment(line) {
            match get_name_and_values_from_tag(line) {
                Ok((name, values)) => {
                    let ghost before = tag_views(tags@);
                    tags.push(Tag { name, values });
                    assert(tag_views(tags@) =~= before.push((name@, texts(values@))));
                },
                Err(e) => {
                    proof {
                        lemma_declared_err(all, (i + 1) as nat, lines@.len());
                    }
                    return Err(e);
                },
            }
        }
        i = i + 1;
    }
    Ok(tags)
}

} // verus!
