use crate::err::{RulesError, TagFault, TagFlaw};
use crate::parser::tags::{
    blanked, get_name_and_values_from_tag, has_blank, renders_tag, tag_of, trim_all,
};
use crate::text::{chars_of, texts};
use crate::utils::file::{blank_or_comment, line_blank_or_comment};
use crate::utils::string::trim;
use vstd::prelude::*;
use vstd::string::*;

verus! {

/// Whether `s` ends with `suffix`.
pub open spec fn ends_with(s: Seq<char>, suffix: Seq<char>) -> bool {
    s.len() >= suffix.len() && s.subrange(s.len() - suffix.len(), s.len() as int) == suffix
}

/// A file name with the extension, which is added where the name does not
/// end with it.
pub open spec fn with_extension(name: Seq<char>, extension: Seq<char>) -> Seq<char> {
    if ends_with(name, extension) {
        name
    } else {
        name + extension
    }
}

/// Gives a file name its extension, unless it ends with it.
pub fn extend_filename(file_name: &str, extension: &str) -> (r: String)
    ensures
        r@ == with_extension(file_name@, extension@),
{
    let name = chars_of(file_name);
    let ext = chars_of(extension);
    let mut ends = name.len() >= ext.len();
    if ends {
        let from = name.len() - ext.len();
        let mut k: usize = 0;
        while k < ext.len()
            invariant
                name@ == file_name@,
                ext@ == extension@,
                from + ext.len() == name.len(),
                k <= ext.len(),
                forall|j: int| 0 <= j < k ==> name@[from + j] == ext@[j],
            decreases ext.len() - k,
        {
            if name[from + k] != ext[k] {
                assert(name@.subrange(from as int, name.len() as int)[k as int] != ext@[k as int]);
                assert(!ends_with(file_name@, extension@));
                let mut r = file_name.to_owned();
                r.append(extension);
                return r;
            }
            k = k + 1;
        }
        assert(name@.subrange(from as int, name.len() as int) =~= ext@);
        file_name.to_owned()
    } else {
        let mut r = file_name.to_owned();
        r.append(extension);
        r
    }
}

/// The name of a tag file: it ends with `.tags`.
pub fn normalize_filename(file_name: &str) -> (r: String)
    ensures
        r@ == with_extension(file_name@, ".tags"@),
{
    extend_filename(file_name, ".tags")
}

/// The texts with `", "` between them.
pub open spec fn joined(v: Seq<Seq<char>>) -> Seq<char>
    decreases v.len(),
{
    if v.len() == 0 {
        seq![]
    } else if v.len() == 1 {
        v[0]
    } else {
        joined(v.drop_last()) + ", "@ + v.last()
    }
}

/// The texts with `", "` between them.
pub fn join(values: &Vec<String>) -> (r: String)
    ensures
        r@ == joined(texts(values@)),
{
    let ghost all = texts(values@);
    let mut r = String::new();
    let mut k: usize = 0;
    assert(all.take(0) =~= seq![]);
    while k < values.len()
        invariant
            all == texts(values@),
            k <= values@.len(),
            r@ == joined(all.take(k as int)),
        decreases values@.len() - k,
    {
        assert(all.take(k + 1).drop_last() =~= all.take(k as int));
        assert(all.take(k + 1).last() == values@[k as int]@);
        if k > 0 {
            r.append(", ");
        }
        r.append(values[k].as_str());
        assert(r@ =~= joined(all.take(k + 1)));
        k = k + 1;
    }
    assert(all.take(values@.len() as int) =~= all);
    r
}

/// The verdict on a tag to write: its name is not blank and holds no
/// space, it has a value, and no value holds a space. The first value at
/// fault is named.
pub open spec fn tag_input_verdict(name: Seq<char>, values: Seq<Seq<char>>) -> Result<(), TagFlaw> {
    if trim(name).len() == 0 {
        Err(TagFlaw::EmptyName)
    } else if values.len() == 0 {
        Err(TagFlaw::NoValues)
    } else if has_blank(name) {
        Err(TagFlaw::NameHasSpaces)
    } else if exists|k: int| 0 <= k < values.len() && has_blank(#[trigger] values[k]) {
        Err(TagFlaw::ValueHasSpaces(values[first_blanked(values, 0)]))
    } else {
        Ok(())
    }
}

/// The place of the first value at or after `from` that holds a space.
pub open spec fn first_blanked(values: Seq<Seq<char>>, from: int) -> int
    decreases values.len() - from,
{
    if from >= values.len() || has_blank(values[from]) {
        from
    } else {
        first_blanked(values, from + 1)
    }
}

/// Where the first value with a space stands, given that none stands
/// before `at`.
proof fn lemma_first_blanked(values: Seq<Seq<char>>, from: int, at: int)
    requires
        0 <= from <= at < values.len(),
        forall|k: int| from <= k < at ==> !has_blank(#[trigger] values[k]),
        has_blank(values[at]),
    ensures
        first_blanked(values, from) == at,
    decreases at - from,
{
    if from < at {
        lemma_first_blanked(values, from + 1, at);
    }
}

/// Checks a tag before it is written.
pub fn check_tag(tag_name: &str, tag_values: &Vec<String>) -> (r: Result<(), RulesError>)
    ensures
        renders_tag(r, tag_input_verdict(tag_name@, texts(tag_values@))),
{
    let ghost all = texts(tag_values@);
    if trim_all(tag_name).as_str().unicode_len() == 0 {
        return Err(RulesError::tag(TagFault::EmptyName));
    }
    if tag_values.len() == 0 {
        return Err(RulesError::tag(TagFault::NoValues));
    }
    if blanked(tag_name) {
        return Err(RulesError::tag(TagFault::NameHasSpaces));
    }
    let mut k: usize = 0;
    while k < tag_values.len()
        invariant
            all == texts(tag_values@),
            trim(tag_name@).len() != 0,
            tag_values@.len() != 0,
            !has_blank(tag_name@),
            k <= tag_values@.len(),
            forall|j: int| 0 <= j < k ==> !has_blank(#[trigger] all[j]),
        decreases tag_values@.len() - k,
    {
        assert(all[k as int] == tag_values@[k as int]@);
        if blanked(tag_values[k].as_str()) {
            proof {
                assert(has_blank(all[k as int]));
                lemma_first_blanked(all, 0, k as int);
            }
            return Err(RulesError::tag(TagFault::ValueHasSpaces(tag_values[k].clone())));
        }
        k = k + 1;
    }
    Ok(())
}

/// Whether a line of a tag file declares the tag `name`, trimmed.
pub open spec fn declares_tag(line: Seq<char>, name: Seq<char>) -> bool {
    !blank_or_comment(line) && tag_of(line) is Ok && trim(tag_of(line)->Ok_0.0) == trim(name)
}

/// The place of the first line at or after `from` that declares `name`.
pub open spec fn first_declaring(lines: Seq<Seq<char>>, name: Seq<char>, from: int) -> int
    decreases lines.len() - from,
{
    if from >= lines.len() || declares_tag(lines[from], name) {
        from
    } else {
        first_declaring(lines, name, from + 1)
    }
}

/// Where the first line that declares the tag stands, given that none
/// stands before `at`.
proof fn lemma_first_declaring(lines: Seq<Seq<char>>, name: Seq<char>, from: int, at: int)
    requires
        0 <= from <= at <= lines.len(),
        forall|k: int| from <= k < at ==> !declares_tag(#[trigger] lines[k], name),
        at < lines.len() ==> declares_tag(lines[at], name),
    ensures
        first_declaring(lines, name, from) == at,
    decreases at - from,
{
    if from < at {
        lemma_first_declaring(lines, name, from + 1, at);
    }
}

/// The lines of a tag file after a tag is written to it: the values are
/// added, after `", "`, to the first line that declares the tag; where no
/// line does, a line that declares it is added at the end.
pub open spec fn merged(lines: Seq<Seq<char>>, name: Seq<char>, values: Seq<Seq<char>>) -> Seq<
    Seq<char>,
> {
    let at = first_declaring(lines, name, 0);
    if 0 <= at < lines.len() {
        lines.update(at, lines[at] + ", "@ + joined(values))
    } else {
        lines.push("- "@ + trim(name) + ": "@ + joined(values))
    }
}

/// Writes a tag into the lines of a tag file.
pub fn merge_tag(lines: Vec<String>, tag_name: &str, tag_values: &Vec<String>) -> (r: Vec<String>)
    ensures
        texts(r@) == merged(texts(lines@), tag_name@, texts(tag_values@)),
{
    let ghost all = texts(lines@);
    let mut out = lines;
    let wanted = trim_all(tag_name);
    let list = join(tag_values);
    let mut i: usize = 0;
    while i < out.len()
        invariant
            all == texts(lines@),
            out@ == lines@,
            wanted@ == trim(tag_name@),
            list@ == joined(texts(tag_values@)),
            i <= out@.len(),
            forall|k: int| 0 <= k < i ==> !declares_tag(#[trigger] all[k], tag_name@),
        decreases out@.len() - i,
    {
        assert(all[i as int] == out@[i as int]@);
        let found = !line_blank_or_comment(out[i].as_str()) && match get_name_and_values_from_tag(
            out[i].as_str(),
        ) {
            Ok(tag) => trim_all(tag.0.as_str()) == wanted,
            Err(_) => false,
        };
        assert(found == declares_tag(all[i as int], tag_name@));
        if found {
            proof {
                lemma_first_declaring(all, tag_name@, 0, i as int);
            }
            let mut line = out[i].clone();
            line.append(", ");
            line.append(list.as_str());
            out.set(i, line);
            assert(texts(out@) =~= all.update(i as int, all[i as int] + ", "@ + list@));
            return out;
        }
        i = i + 1;
    }
    proof {
        lemma_first_declaring(all, tag_name@, 0, all.len() as int);
    }
    let mut line = "- ".to_owned();
    line.append(wanted.as_str());
    line.append(": ");
    line.append(list.as_str());
    out.push(line);
    assert(texts(out@) =~= all.push("- "@ + trim(tag_name@) + ": "@ + list@));
    out
}

} // verus!
