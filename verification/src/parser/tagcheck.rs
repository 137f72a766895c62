use crate::err::{Fault, RuleFault, RulesError};
use crate::err::renders;
use crate::parser::lexer::opt_text;
use crate::parser::syntax::{is_paren, mapped_view, Mapped};
use crate::parser::types::{MappedRuleTokens, TokenType};
use crate::text::{is_sym, lowercase, texts, to_lower};
use crate::types::{holds, names, tag_map, Tag, TagMap};
use vstd::prelude::*;

verus! {

/// A registry of tags: each declared name with the set of its values.
pub type Registry = TagMap;

/// Whether `folded` holds the tags of `tags` in lower case, place by place.
pub open spec fn folds(folded: Seq<Tag>, tags: Seq<Tag>) -> bool {
    &&& folded.len() == tags.len()
    &&& forall|i: int|
        0 <= i < tags.len() ==> {
            &&& (#[trigger] folded[i]).name@ == lowercase(tags[i].name@)
            &&& folded[i].values@.len() == tags[i].values@.len()
            &&& forall|j: int|
                0 <= j < tags[i].values@.len() ==> (#[trigger] folded[i].values@[j])@ == lowercase(
                    tags[i].values@[j]@,
                )
        }
}

/// Whether some tag of `tags` has the lower-case name `name`.
pub open spec fn declares(tags: Seq<Tag>, name: Seq<char>) -> bool {
    exists|i: int| 0 <= i < tags.len() && lowercase((#[trigger] tags[i]).name@) == name
}

/// Whether some tag of `tags` with the lower-case name `name` has a value
/// whose lower-case form is `value`.
pub open spec fn allows(tags: Seq<Tag>, name: Seq<char>, value: Seq<char>) -> bool {
    exists|i: int, j: int|
        0 <= i < tags.len() && 0 <= j < tags[i].values@.len() && lowercase(tags[i].name@) == name
            && lowercase(#[trigger] tags[i].values@[j]@) == value
}

/// The registry that `tags` declare, names and values in lower case.
pub open spec fn registry_of(tags: Seq<Tag>) -> Registry {
    Map::new(
        |name: Seq<char>| declares(tags, name),
        |name: Seq<char>| Set::new(|value: Seq<char>| allows(tags, name, value)),
    )
}

/// The tag check reads one token, whose lower-case form is `key`, with
/// `current` the tag name last read.
pub open spec fn tags_step(reg: Registry, current: Option<Seq<char>>, token: Mapped, key: Seq<
    char,
>) -> Result<Option<Seq<char>>, Fault> {
    if token.1 == TokenType::TagName {
        if is_paren(token.0) {
            Ok(current)
        } else if !reg.dom().contains(key) {
            Err(Fault::UnknownTagName(key))
        } else {
            Ok(Some(key))
        }
    } else if token.1 == TokenType::TagValue {
        match current {
            None => Err(Fault::OrphanTagValue(key)),
            Some(name) => if reg.dom().contains(name) && reg[name].contains(key) {
                Ok(current)
            } else {
                Err(Fault::UnknownTagValue(key, name))
            },
        }
    } else {
        Ok(current)
    }
}

/// The tag check after the first `n` tokens: the tag name last read, or the
/// first fault.
pub open spec fn tags_scan(reg: Registry, m: Seq<Mapped>, keys: Seq<Seq<char>>, n: nat) -> Result<
    Option<Seq<char>>,
    Fault,
>
    decreases n,
{
    if n == 0 {
        Ok(None)
    } else {
        match tags_scan(reg, m, keys, (n - 1) as nat) {
            Err(f) => Err(f),
            Ok(current) => tags_step(reg, current, m[n - 1], keys[n - 1]),
        }
    }
}

/// The verdict of the tag check: every tag name is declared, and every tag
/// value is declared for the tag name before it.
pub open spec fn tags_check(reg: Registry, m: Seq<Mapped>, keys: Seq<Seq<char>>) -> Result<
    (),
    Fault,
> {
    match tags_scan(reg, m, keys, m.len()) {
        Err(f) => Err(f),
        Ok(_) => Ok(()),
    }
}

/// Once the tag check has failed it stays failed.
pub proof fn lemma_tags_scan_err(reg: Registry, m: Seq<Mapped>, keys: Seq<Seq<char>>, k: nat, n: nat)
    requires
        k <= n,
        tags_scan(reg, m, keys, k) is Err,
    ensures
        tags_scan(reg, m, keys, n) == tags_scan(reg, m, keys, k),
    decreases n,
{
    if k < n {
        lemma_tags_scan_err(reg, m, keys, k, (n - 1) as nat);
    }
}

/// The lower-case copy of a list of tags declares what the list declares.
pub proof fn lemma_folded_registry(folded: Seq<Tag>, tags: Seq<Tag>)
    requires
        folds(folded, tags),
    ensures
        tag_map(folded) == registry_of(tags),
{
    let a = tag_map(folded);
    let b = registry_of(tags);
    assert forall|name: Seq<char>| a.dom().contains(name) == b.dom().contains(name) by {
        if names(folded, name) {
            let i = choose|i: int| 0 <= i < folded.len() && (#[trigger] folded[i]).name@ == name;
            assert(lowercase(tags[i].name@) == name);
        }
        if declares(tags, name) {
            let i = choose|i: int|
                0 <= i < tags.len() && lowercase((#[trigger] tags[i]).name@) == name;
            assert(folded[i].name@ == name);
        }
    }
    assert forall|name: Seq<char>| a.dom().contains(name) implies a[name] == b[name] by {
        assert forall|value: Seq<char>| a[name].contains(value) == b[name].contains(value) by {
            if holds(folded, name, value) {
                let (i, j) = choose|i: int, j: int|
                    0 <= i < folded.len() && 0 <= j < folded[i].values@.len() && folded[i].name@
                        == name && #[trigger] folded[i].values@[j]@ == value;
                assert(lowercase(tags[i].values@[j]@) == value);
            }
            if allows(tags, name, value) {
                let (i, j) = choose|i: int, j: int|
                    0 <= i < tags.len() && 0 <= j < tags[i].values@.len() && lowercase(
                        tags[i].name@,
                    ) == name && lowercase(#[trigger] tags[i].values@[j]@) == value;
                assert(folded[i].values@[j]@ == value);
            }
        }
        assert(a[name] =~= b[name]);
    }
    assert(a =~= b);
}

/// Whether two lists of tags read the same: the same names and values,
/// place by place.
pub open spec fn same_tags(a: Seq<Tag>, b: Seq<Tag>) -> bool {
    &&& a.len() == b.len()
    &&& forall|i: int|
        0 <= i < a.len() ==> {
            &&& (#[trigger] a[i]).name@ == b[i].name@
            &&& a[i].values@.len() == b[i].values@.len()
            &&& forall|j: int|
                0 <= j < a[i].values@.len() ==> (#[trigger] a[i].values@[j])@ == b[i].values@[j]@
        }
}

/// Lists of tags that read the same declare the same, and hold the same.
pub proof fn lemma_same_registry(a: Seq<Tag>, b: Seq<Tag>)
    requires
        same_tags(a, b),
    ensures
        registry_of(a) == registry_of(b),
        tag_map(a) == tag_map(b),
{
    lemma_registry_case(a, b);
    let ma = tag_map(a);
    let mb = tag_map(b);
    assert forall|name: Seq<char>| ma.dom().contains(name) == mb.dom().contains(name) by {
        if names(a, name) {
            let i = choose|i: int| 0 <= i < a.len() && (#[trigger] a[i]).name@ == name;
            assert(b[i].name@ == name);
        }
        if names(b, name) {
            let i = choose|i: int| 0 <= i < b.len() && (#[trigger] b[i]).name@ == name;
            assert(a[i].name@ == name);
        }
    }
    assert forall|name: Seq<char>| ma.dom().contains(name) implies ma[name] == mb[name] by {
        assert forall|value: Seq<char>| ma[name].contains(value) == mb[name].contains(value) by {
            if holds(a, name, value) {
                let (i, j) = choose|i: int, j: int|
                    0 <= i < a.len() && 0 <= j < a[i].values@.len() && a[i].name@ == name
                        && #[trigger] a[i].values@[j]@ == value;
                assert(b[i].values@[j]@ == value);
            }
            if holds(b, name, value) {
                let (i, j) = choose|i: int, j: int|
                    0 <= i < b.len() && 0 <= j < b[i].values@.len() && b[i].name@ == name
                        && #[trigger] b[i].values@[j]@ == value;
                assert(a[i].values@[j]@ == value);
            }
        }
        assert(ma[name] =~= mb[name]);
    }
    assert(ma =~= mb);
}

/// Whether two lists of tags read the same in lower case, place by place.
pub open spec fn same_folded(a: Seq<Tag>, b: Seq<Tag>) -> bool {
    &&& a.len() == b.len()
    &&& forall|i: int|
        0 <= i < a.len() ==> {
            &&& lowercase((#[trigger] a[i]).name@) == lowercase(b[i].name@)
            &&& a[i].values@.len() == b[i].values@.len()
            &&& forall|j: int|
                0 <= j < a[i].values@.len() ==> lowercase((#[trigger] a[i].values@[j])@)
                    == lowercase(b[i].values@[j]@)
        }
}

/// The registry goes by the lower-case forms alone: lists of tags that
/// differ in nothing but the case of their names and values declare the
/// same.
pub proof fn lemma_registry_case(a: Seq<Tag>, b: Seq<Tag>)
    requires
        same_folded(a, b),
    ensures
        registry_of(a) == registry_of(b),
{
    let ra = registry_of(a);
    let rb = registry_of(b);
    assert forall|name: Seq<char>| ra.dom().contains(name) == rb.dom().contains(name) by {
        if declares(a, name) {
            let i = choose|i: int| 0 <= i < a.len() && lowercase((#[trigger] a[i]).name@) == name;
            assert(lowercase(b[i].name@) == name);
        }
        if declares(b, name) {
            let i = choose|i: int| 0 <= i < b.len() && lowercase((#[trigger] b[i]).name@) == name;
            assert(lowercase(a[i].name@) == name);
        }
    }
    assert forall|name: Seq<char>| ra.dom().contains(name) implies ra[name] == rb[name] by {
        assert forall|value: Seq<char>| ra[name].contains(value) == rb[name].contains(value) by {
            if allows(a, name, value) {
                let (i, j) = choose|i: int, j: int|
                    0 <= i < a.len() && 0 <= j < a[i].values@.len() && lowercase(a[i].name@)
                        == name && lowercase(#[trigger] a[i].values@[j]@) == value;
                assert(lowercase(b[i].values@[j]@) == value);
            }
            if allows(b, name, value) {
                let (i, j) = choose|i: int, j: int|
                    0 <= i < b.len() && 0 <= j < b[i].values@.len() && lowercase(b[i].name@)
                        == name && lowercase(#[trigger] b[i].values@[j]@) == value;
                assert(lowercase(a[i].values@[j]@) == value);
            }
        }
        assert(ra[name] =~= rb[name]);
    }
    assert(ra =~= rb);
}

/// A copy of a list of strings.
pub fn copy_list(list: &Vec<String>) -> (r: Vec<String>)
    ensures
        r@.len() == list@.len(),
        forall|j: int| 0 <= j < list@.len() ==> (#[trigger] r@[j])@ == list@[j]@,
{
    let mut r: Vec<String> = Vec::new();
    let mut j: usize = 0;
    while j < list.len()
        invariant
            j <= list@.len(),
            r@.len() == j,
            forall|k: int| 0 <= k < j ==> (#[trigger] r@[k])@ == list@[k]@,
        decreases list@.len() - j,
    {
        r.push(list[j].clone());
        j = j + 1;
    }
    r
}

/// A copy of a list of tags.
pub fn copy_tags(tags: &Vec<Tag>) -> (r: Vec<Tag>)
    ensures
        same_tags(r@, tags@),
{
    let mut r: Vec<Tag> = Vec::new();
    let mut i: usize = 0;
    while i < tags.len()
        invariant
            i <= tags@.len(),
            r@.len() == i,
            same_tags(r@, tags@.take(i as int)),
        decreases tags@.len() - i,
    {
        let tag = Tag { name: tags[i].name.clone(), values: copy_list(&tags[i].values) };
        r.push(tag);
        i = i + 1;
    }
    assert(tags@.take(tags@.len() as int) =~= tags@);
    r
}

/// Whether `name` occurs among `tags`.
pub fn tag_named(tags: &Vec<Tag>, name: &String) -> (b: bool)
    ensures
        b == names(tags@, name@),
{
    let mut i: usize = 0;
    while i < tags.len()
        invariant
            i <= tags.len(),
            forall|k: int| 0 <= k < i ==> (#[trigger] tags@[k]).name@ != name@,
        decreases tags.len() - i,
    {
        if tags[i].name == *name {
            return true;
        }
        i = i + 1;
    }
    false
}

/// Whether the strings of `list` include `text`.
pub fn lists(list: &Vec<String>, text: &String) -> (b: bool)
    ensures
        b == exists|j: int| 0 <= j < list@.len() && (#[trigger] list@[j])@ == text@,
{
    let mut j: usize = 0;
    while j < list.len()
        invariant
            j <= list.len(),
            forall|k: int| 0 <= k < j ==> (#[trigger] list@[k])@ != text@,
        decreases list.len() - j,
    {
        if list[j] == *text {
            return true;
        }
        j = j + 1;
    }
    false
}

/// Whether, among `tags`, the tag `name` holds `value`.
pub fn tag_holds(tags: &Vec<Tag>, name: &String, value: &String) -> (b: bool)
    ensures
        b == holds(tags@, name@, value@),
{
    let mut i: usize = 0;
    while i < tags.len()
        invariant
            i <= tags.len(),
            forall|k: int, j: int|
                0 <= k < i && 0 <= j < tags@[k].values@.len() && tags@[k].name@ == name@
                    ==> #[trigger] tags@[k].values@[j]@ != value@,
        decreases tags.len() - i,
    {
        if tags[i].name == *name && lists(&tags[i].values, value) {
            return true;
        }
        i = i + 1;
    }
    false
}

/// Checks the tokens against the tags of `registry`, in which names and
/// values are compared as they stand. `keys` holds, for each token, the text
/// to look up.
pub fn check_tags(registry: &Vec<Tag>, tokens: &MappedRuleTokens, keys: &Vec<String>) -> (r: Result<
    (),
    RulesError,
>)
    requires
        keys@.len() == tokens@.len(),
    ensures
        renders(r, tags_check(tag_map(registry@), mapped_view(tokens@), texts(keys@))),
{
    let ghost reg = tag_map(registry@);
    let ghost m = mapped_view(tokens@);
    let ghost ks = texts(keys@);
    let mut current: Option<String> = None;
    let n = tokens.len();
    let mut i: usize = 0;
    while i < n
        invariant
            reg == tag_map(registry@),
            m == mapped_view(tokens@),
            ks == texts(keys@),
            n == tokens.len(),
            keys@.len() == n,
            i <= n,
            tags_scan(reg, m, ks, i as nat) == Ok::<Option<Seq<char>>, Fault>(
                opt_text(current),
            ),
        decreases n - i,
    {
        let kind: TokenType = tokens[i].1;
        let text: &String = &tokens[i].0;
        let key: &String = &keys[i];
        assert(m[i as int].0 == text@ && m[i as int].1 == kind && ks[i as int] == key@);
        proof {
            if tags_step(reg, opt_text(current), m[i as int], ks[i as int])
                is Err {
                lemma_tags_scan_err(reg, m, ks, (i + 1) as nat, n as nat);
            }
        }
        if kind == TokenType::TagName {
            if !(is_sym(text.as_str(), '(') || is_sym(text.as_str(), ')')) {
                if !tag_named(registry, key) {
                    return Err(RulesError::bare(RuleFault::UnknownTagName(key.clone())));
                }
                current = Some(key.clone());
            }
        } else if kind == TokenType::TagValue {
            match &current {
                None => {
                    return Err(RulesError::bare(RuleFault::OrphanTagValue(key.clone())));
                },
                Some(name) => {
                    if !tag_holds(registry, name, key) {
                        return Err(
                            RulesError::bare(RuleFault::UnknownTagValue(key.clone(), name.clone())),
                        );
                    }
                },
            }
        }
        i = i + 1;
    }
    Ok(())
}

/// The lower-case forms of `list`, place by place.
pub fn fold_list(list: &Vec<String>) -> (r: Vec<String>)
    ensures
        r@.len() == list@.len(),
        forall|j: int| 0 <= j < list@.len() ==> (#[trigger] r@[j])@ == lowercase(list@[j]@),
{
    let mut r: Vec<String> = Vec::new();
    let mut j: usize = 0;
    while j < list.len()
        invariant
            j <= list.len(),
            r@.len() == j,
            forall|k: int| 0 <= k < j ==> (#[trigger] r@[k])@ == lowercase(list@[k]@),
        decreases list.len() - j,
    {
        r.push(to_lower(list[j].as_str()));
        j = j + 1;
    }
    r
}

/// The tags in lower case, place by place.
pub fn fold_tags(tags: &Vec<Tag>) -> (r: Vec<Tag>)
    ensures
        folds(r@, tags@),
{
    let mut r: Vec<Tag> = Vec::new();
    let mut i: usize = 0;
    while i < tags.len()
        invariant
            i <= tags.len(),
            r@.len() == i,
            folds(r@, tags@.take(i as int)),
        decreases tags.len() - i,
    {
        let tag = Tag { name: to_lower(tags[i].name.as_str()), values: fold_list(&tags[i].values) };
        r.push(tag);
        i = i + 1;
    }
    assert(tags@.take(tags@.len() as int) =~= tags@);
    r
}

} // verus!
