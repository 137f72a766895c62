use crate::api::write::rule::{append_rule, appended};
use crate::api::write::tag::{check_tag, merge_tag, merged, tag_input_verdict};
use crate::err::{renders_in, Fault, RulesError};
use crate::parser::rules::{validation, RuleParser};
use crate::parser::tagcheck::{
    copy_list, copy_tags, lemma_same_registry, registry_of, same_tags,
};
use crate::parser::tags::{declared, parse_tags, tag_view, tag_views};
use crate::text::texts;
use crate::types::Tag;
use vstd::prelude::*;

verus! {

/// What a list of tags holds after the tag `name` is set to `values`: the
/// first tag of that name has the new values, and where there is none the
/// tag is added at the end.
pub open spec fn put(
    tags: Seq<(Seq<char>, Seq<Seq<char>>)>,
    name: Seq<char>,
    values: Seq<Seq<char>>,
) -> Seq<(Seq<char>, Seq<Seq<char>>)> {
    let at = first_named(tags, name, 0);
    if 0 <= at < tags.len() {
        tags.update(at, (name, values))
    } else {
        tags.push((name, values))
    }
}

/// The place of the first tag at or after `from` with the name `name`.
pub open spec fn first_named(tags: Seq<(Seq<char>, Seq<Seq<char>>)>, name: Seq<char>, from: int) -> int
    decreases tags.len() - from,
{
    if from >= tags.len() || tags[from].0 == name {
        from
    } else {
        first_named(tags, name, from + 1)
    }
}

/// Where the first tag of the name stands, given that none stands before
/// `at`.
proof fn lemma_first_named(tags: Seq<(Seq<char>, Seq<Seq<char>>)>, name: Seq<char>, from: int, at: int)
    requires
        0 <= from <= at <= tags.len(),
        forall|k: int| from <= k < at ==> (#[trigger] tags[k]).0 != name,
        at < tags.len() ==> tags[at].0 == name,
    ensures
        first_named(tags, name, from) == at,
    decreases at - from,
{
    if from < at {
        lemma_first_named(tags, name, from + 1, at);
    }
}

/// What a list of tags holds after the first `n` of `more` are set, in order.
pub open spec fn put_all(
    tags: Seq<(Seq<char>, Seq<Seq<char>>)>,
    more: Seq<(Seq<char>, Seq<Seq<char>>)>,
    n: nat,
) -> Seq<(Seq<char>, Seq<Seq<char>>)>
    decreases n,
{
    if n == 0 {
        tags
    } else {
        put(put_all(tags, more, (n - 1) as nat), more[n - 1].0, more[n - 1].1)
    }
}

/// Lists of tags that read the same hold the same.
pub proof fn lemma_same_views(a: Seq<Tag>, b: Seq<Tag>)
    requires
        same_tags(a, b),
    ensures
        tag_views(a) == tag_views(b),
{
    assert forall|i: int| 0 <= i < a.len() implies tag_view(a[i]) == tag_view(b[i]) by {
        assert(texts(a[i].values@) =~= texts(b[i].values@));
    }
    assert(tag_views(a) =~= tag_views(b));
}

/// Whether no two tags have the same name.
pub open spec fn distinct(tags: Seq<(Seq<char>, Seq<Seq<char>>)>) -> bool {
    forall|i: int, j: int|
        0 <= i < j < tags.len() ==> (#[trigger] tags[i]).0 != (#[trigger] tags[j]).0
}

/// Setting a tag keeps the names distinct.
pub proof fn lemma_put_distinct(
    tags: Seq<(Seq<char>, Seq<Seq<char>>)>,
    name: Seq<char>,
    values: Seq<Seq<char>>,
)
    requires
        distinct(tags),
    ensures
        distinct(put(tags, name, values)),
{
    let at = first_named(tags, name, 0);
    lemma_first_named_is_first(tags, name, 0);
    let after = put(tags, name, values);
    assert forall|i: int, j: int| 0 <= i < j < after.len() implies (#[trigger] after[i]).0 != (
    #[trigger] after[j]).0 by {
        if 0 <= at < tags.len() {
            assert(after[i].0 == tags[i].0);
            assert(after[j].0 == tags[j].0);
        } else if j < tags.len() {
            assert(after[i] == tags[i] && after[j] == tags[j]);
        } else {
            assert(after[i] == tags[i]);
        }
    }
}

/// What `first_named` finds: the first tag of the name, or the end.
proof fn lemma_first_named_is_first(tags: Seq<(Seq<char>, Seq<Seq<char>>)>, name: Seq<char>, from: int)
    requires
        0 <= from <= tags.len(),
    ensures
        from <= first_named(tags, name, from) <= tags.len(),
        first_named(tags, name, from) < tags.len() ==> tags[first_named(tags, name, from)].0
            == name,
        forall|k: int| from <= k < first_named(tags, name, from) ==> (#[trigger] tags[k]).0 != name,
    decreases tags.len() - from,
{
    if from < tags.len() && tags[from].0 != name {
        lemma_first_named_is_first(tags, name, from + 1);
    }
}

/// Sets the tag `name` to `values`.
pub fn put_tag(tags: &mut Vec<Tag>, name: String, values: Vec<String>)
    ensures
        tag_views(final(tags)@) == put(tag_views(old(tags)@), name@, texts(values@)),
{
    let ghost before = tag_views(tags@);
    let mut i: usize = 0;
    while i < tags.len()
        invariant
            tags@ == old(tags)@,
            before == tag_views(tags@),
            i <= tags@.len(),
            forall|k: int| 0 <= k < i ==> (#[trigger] before[k]).0 != name@,
        decreases tags@.len() - i,
    {
        assert(before[i as int] == tag_view(tags@[i as int]));
        if tags[i].name == name {
            proof {
                lemma_first_named(before, name@, 0, i as int);
            }
            tags.set(i, Tag { name, values });
            assert(tag_views(tags@) =~= before.update(i as int, (name@, texts(values@))));
            return ;
        }
        i = i + 1;
    }
    proof {
        lemma_first_named(before, name@, 0, before.len() as int);
    }
    tags.push(Tag { name, values });
    assert(tag_views(tags@) =~= before.push((name@, texts(values@))));
}

/// The rules of one directory of configuration files: the tags that are
/// declared there, and what is written to its files.
#[derive(Debug)]
pub struct Rules {
    config_dir: String,
    tags: Vec<Tag>,
}

impl Rules {
    /// No two declared tags have the same name.
    #[verifier::type_invariant]
    spec fn names_distinct(self) -> bool {
        distinct(tag_views(self.tags@))
    }

    /// The path of the directory.
    pub closed spec fn dir(&self) -> Seq<char> {
        self.config_dir@
    }

    /// The declared tags.
    pub closed spec fn declared(&self) -> Seq<Tag> {
        self.tags@
    }

    /// The rules of the directory `config_dir`, with no tag declared yet.
    pub fn new(config_dir: &str) -> (rules: Self)
        ensures
            rules.dir() == config_dir@,
            rules.declared().len() == 0,
    {
        Rules { config_dir: config_dir.to_owned(), tags: Vec::new() }
    }

    /// A copy of the rules.
    pub fn copy(&self) -> (rules: Self)
        ensures
            rules.dir() == self.dir(),
            tag_views(rules.declared()) == tag_views(self.declared()),
    {
        proof {
            use_type_invariant(self);
        }
        let tags = copy_tags(&self.tags);
        proof {
            lemma_same_views(tags@, self.tags@);
        }
        Rules { config_dir: self.config_dir.clone(), tags }
    }

    /// Declares the tags of the lines of the directory's tag files, each in
    /// place of a tag of its name declared before. Nothing is declared
    /// where a line is at fault.
    pub fn load_tags(&mut self, lines: &Vec<String>) -> (r: Result<(), RulesError>)
        ensures
            final(self).dir() == old(self).dir(),
            match declared(texts(lines@), lines@.len()) {
                Ok(tags) => r is Ok && tag_views(final(self).declared()) == put_all(
                    tag_views(old(self).declared()),
                    tags,
                    tags.len(),
                ),
                Err(f) => r is Err && r->Err_0 is TagParseError && r->Err_0.fault() == Fault::Tag(f)
                    && final(self).declared() == old(self).declared(),
            },
    {
        let tags = match parse_tags(lines) {
            Ok(tags) => tags,
            Err(e) => {
                return Err(e);
            },
        };
        proof {
            use_type_invariant(&*self);
        }
        let mut all = copy_tags(&self.tags);
        let ghost first = tag_views(self.tags@);
        let ghost more = tag_views(tags@);
        proof {
            lemma_same_views(all@, self.tags@);
        }
        let mut i: usize = 0;
        while i < tags.len()
            invariant
                more == tag_views(tags@),
                i <= tags@.len(),
                tag_views(all@) == put_all(first, more, i as nat),
                distinct(tag_views(all@)),
            decreases tags@.len() - i,
        {
            assert(more[i as int] == tag_view(tags@[i as int]));
            let name = tags[i].name.clone();
            let values = copy_list(&tags[i].values);
            assert(texts(values@) =~= texts(tags@[i as int].values@));
            proof {
                lemma_put_distinct(tag_views(all@), name@, texts(values@));
            }
            put_tag(&mut all, name, values);
            i = i + 1;
        }
        self.tags = all;
        Ok(())
    }

    /// The lines of a tag file after the tag is written to it; the tag is
    /// then declared, in place of a tag of its name declared before.
    /// Nothing changes where the tag is at fault.
    pub fn write_tag(
        &mut self,
        lines: Vec<String>,
        tag_name: &str,
        tag_values: Vec<String>,
    ) -> (r: Result<Vec<String>, RulesError>)
        ensures
            final(self).dir() == old(self).dir(),
            match tag_input_verdict(tag_name@, texts(tag_values@)) {
                Ok(()) => r is Ok && texts(r->Ok_0@) == merged(
                    texts(lines@),
                    tag_name@,
                    texts(tag_values@),
                ) && tag_views(final(self).declared()) == put(
                    tag_views(old(self).declared()),
                    tag_name@,
                    texts(tag_values@),
                ),
                Err(f) => r is Err && r->Err_0 is TagParseError && r->Err_0.fault() == Fault::Tag(f)
                    && final(self).declared() == old(self).declared(),
            },
    {
        match check_tag(tag_name, &tag_values) {
            Ok(()) => {},
            Err(e) => {
                return Err(e);
            },
        }
        let written = merge_tag(lines, tag_name, &tag_values);
        proof {
            use_type_invariant(&*self);
            lemma_put_distinct(tag_views(self.tags@), tag_name@, texts(tag_values@));
        }
        let mut all = copy_tags(&self.tags);
        proof {
            lemma_same_views(all@, self.tags@);
        }
        put_tag(&mut all, tag_name.to_owned(), tag_values);
        self.tags = all;
        Ok(written)
    }

    /// The lines of a rule file after the rule is written to it: the rule
    /// must be valid against the declared tags and not stand in the file.
    pub fn write_rule(&self, lines: Vec<String>, rule: &str) -> (r: Result<Vec<String>, RulesError>)
        ensures
            match validation(registry_of(self.declared()), rule@) {
                Err(f) => r is Err && r->Err_0.is_in(f, rule@),
                Ok(()) => match appended(texts(lines@), rule@) {
                    Err(f) => r is Err && r->Err_0.is_bare(f),
                    Ok(all) => r is Ok && texts(r->Ok_0@) == all,
                },
            },
    {
        match self.validate_rule(rule) {
            Ok(()) => {},
            Err(e) => {
                return Err(e);
            },
        }
        append_rule(lines, rule)
    }

    /// Validates a rule line against the declared tags.
    pub fn validate_rule(&self, rule: &str) -> (r: Result<(), RulesError>)
        ensures
            renders_in(r, validation(registry_of(self.declared()), rule@), rule@),
    {
        let parser = RuleParser::new(copy_tags(&self.tags));
        proof {
            lemma_same_registry(parser.tags(), self.tags@);
        }
        parser.validate_rule(rule)
    }

    /// The declared tags. No two of them have the same name.
    pub fn tags(&self) -> (tags: &Vec<Tag>)
        ensures
            tags@ == self.declared(),
            distinct(tag_views(tags@)),
    {
        proof {
            use_type_invariant(self);
        }
        &self.tags
    }

    /// The path of the directory.
    pub fn config_dir(&self) -> (dir: &str)
        ensures
            dir@ == self.dir(),
    {
        self.config_dir.as_str()
    }
}

} // verus!
