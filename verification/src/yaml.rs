//! YAML values.
//!
//! `Yaml` is what the library reads; `YamlView` is its model.

use crate::text::text_eq;
use serde_yaml::Value;
use vstd::prelude::*;

verus! {

/// A YAML value. No key of a mapping occurs twice.
#[derive(Debug)]
pub enum Yaml {
    Null,
    Bool(bool),
    /// A number, as text.
    Number(String),
    Str(String),
    Sequence(Vec<Yaml>),
    Mapping(Vec<(Yaml, Yaml)>),
    /// A value behind a `!tag`.
    Tagged(Box<Yaml>),
}

/// The model of a YAML value.
pub ghost enum YamlView {
    Null,
    Bool(bool),
    Number(Seq<char>),
    Str(Seq<char>),
    Sequence(Seq<YamlView>),
    Mapping(Seq<(YamlView, YamlView)>),
    Tagged(Box<YamlView>),
}

/// The model of `v`.
pub open spec fn yaml_model(v: Yaml) -> YamlView
    decreases v,
{
    match v {
        Yaml::Null => YamlView::Null,
        Yaml::Bool(b) => YamlView::Bool(b),
        Yaml::Number(n) => YamlView::Number(n@),
        Yaml::Str(s) => YamlView::Str(s@),
        Yaml::Sequence(items) => YamlView::Sequence(yaml_items(items@)),
        Yaml::Mapping(entries) => YamlView::Mapping(yaml_entries(entries@)),
        Yaml::Tagged(value) => YamlView::Tagged(Box::new(yaml_model(*value))),
    }
}

pub open spec fn yaml_items(items: Seq<Yaml>) -> Seq<YamlView>
    decreases items,
{
    if items.len() == 0 {
        Seq::empty()
    } else {
        yaml_items(items.drop_last()).push(yaml_model(items.last()))
    }
}

pub open spec fn yaml_entries(entries: Seq<(Yaml, Yaml)>) -> Seq<(YamlView, YamlView)>
    decreases entries,
{
    if entries.len() == 0 {
        Seq::empty()
    } else {
        yaml_entries(entries.drop_last()).push(
            (yaml_model(entries.last().0), yaml_model(entries.last().1)),
        )
    }
}

impl View for Yaml {
    type V = YamlView;

    open spec fn view(&self) -> YamlView {
        yaml_model(*self)
    }
}

// ─── Reading ────────────────────────────────────────────────────────────────

/// The value behind its tags.
pub open spec fn untagged(v: YamlView) -> YamlView
    decreases v,
{
    match v {
        YamlView::Tagged(inner) => untagged(*inner),
        _ => v,
    }
}

/// The place of the first entry whose key is the text.
pub open spec fn key_place(entries: Seq<(YamlView, YamlView)>, key: Seq<char>) -> nat
    decreases entries.len(),
{
    if entries.len() == 0 || entries[0].0 == YamlView::Str(key) {
        0
    } else {
        1 + key_place(entries.drop_first(), key)
    }
}

/// The value of the key in a mapping.
pub open spec fn entry_of(entries: Seq<(YamlView, YamlView)>, key: Seq<char>) -> Option<YamlView> {
    if key_place(entries, key) < entries.len() {
        Some(entries[key_place(entries, key) as int].1)
    } else {
        None
    }
}

/// The text of a value that is a string, whatever its tags.
pub open spec fn yaml_text(v: YamlView) -> Option<Seq<char>> {
    match untagged(v) {
        YamlView::Str(s) => Some(s),
        _ => None,
    }
}

pub open spec fn yaml_found(r: Option<&Yaml>) -> Option<YamlView> {
    match r {
        Some(v) => Some(v@),
        None => None,
    }
}

pub proof fn lemma_yaml_items(items: Seq<Yaml>)
    ensures
        yaml_items(items).len() == items.len(),
        forall|i: int| 0 <= i < items.len() ==> #[trigger] yaml_items(items)[i] == items[i]@,
    decreases items.len(),
{
    if items.len() > 0 {
        lemma_yaml_items(items.drop_last());
        assert forall|i: int| 0 <= i < items.len() implies #[trigger] yaml_items(items)[i]
            == items[i]@ by {
            if i < items.len() - 1 {
                assert(yaml_items(items.drop_last())[i] == items.drop_last()[i]@);
            }
        }
    }
}

proof fn lemma_yaml_entries(entries: Seq<(Yaml, Yaml)>)
    ensures
        yaml_entries(entries).len() == entries.len(),
        forall|i: int|
            0 <= i < entries.len() ==> #[trigger] yaml_entries(entries)[i] == (
                entries[i].0@,
                entries[i].1@,
            ),
    decreases entries.len(),
{
    if entries.len() > 0 {
        lemma_yaml_entries(entries.drop_last());
        assert forall|i: int| 0 <= i < entries.len() implies #[trigger] yaml_entries(entries)[i]
            == (entries[i].0@, entries[i].1@) by {
            if i < entries.len() - 1 {
                assert(yaml_entries(entries.drop_last())[i] == (
                    entries.drop_last()[i].0@,
                    entries.drop_last()[i].1@,
                ));
            }
        }
    }
}

proof fn lemma_key_place(entries: Seq<(YamlView, YamlView)>, key: Seq<char>, k: int)
    requires
        0 <= k <= entries.len(),
        forall|i: int| 0 <= i < k ==> (#[trigger] entries[i]).0 != YamlView::Str(key),
        k < entries.len() ==> entries[k].0 == YamlView::Str(key),
    ensures
        key_place(entries, key) == k,
    decreases entries.len(),
{
    if k > 0 {
        let rest = entries.drop_first();
        assert forall|i: int| 0 <= i < k - 1 implies (#[trigger] rest[i]).0 != YamlView::Str(
            key,
        ) by {
            assert(entries[i + 1].0 != YamlView::Str(key));
        }
        assert(entries[0].0 != YamlView::Str(key));
        lemma_key_place(rest, key, k - 1);
    }
}

/// The value of the key in the entries of a mapping.
pub fn yaml_entry<'a>(entries: &'a Vec<(Yaml, Yaml)>, key: &str) -> (r: Option<&'a Yaml>)
    ensures
        yaml_found(r) == entry_of(yaml_entries(entries@), key@),
{
    let ghost views = yaml_entries(entries@);
    proof {
        lemma_yaml_entries(entries@);
    }
    let mut i: usize = 0;
    while i < entries.len()
        invariant
            i <= entries@.len(),
            views == yaml_entries(entries@),
            views.len() == entries@.len(),
            forall|k: int|
                0 <= k < entries@.len() ==> #[trigger] views[k] == (entries@[k].0@, entries@[k].1@),
            forall|k: int| 0 <= k < i ==> (#[trigger] views[k]).0 != YamlView::Str(key@),
        decreases entries@.len() - i,
    {
        assert(views[i as int].0 == entries@[i as int].0@);
        let hit = match &entries[i].0 {
            Yaml::Str(s) => text_eq(s.as_str(), key),
            _ => false,
        };
        if hit {
            proof {
                lemma_key_place(views, key@, i as int);
            }
            return Some(&entries[i].1);
        }
        i += 1;
    }
    proof {
        lemma_key_place(views, key@, views.len() as int);
    }
    None
}

impl Yaml {
    /// The value behind its tags.
    pub fn untag(&self) -> (r: &Yaml)
        ensures
            r@ == untagged(self@),
            !(*r is Tagged),
        decreases self,
    {
        match self {
            Yaml::Tagged(inner) => inner.untag(),
            _ => self,
        }
    }

    /// The text of a string.
    pub fn as_str(&self) -> (r: Option<&str>)
        ensures
            match r {
                Some(s) => yaml_text(self@) == Some(s@),
                None => yaml_text(self@) is None,
            },
    {
        match self.untag() {
            Yaml::Str(s) => Some(s.as_str()),
            _ => None,
        }
    }
}

// ─── Text ───────────────────────────────────────────────────────────────────

/// `serde_yaml::Value`, carried between the two calls below.
#[verifier::external_type_specification]
#[verifier::external_body]
pub struct ExYamlValue(serde_yaml::Value);

/// What a `serde_yaml::Value` holds: of a number its text, of a tagged value that it is
/// tagged and the value.
pub uninterp spec fn yaml_value_model(v: serde_yaml::Value) -> YamlView;

/// What `serde_yaml::from_str` reads from a text as a `serde_yaml::Value`; `None`
/// where it returns an error.
pub uninterp spec fn yaml_parsed(text: Seq<char>) -> Option<YamlView>;

/// Calls `serde_yaml::from_str::<serde_yaml::Value>`. The result is named: it
/// depends on the text alone.
#[verifier::external_body]
fn yaml_from_text(text: &str) -> (r: Option<serde_yaml::Value>)
    ensures
        match r {
            Some(v) => yaml_parsed(text@) == Some(yaml_value_model(v)),
            None => yaml_parsed(text@) is None,
        },
{
    serde_yaml::from_str(text).ok()
}

/// Takes a `serde_yaml::Value` apart, a number through the `Display` of
/// `serde_yaml::Number`: the result holds what the value holds, of a tagged value that
/// it is tagged, without the tag's name.
#[verifier::external_body]
fn yaml_from_value(v: serde_yaml::Value) -> (r: Yaml)
    ensures
        r@ == yaml_value_model(v),
{
    match v {
        Value::Null => Yaml::Null,
        Value::Bool(b) => Yaml::Bool(b),
        Value::Number(n) => Yaml::Number(n.to_string()),
        Value::String(s) => Yaml::Str(s),
        Value::Sequence(a) => Yaml::Sequence(a.into_iter().map(yaml_from_value).collect()),
        Value::Mapping(m) => Yaml::Mapping(
            m.into_iter().map(|(k, v)| (yaml_from_value(k), yaml_from_value(v))).collect(),
        ),
        Value::Tagged(t) => Yaml::Tagged(Box::new(yaml_from_value(t.value))),
    }
}

/// Reads a YAML text.
pub fn parse_yaml(text: &str) -> (r: Option<Yaml>)
    ensures
        match r {
            Some(v) => yaml_parsed(text@) == Some(v@),
            None => yaml_parsed(text@) is None,
        },
{
    match yaml_from_text(text) {
        Some(v) => Some(yaml_from_value(v)),
        None => None,
    }
}

/// The value of a key is that of the first entry whose key is the text; without such an
/// entry there is none.
pub proof fn law_first_entry_of_a_key(entries: Seq<(YamlView, YamlView)>, key: Seq<char>, i: int)
    ensures
        0 <= i < entries.len() && entries[i].0 == YamlView::Str(key) && (forall|j: int|
            0 <= j < i ==> (#[trigger] entries[j]).0 != YamlView::Str(key)) ==> entry_of(
            entries,
            key,
        ) == Some(entries[i].1),
        (forall|j: int| 0 <= j < entries.len() ==> (#[trigger] entries[j]).0 != YamlView::Str(key))
            ==> entry_of(entries, key) is None,
{
    if 0 <= i < entries.len() && entries[i].0 == YamlView::Str(key) && (forall|j: int|
        0 <= j < i ==> (#[trigger] entries[j]).0 != YamlView::Str(key)) {
        lemma_key_place(entries, key, i);
    }
    if forall|j: int| 0 <= j < entries.len() ==> (#[trigger] entries[j]).0 != YamlView::Str(key) {
        lemma_key_place(entries, key, entries.len() as int);
    }
}

/// A text is read behind any tags, and nothing else is read as a text.
pub proof fn law_tags_do_not_matter(v: YamlView, text: Seq<char>)
    ensures
        yaml_text(YamlView::Str(text)) == Some(text),
        yaml_text(YamlView::Tagged(Box::new(v))) == yaml_text(v),
        yaml_text(v) is Some ==> v is Str || v is Tagged,
{
}

} // verus!
