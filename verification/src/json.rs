//! JSON values.
//!
//! `Json` is what the library reads and builds; `JsonView` is its model, in
//! which an object is a map from member names to values.

use crate::text::lemma_text_less_total;
use crate::text::lemma_text_less_transitive;
use crate::text::less;
use crate::text::opt_text;
use crate::text::text_eq;
use crate::text::text_less;
use crate::text::texts;
use serde_json::Value;
use vstd::prelude::*;

verus! {

/// A JSON value. The members of an object stand in any order; where a name
/// occurs twice, the later member counts.
#[derive(Debug)]
pub enum Json {
    Null,
    Bool(bool),
    Number(JsonNumber),
    Str(String),
    Array(Vec<Json>),
    Object(Vec<(String, Json)>),
}

/// A JSON number: a natural number, a negative integer, or the text of any other.
#[derive(Debug)]
pub enum JsonNumber {
    Natural(u64),
    Negative(i64),
    Decimal(String),
}

/// The model of a JSON value.
#[verifier::ext_equal]
pub ghost enum JsonView {
    Null,
    Bool(bool),
    Natural(u64),
    Negative(i64),
    Decimal(Seq<char>),
    Str(Seq<char>),
    Array(Seq<JsonView>),
    Object(Map<Seq<char>, JsonView>),
}

impl View for JsonNumber {
    type V = JsonView;

    open spec fn view(&self) -> JsonView {
        match self {
            JsonNumber::Natural(n) => JsonView::Natural(*n),
            JsonNumber::Negative(n) => JsonView::Negative(*n),
            JsonNumber::Decimal(text) => JsonView::Decimal(text@),
        }
    }
}

/// The model of `v`.
pub open spec fn model(v: Json) -> JsonView
    decreases v,
{
    match v {
        Json::Null => JsonView::Null,
        Json::Bool(b) => JsonView::Bool(b),
        Json::Number(n) => n@,
        Json::Str(s) => JsonView::Str(s@),
        Json::Array(items) => JsonView::Array(models(items@)),
        Json::Object(members) => JsonView::Object(member_map(members@)),
    }
}

/// The models of the items of an array.
pub open spec fn models(items: Seq<Json>) -> Seq<JsonView>
    decreases items,
{
    if items.len() == 0 {
        Seq::empty()
    } else {
        models(items.drop_last()).push(model(items.last()))
    }
}

/// The members of an object, a later one in place of an earlier one of its name.
pub open spec fn member_map(members: Seq<(String, Json)>) -> Map<Seq<char>, JsonView>
    decreases members,
{
    if members.len() == 0 {
        Map::empty()
    } else {
        member_map(members.drop_last()).insert(members.last().0@, model(members.last().1))
    }
}

impl View for Json {
    type V = JsonView;

    open spec fn view(&self) -> JsonView {
        model(*self)
    }
}

// ─── Reading ────────────────────────────────────────────────────────────────

/// The member `name` of an object.
pub open spec fn member(v: JsonView, name: Seq<char>) -> Option<JsonView> {
    match v {
        JsonView::Object(members) => if members.contains_key(name) {
            Some(members[name])
        } else {
            None
        },
        _ => None,
    }
}

/// The text that a string value holds.
pub open spec fn as_text(v: Option<JsonView>) -> Option<Seq<char>> {
    match v {
        Some(JsonView::Str(s)) => Some(s),
        _ => None,
    }
}

/// The natural number that a number value holds.
pub open spec fn as_natural(v: Option<JsonView>) -> Option<u64> {
    match v {
        Some(JsonView::Natural(n)) => Some(n),
        _ => None,
    }
}

/// The items that an array value holds.
pub open spec fn as_items(v: Option<JsonView>) -> Option<Seq<JsonView>> {
    match v {
        Some(JsonView::Array(items)) => Some(items),
        _ => None,
    }
}

/// The member `inner` of the member `outer`.
pub open spec fn member2(v: JsonView, outer: Seq<char>, inner: Seq<char>) -> Option<JsonView> {
    match member(v, outer) {
        Some(o) => member(o, inner),
        None => None,
    }
}

/// The model of what a lookup found.
pub open spec fn found(r: Option<&Json>) -> Option<JsonView> {
    match r {
        Some(v) => Some(v@),
        None => None,
    }
}

pub proof fn lemma_models(items: Seq<Json>)
    ensures
        models(items).len() == items.len(),
        forall|i: int| 0 <= i < items.len() ==> #[trigger] models(items)[i] == items[i]@,
    decreases items.len(),
{
    if items.len() > 0 {
        lemma_models(items.drop_last());
        assert forall|i: int| 0 <= i < items.len() implies #[trigger] models(items)[i]
            == items[i]@ by {
            if i < items.len() - 1 {
                assert(models(items.drop_last())[i] == items.drop_last()[i]@);
            }
        }
    }
}

impl Json {
    /// The member `name` of an object.
    pub fn get(&self, name: &str) -> (r: Option<&Json>)
        ensures
            found(r) == member(self@, name@),
    {
        match self {
            Json::Object(members) => {
                let mut i: usize = members.len();
                assert(members@.take(i as int) =~= members@);
                while i > 0
                    invariant
                        i <= members@.len(),
                        *self == Json::Object(*members),
                        member_map(members@).contains_key(name@) == member_map(
                            members@.take(i as int),
                        ).contains_key(name@),
                        member_map(members@).contains_key(name@) ==> member_map(members@)[name@]
                            == member_map(members@.take(i as int))[name@],
                    decreases i,
                {
                    let ghost before = members@.take(i as int);
                    assert(before.drop_last() =~= members@.take(i - 1));
                    i -= 1;
                    assert(before.last() == members@[i as int]);
                    if text_eq(members[i].0.as_str(), name) {
                        return Some(&members[i].1);
                    }
                }
                None
            },
            _ => None,
        }
    }

    /// The text of a string value.
    pub fn as_str(&self) -> (r: Option<&str>)
        ensures
            match r {
                Some(s) => self@ == JsonView::Str(s@),
                None => !(self@ is Str),
            },
    {
        match self {
            Json::Str(s) => Some(s.as_str()),
            Json::Number(_) => None,
            _ => None,
        }
    }

    /// The number, where the value is a natural number.
    pub fn as_u64(&self) -> (r: Option<u64>)
        ensures
            r == as_natural(Some(self@)),
    {
        match self {
            Json::Number(JsonNumber::Natural(n)) => Some(*n),
            _ => None,
        }
    }

    /// The items of an array value.
    pub fn as_array(&self) -> (r: Option<&Vec<Json>>)
        ensures
            match r {
                Some(items) => self@ == JsonView::Array(models(items@)),
                None => !(self@ is Array),
            },
    {
        match self {
            Json::Array(items) => Some(items),
            _ => None,
        }
    }

    /// The text of the string member `name`.
    pub fn str_member(&self, name: &str) -> (r: Option<&str>)
        ensures
            match r {
                Some(s) => as_text(member(self@, name@)) == Some(s@),
                None => as_text(member(self@, name@)) is None,
            },
    {
        match self.get(name) {
            Some(v) => v.as_str(),
            None => None,
        }
    }

    /// The text of the string member `inner` of the member `outer`.
    pub fn str_member2(&self, outer: &str, inner: &str) -> (r: Option<&str>)
        ensures
            match r {
                Some(s) => as_text(member2(self@, outer@, inner@)) == Some(s@),
                None => as_text(member2(self@, outer@, inner@)) is None,
            },
    {
        match self.get(outer) {
            Some(v) => v.str_member(inner),
            None => None,
        }
    }

    /// A copy of the value.
    pub fn copied(&self) -> (r: Json)
        ensures
            r@ == self@,
        decreases self,
    {
        match self {
            Json::Null => Json::Null,
            Json::Bool(b) => Json::Bool(*b),
            Json::Number(n) => Json::Number(n.copied()),
            Json::Str(s) => Json::Str(s.clone()),
            Json::Array(items) => {
                let mut out: Vec<Json> = Vec::new();
                let mut i: usize = 0;
                while i < items.len()
                    invariant
                        i <= items@.len(),
                        *self == Json::Array(*items),
                        models(out@) == models(items@.take(i as int)),
                    decreases items@.len() - i,
                {
                    proof {
                        assert(decreases_to!(*self => self->Array_0));
                        assert(decreases_to!(*items => items@));
                        assert(decreases_to!(items@ => items@[i as int]));
                    }
                    let item = items[i].copied();
                    proof {
                        assert(out@.push(item).drop_last() =~= out@);
                        assert(items@.take(i + 1).drop_last() =~= items@.take(i as int));
                    }
                    out.push(item);
                    i += 1;
                }
                assert(items@.take(items@.len() as int) =~= items@);
                Json::Array(out)
            },
            Json::Object(members) => {
                let mut out: Vec<(String, Json)> = Vec::new();
                let mut i: usize = 0;
                while i < members.len()
                    invariant
                        i <= members@.len(),
                        *self == Json::Object(*members),
                        member_map(out@) == member_map(members@.take(i as int)),
                    decreases members@.len() - i,
                {
                    proof {
                        assert(decreases_to!(*self => self->Object_0));
                        assert(decreases_to!(*members => members@));
                        assert(decreases_to!(members@ => members@[i as int]));
                        assert(decreases_to!(members@[i as int] => members@[i as int].1));
                    }
                    let value = members[i].1.copied();
                    let entry = (members[i].0.clone(), value);
                    proof {
                        assert(out@.push(entry).drop_last() =~= out@);
                        assert(members@.take(i + 1).drop_last() =~= members@.take(i as int));
                    }
                    out.push(entry);
                    i += 1;
                }
                assert(members@.take(members@.len() as int) =~= members@);
                Json::Object(out)
            },
        }
    }
}

impl JsonNumber {
    /// A copy of the number.
    pub fn copied(&self) -> (r: JsonNumber)
        ensures
            r@ == self@,
    {
        match self {
            JsonNumber::Natural(n) => JsonNumber::Natural(*n),
            JsonNumber::Negative(n) => JsonNumber::Negative(*n),
            JsonNumber::Decimal(text) => JsonNumber::Decimal(text.clone()),
        }
    }
}

/// The JSON number for an integer.
pub open spec fn integer(n: i64) -> JsonView {
    if n >= 0 {
        JsonView::Natural(n as u64)
    } else {
        JsonView::Negative(n)
    }
}

/// The `i64` that a number value holds.
pub open spec fn as_integer(v: Option<JsonView>) -> Option<i64> {
    match v {
        Some(JsonView::Natural(n)) if n <= i64::MAX => Some(n as i64),
        Some(JsonView::Negative(n)) => Some(n),
        _ => None,
    }
}

/// The JSON number for an integer.
pub fn from_i64(n: i64) -> (r: Json)
    ensures
        r@ == integer(n),
{
    if n >= 0 {
        Json::Number(JsonNumber::Natural(n as u64))
    } else {
        Json::Number(JsonNumber::Negative(n))
    }
}

impl Json {
    /// The number, where the value is an integer that is an `i64`.
    pub fn as_i64(&self) -> (r: Option<i64>)
        ensures
            r == as_integer(Some(self@)),
    {
        match self {
            Json::Number(JsonNumber::Natural(n)) => if *n <= i64::MAX as u64 {
                Some(*n as i64)
            } else {
                None
            },
            Json::Number(JsonNumber::Negative(n)) => Some(*n),
            _ => None,
        }
    }

    /// The integer of the member `name`.
    pub fn i64_member(&self, name: &str) -> (r: Option<i64>)
        ensures
            r == as_integer(member(self@, name@)),
    {
        match self.get(name) {
            Some(v) => v.as_i64(),
            None => None,
        }
    }

    /// The natural number of the member `name`.
    pub fn u64_member(&self, name: &str) -> (r: Option<u64>)
        ensures
            r == as_natural(member(self@, name@)),
    {
        match self.get(name) {
            Some(v) => v.as_u64(),
            None => None,
        }
    }
}

/// A text as JSON, or null.
pub open spec fn text_or_null(t: Option<Seq<char>>) -> JsonView {
    match t {
        Some(s) => JsonView::Str(s),
        None => JsonView::Null,
    }
}

/// The text of a member that may be missing or null: `None` where it is neither that
/// nor a text.
pub open spec fn optional_text(v: Option<JsonView>) -> Option<Option<Seq<char>>> {
    match v {
        Some(JsonView::Str(t)) => Some(Some(t)),
        Some(JsonView::Null) => Some(None),
        Some(_) => None,
        None => Some(None),
    }
}

impl Json {
    /// The text of a member that may be missing or null.
    pub fn optional_str_member(&self, name: &str) -> (r: Option<Option<String>>)
        ensures
            match r {
                Some(t) => optional_text(member(self@, name@)) == Some(opt_text(t)),
                None => optional_text(member(self@, name@)) is None,
            },
    {
        match self.get(name) {
            Some(Json::Str(t)) => Some(Some(t.clone())),
            Some(Json::Null) => Some(None),
            Some(_) => None,
            None => Some(None),
        }
    }
}

/// Makes JSON of a text, or null.
pub fn json_or_null(t: &Option<String>) -> (r: Json)
    ensures
        r@ == text_or_null(opt_text(*t)),
{
    match t {
        Some(s) => Json::Str(s.clone()),
        None => Json::Null,
    }
}

/// An object with the members, of which the later ones count.
pub open spec fn object(members: Seq<(Seq<char>, JsonView)>) -> JsonView {
    JsonView::Object(members_map(members))
}

pub open spec fn members_map(members: Seq<(Seq<char>, JsonView)>) -> Map<Seq<char>, JsonView>
    decreases members.len(),
{
    if members.len() == 0 {
        Map::empty()
    } else {
        members_map(members.drop_last()).insert(members.last().0, members.last().1)
    }
}

pub open spec fn member_views(members: Seq<(String, Json)>) -> Seq<(Seq<char>, JsonView)> {
    Seq::new(members.len(), |i: int| (members[i].0@, members[i].1@))
}

pub proof fn lemma_member_views(members: Seq<(String, Json)>)
    ensures
        members_map(member_views(members)) == member_map(members),
    decreases members.len(),
{
    if members.len() > 0 {
        lemma_member_views(members.drop_last());
        assert(member_views(members).drop_last() =~= member_views(members.drop_last()));
    }
}

/// Builds an object, member by member.
pub struct ObjectBuilder {
    members: Vec<(String, Json)>,
}

impl View for ObjectBuilder {
    type V = Seq<(Seq<char>, JsonView)>;

    closed spec fn view(&self) -> Seq<(Seq<char>, JsonView)> {
        member_views(self.members@)
    }
}

impl ObjectBuilder {
    pub fn new() -> (r: Self)
        ensures
            r@ == Seq::<(Seq<char>, JsonView)>::empty(),
    {
        let r = ObjectBuilder { members: Vec::new() };
        assert(r@ =~= Seq::<(Seq<char>, JsonView)>::empty());
        r
    }

    /// Adds a member.
    pub fn with(self, name: &str, value: Json) -> (r: Self)
        ensures
            r@ == self@.push((name@, value@)),
    {
        let mut members = self.members;
        members.push((name.to_owned(), value));
        let r = ObjectBuilder { members };
        assert(r@ =~= self@.push((name@, value@)));
        r
    }

    /// Adds a member that is a text.
    pub fn with_text(self, name: &str, value: &str) -> (r: Self)
        ensures
            r@ == self@.push((name@, JsonView::Str(value@))),
    {
        self.with(name, Json::Str(value.to_owned()))
    }

    /// The object.
    pub fn build(self) -> (r: Json)
        ensures
            r@ == object(self@),
    {
        proof {
            lemma_member_views(self.members@);
        }
        Json::Object(self.members)
    }
}

// ─── Members in order ───────────────────────────────────────────────────────

/// Whether `k` is the first of the names in ascending order.
pub open spec fn is_least(m: Map<Seq<char>, JsonView>, k: Seq<char>) -> bool {
    m.contains_key(k) && forall|o: Seq<char>| #[trigger]
        m.contains_key(o) && o != k ==> text_less(k, o)
}

/// The first of the names in ascending order.
pub open spec fn least(m: Map<Seq<char>, JsonView>) -> Seq<char> {
    choose|k: Seq<char>| is_least(m, k)
}

/// The values of the first two members, in ascending order of their names.
pub open spec fn first_two(m: Map<Seq<char>, JsonView>) -> Seq<JsonView> {
    if m.dom() =~= Set::empty() {
        Seq::empty()
    } else {
        let a = least(m);
        let rest = m.remove(a);
        if rest.dom() =~= Set::empty() {
            seq![m[a]]
        } else {
            seq![m[a], m[least(rest)]]
        }
    }
}

proof fn lemma_least(m: Map<Seq<char>, JsonView>, k: Seq<char>)
    requires
        is_least(m, k),
    ensures
        least(m) == k,
{
    let a = least(m);
    assert(is_least(m, a));
    if a != k {
        lemma_text_less_total(a, k);
        assert(text_less(k, a));
        assert(text_less(a, k));
    }
}

/// The names in the map are those of the members.
proof fn lemma_member_names(members: Seq<(String, Json)>)
    ensures
        forall|i: int|
            0 <= i < members.len() ==> member_map(members).contains_key((#[trigger] members[i]).0@),
        forall|k: Seq<char>| #[trigger]
            member_map(members).contains_key(k) ==> exists|i: int|
                0 <= i < members.len() && (#[trigger] members[i]).0@ == k,
    decreases members.len(),
{
    if members.len() > 0 {
        let front = members.drop_last();
        lemma_member_names(front);
        assert forall|i: int| 0 <= i < members.len() implies member_map(members).contains_key(
            (#[trigger] members[i]).0@,
        ) by {
            if i < front.len() {
                assert(front[i] == members[i]);
            }
        }
        assert forall|k: Seq<char>| #[trigger] member_map(members).contains_key(
            k,
        ) implies exists|i: int| 0 <= i < members.len() && (#[trigger] members[i]).0@ == k by {
            if k == members.last().0@ {
                assert(members[members.len() - 1].0@ == k);
            } else {
                assert(member_map(front).contains_key(k));
                let i = choose|i: int| 0 <= i < front.len() && (#[trigger] front[i]).0@ == k;
                assert(members[i].0@ == k);
            }
        }
    }
}

/// The place of the least name other than `skip`.
fn least_place(members: &Vec<(String, Json)>, skip: Option<&str>) -> (r: Option<usize>)
    ensures
        ({
            let m = match skip {
                Some(s) => member_map(members@).remove(s@),
                None => member_map(members@),
            };
            match r {
                Some(i) => i < members@.len() && is_least(m, members@[i as int].0@),
                None => m.dom() =~= Set::empty(),
            }
        }),
{
    let ghost all = member_map(members@);
    let ghost m = match skip {
        Some(s) => all.remove(s@),
        None => all,
    };
    proof {
        lemma_member_names(members@);
    }
    let mut best: Option<usize> = None;
    let mut i: usize = 0;
    while i < members.len()
        invariant
            i <= members@.len(),
            all == member_map(members@),
            m == (match skip {
                Some(s) => all.remove(s@),
                None => all,
            }),
            forall|k: int|
                0 <= k < members@.len() ==> all.contains_key((#[trigger] members@[k]).0@),
            match best {
                Some(b) => b < i && m.contains_key(members@[b as int].0@) && forall|k: int|
                    0 <= k < i && m.contains_key((#[trigger] members@[k]).0@) && members@[k].0@
                        != members@[b as int].0@ ==> text_less(
                        members@[b as int].0@,
                        members@[k].0@,
                    ),
                None => forall|k: int|
                    0 <= k < i ==> !m.contains_key((#[trigger] members@[k]).0@),
            },
        decreases members@.len() - i,
    {
        let name = members[i].0.as_str();
        assert(all.contains_key(members@[i as int].0@));
        let skipped = match skip {
            Some(s) => text_eq(s, name),
            None => false,
        };
        if !skipped {
            match best {
                Some(b) => {
                    if less(name, members[b].0.as_str()) {
                        proof {
                            assert forall|k: int|
                                0 <= k < i + 1 && m.contains_key((#[trigger] members@[k]).0@)
                                    && members@[k].0@ != members@[i as int].0@ implies text_less(
                                members@[i as int].0@,
                                members@[k].0@,
                            ) by {
                                if members@[k].0@ != members@[b as int].0@ {
                                    lemma_text_less_transitive(
                                        members@[i as int].0@,
                                        members@[b as int].0@,
                                        members@[k].0@,
                                    );
                                }
                            }
                        }
                        best = Some(i);
                    } else {
                        proof {
                            lemma_text_less_total(members@[i as int].0@, members@[b as int].0@);
                        }
                    }
                },
                None => {
                    best = Some(i);
                },
            }
        }
        i += 1;
    }
    proof {
        assert forall|o: Seq<char>| #[trigger] m.contains_key(o) implies exists|k: int|
            0 <= k < members@.len() && (#[trigger] members@[k]).0@ == o by {
            assert(all.contains_key(o));
        }
        match best {
            Some(b) => {
                assert forall|o: Seq<char>| #[trigger] m.contains_key(o) && o
                    != members@[b as int].0@ implies text_less(members@[b as int].0@, o) by {
                    let k = choose|k: int|
                        0 <= k < members@.len() && (#[trigger] members@[k]).0@ == o;
                    assert(m.contains_key(members@[k].0@));
                }
            },
            None => {
                assert forall|o: Seq<char>| !m.dom().contains(o) by {
                    if m.contains_key(o) {
                        let k = choose|k: int|
                            0 <= k < members@.len() && (#[trigger] members@[k]).0@ == o;
                        assert(m.contains_key(members@[k].0@));
                    }
                }
            },
        }
    }
    best
}

/// The values of the first two members, in ascending order of their names.
pub fn first_two_values(members: &Vec<(String, Json)>) -> (r: Vec<Json>)
    ensures
        models(r@) == first_two(member_map(members@)),
{
    let mut out: Vec<Json> = Vec::new();
    let ghost m = member_map(members@);
    match least_place(members, None) {
        Some(i) => {
            proof {
                lemma_least(m, members@[i as int].0@);
                assert(m.dom().contains(members@[i as int].0@));
            }
            let a = last_value(members, members[i].0.as_str());
            out.push(a);
            match least_place(members, Some(members[i].0.as_str())) {
                Some(j) => {
                    proof {
                        let rest = m.remove(members@[i as int].0@);
                        lemma_least(rest, members@[j as int].0@);
                        assert(rest.dom().contains(members@[j as int].0@));
                    }
                    let b = last_value(members, members[j].0.as_str());
                    out.push(b);
                },
                None => {},
            }
        },
        None => {},
    }
    proof {
        lemma_models(out@);
        assert(models(out@) =~= first_two(m));
    }
    out
}

/// A copy of the value that counts for the name.
fn last_value(members: &Vec<(String, Json)>, name: &str) -> (r: Json)
    requires
        member_map(members@).contains_key(name@),
    ensures
        r@ == member_map(members@)[name@],
{
    let mut i: usize = members.len();
    assert(members@.take(i as int) =~= members@);
    while i > 0
        invariant
            i <= members@.len(),
            member_map(members@.take(i as int)).contains_key(name@),
            member_map(members@)[name@] == member_map(members@.take(i as int))[name@],
        decreases i,
    {
        let ghost before = members@.take(i as int);
        assert(before.drop_last() =~= members@.take(i - 1));
        i -= 1;
        assert(before.last() == members@[i as int]);
        if text_eq(members[i].0.as_str(), name) {
            return members[i].1.copied();
        }
    }
    assert(members@.take(0) =~= Seq::<(String, Json)>::empty());
    Json::Null
}

// ─── Text ───────────────────────────────────────────────────────────────────

/// `serde_json::Value`, carried between the calls below.
#[verifier::external_type_specification]
#[verifier::external_body]
pub struct ExValue(serde_json::Value);

/// What a `serde_json::Value` holds.
pub uninterp spec fn value_model(v: serde_json::Value) -> JsonView;

/// What `serde_json::from_str` reads from a text as a `serde_json::Value`;
/// `None` where it returns an error.
pub uninterp spec fn json_parsed(text: Seq<char>) -> Option<JsonView>;

/// What the `serde_json::Value` made of a JSON value holds.
pub uninterp spec fn stored_model(v: JsonView) -> JsonView;

/// What `serde_json` writes for a value.
pub uninterp spec fn json_text(v: JsonView) -> Seq<char>;

/// Whether `serde_json` keeps the value as it is: its numbers are integers, at
/// most `depth` arrays and objects are nested, and no member has the name under
/// which `serde_json` passes raw text.
pub open spec fn plain(v: JsonView, depth: nat) -> bool
    decreases depth,
{
    match v {
        JsonView::Null => true,
        JsonView::Bool(_) => true,
        JsonView::Natural(_) => true,
        JsonView::Negative(n) => n < 0,
        JsonView::Decimal(_) => false,
        JsonView::Str(_) => true,
        JsonView::Array(items) => depth > 0 && forall|i: int|
            0 <= i < items.len() ==> plain(#[trigger] items[i], (depth - 1) as nat),
        JsonView::Object(members) => depth > 0 && !members.contains_key(
            "$serde_json::private::RawValue"@,
        ) && forall|k: Seq<char>| #[trigger]
            members.contains_key(k) ==> plain(members[k], (depth - 1) as nat),
    }
}

/// What a member map holds is one of the members.
pub proof fn lemma_members_map(members: Seq<(Seq<char>, JsonView)>, name: Seq<char>)
    requires
        members_map(members).contains_key(name),
    ensures
        exists|i: int|
            0 <= i < members.len() && (#[trigger] members[i]) == (
                name,
                members_map(members)[name],
            ),
    decreases members.len(),
{
    let last = members.len() - 1;
    if members.last().0 == name {
        assert(members[last] == (name, members_map(members)[name]));
    } else {
        let front = members.drop_last();
        lemma_members_map(front, name);
        let i = choose|i: int|
            0 <= i < front.len() && (#[trigger] front[i]) == (name, members_map(front)[name]);
        assert(members[i] == front[i]);
    }
}

/// An object has each member that no later one replaces.
pub proof fn lemma_object_member(members: Seq<(Seq<char>, JsonView)>, i: int)
    requires
        0 <= i < members.len(),
        forall|j: int| i < j < members.len() ==> (#[trigger] members[j]).0 != members[i].0,
    ensures
        member(object(members), members[i].0) == Some(members[i].1),
    decreases members.len(),
{
    if i < members.len() - 1 {
        let front = members.drop_last();
        assert(members.last() == members[members.len() - 1]);
        lemma_object_member(front, i);
    }
}

/// An object has no member of another name.
pub proof fn lemma_object_missing(members: Seq<(Seq<char>, JsonView)>, name: Seq<char>)
    requires
        forall|j: int| 0 <= j < members.len() ==> (#[trigger] members[j]).0 != name,
    ensures
        member(object(members), name) is None,
{
    if members_map(members).contains_key(name) {
        lemma_members_map(members, name);
    }
}

/// An object of plain values under short names is plain.
pub proof fn lemma_plain_object(members: Seq<(Seq<char>, JsonView)>, depth: nat)
    requires
        depth > 0,
        forall|i: int|
            0 <= i < members.len() ==> (#[trigger] members[i]).0.len() < 30 && plain(
                members[i].1,
                (depth - 1) as nat,
            ),
    ensures
        plain(object(members), depth),
{
    reveal_strlit("$serde_json::private::RawValue");
    let raw = "$serde_json::private::RawValue"@;
    let map = members_map(members);
    if map.contains_key(raw) {
        lemma_members_map(members, raw);
        let i = choose|i: int| 0 <= i < members.len() && (#[trigger] members[i]) == (raw, map[raw]);
        assert(members[i].0.len() == 30);
    }
    assert forall|k: Seq<char>| #[trigger] map.contains_key(k) implies plain(
        map[k],
        (depth - 1) as nat,
    ) by {
        lemma_members_map(members, k);
        let i = choose|i: int| 0 <= i < members.len() && (#[trigger] members[i]) == (k, map[k]);
        assert(plain(members[i].1, (depth - 1) as nat));
    }
}

/// The JSON array of texts.
pub open spec fn text_array(items: Seq<Seq<char>>) -> JsonView {
    JsonView::Array(Seq::new(items.len(), |i: int| JsonView::Str(items[i])))
}

pub proof fn lemma_plain_texts(items: Seq<Seq<char>>, depth: nat)
    requires
        depth > 0,
    ensures
        plain(text_array(items), depth),
{
    reveal_with_fuel(plain, 2);
}

/// Makes a JSON array of texts.
pub fn json_texts(items: &Vec<String>) -> (r: Json)
    ensures
        r@ == text_array(texts(items@)),
{
    let mut out: Vec<Json> = Vec::new();
    let mut i: usize = 0;
    while i < items.len()
        invariant
            i <= items@.len(),
            out@.len() == i,
            forall|k: int| 0 <= k < i ==> (#[trigger] out@[k])@ == JsonView::Str(items@[k]@),
        decreases items@.len() - i,
    {
        out.push(Json::Str(items[i].clone()));
        i += 1;
    }
    proof {
        lemma_models(out@);
        assert(models(out@) =~= Seq::new(
            texts(items@).len(),
            |i: int| JsonView::Str(texts(items@)[i]),
        ));
    }
    Json::Array(out)
}

/// The depth of nesting that `serde_json` reads back.
pub const JSON_DEPTH: u64 = 127;

/// Calls `serde_json::from_str::<serde_json::Value>`. The result is named: it
/// depends on the text alone.
#[verifier::external_body]
fn value_from_text(text: &str) -> (r: Option<serde_json::Value>)
    ensures
        match r {
            Some(v) => json_parsed(text@) == Some(value_model(v)),
            None => json_parsed(text@) is None,
        },
{
    serde_json::from_str(text).ok()
}

/// Takes a `serde_json::Value` apart, through `serde_json::Number::as_u64` and
/// `as_i64`: the result holds what the value holds.
#[verifier::external_body]
pub(crate) fn json_from_value(v: serde_json::Value) -> (r: Json)
    ensures
        r@ == value_model(v),
{
    match v {
        Value::Null => Json::Null,
        Value::Bool(b) => Json::Bool(b),
        Value::Number(n) => Json::Number(
            n.as_u64().map(JsonNumber::Natural).or(n.as_i64().map(JsonNumber::Negative)).unwrap_or(
                JsonNumber::Decimal(n.to_string()),
            ),
        ),
        Value::String(s) => Json::Str(s),
        Value::Array(a) => Json::Array(a.into_iter().map(json_from_value).collect()),
        Value::Object(m) => Json::Object(
            m.into_iter().map(|(k, v)| (k, json_from_value(v))).collect(),
        ),
    }
}

/// Makes a `serde_json::Value`, through its `From` and `FromIterator` and, for a
/// number that is no integer, `serde_json::Number::from_str`. What it then holds
/// is named; it is the value itself where that is `plain`. What a number that is
/// no integer becomes is left unsaid.
#[verifier::external_body]
pub(crate) fn value_from_json(j: &Json) -> (r: serde_json::Value)
    ensures
        value_model(r) == stored_model(j@),
        plain(j@, JSON_DEPTH as nat) ==> value_model(r) == j@,
{
    match j {
        Json::Null => Value::Null,
        Json::Bool(b) => Value::from(*b),
        Json::Number(JsonNumber::Natural(n)) => Value::from(*n),
        Json::Number(JsonNumber::Negative(n)) => Value::from(*n),
        Json::Number(JsonNumber::Decimal(t)) => t.parse().map(Value::Number).unwrap_or_default(),
        Json::Str(s) => Value::from(s.as_str()),
        Json::Array(a) => a.iter().map(value_from_json).collect(),
        Json::Object(m) => m.iter().map(|(k, v)| (k.as_str(), value_from_json(v))).collect(),
    }
}

/// Calls the `Display` of `serde_json::Value`, which writes compact JSON with the
/// members of an object in ascending order of their names. The text is named; of
/// a plain value, `serde_json::from_str` reads back what was written.
#[verifier::external_body]
fn value_to_text(v: &serde_json::Value) -> (r: String)
    ensures
        r@ == json_text(value_model(*v)),
        plain(value_model(*v), JSON_DEPTH as nat) ==> json_parsed(r@) == Some(value_model(*v)),
{
    v.to_string()
}

/// The compact JSON text of an object with its members in the given order, as a
/// `serde_json::Serializer` writes it.
pub uninterp spec fn object_text(members: Seq<(Seq<char>, JsonView)>) -> Seq<char>;

/// Whether an object of the members is read back as it was written.
pub open spec fn plain_members(members: Seq<(Seq<char>, JsonView)>) -> bool {
    forall|i: int|
        0 <= i < members.len() ==> (#[trigger] members[i]).0 != "$serde_json::private::RawValue"@
            && plain(members[i].1, (JSON_DEPTH - 1) as nat)
}

/// Calls `serde::Serializer::collect_map` on a `serde_json::Serializer`, which writes
/// the members in their order. The text is named; of plain members,
/// `serde_json::from_str` reads back an object of them.
#[verifier::external_body]
fn members_to_text(members: &Vec<(String, Json)>) -> (r: String)
    ensures
        r@ == object_text(member_views(members@)),
        plain_members(member_views(members@)) ==> json_parsed(r@) == Some(
            object(member_views(members@)),
        ),
{
    let mut out: Vec<u8> = Vec::new();
    let mut writer = serde_json::Serializer::new(&mut out);
    let pairs = members.iter().map(|(k, v)| (k, value_from_json(v)));
    let done = serde::Serializer::collect_map(&mut writer, pairs);
    done.map(|_| String::from_utf8_lossy(&out).into_owned()).unwrap_or_default()
}

impl ObjectBuilder {
    /// The JSON text of the object, with its members in the order in which they were
    /// added. An object of plain members is read back as it was.
    pub fn text(self) -> (r: String)
        ensures
            r@ == object_text(self@),
            plain_members(self@) ==> json_parsed(r@) == Some(object(self@)),
    {
        members_to_text(&self.members)
    }
}

/// Members of short names and plain values are plain.
pub proof fn lemma_plain_members(members: Seq<(Seq<char>, JsonView)>)
    requires
        forall|i: int|
            0 <= i < members.len() ==> (#[trigger] members[i]).0.len() < 30 && plain(
                members[i].1,
                (JSON_DEPTH - 1) as nat,
            ),
    ensures
        plain_members(members),
{
    reveal_strlit("$serde_json::private::RawValue");
}

/// The JSON text of a value.
pub open spec fn json_rendered(v: JsonView) -> Seq<char> {
    json_text(stored_model(v))
}

/// Reads a JSON text. It is read whole: of members of one name the last counts, and a
/// number out of range or a value nested too deeply refuses the text wherever it stands.
pub fn parse_json(text: &str) -> (r: Option<Json>)
    ensures
        match r {
            Some(v) => json_parsed(text@) == Some(v@),
            None => json_parsed(text@) is None,
        },
{
    match value_from_text(text) {
        Some(v) => Some(json_from_value(v)),
        None => None,
    }
}

/// Writes a value as compact JSON. A plain value is read back as it was.
pub fn render_json(v: &Json) -> (r: String)
    ensures
        r@ == json_rendered(v@),
        plain(v@, JSON_DEPTH as nat) ==> json_parsed(r@) == Some(v@),
{
    value_to_text(&value_from_json(v))
}

/// An integer is read back from the number that is written for it, and no other value is
/// read as an integer.
pub proof fn law_integer_comes_back(n: i64, v: JsonView)
    ensures
        as_integer(Some(integer(n))) == Some(n),
        as_integer(Some(v)) is Some ==> v is Natural || v is Negative,
        v matches JsonView::Natural(m) ==> m > i64::MAX ==> as_integer(Some(v)) is None,
        v matches JsonView::Natural(m) ==> m <= i64::MAX ==> as_integer(Some(v)) == Some(m as i64),
{
}

/// The first two members are those whose names come before all others.
pub proof fn law_first_two_come_first(m: Map<Seq<char>, JsonView>, a: Seq<char>, b: Seq<char>)
    requires
        m.contains_key(a) && m.contains_key(b) && a != b,
        text_less(a, b),
        forall|o: Seq<char>| #[trigger]
            m.contains_key(o) && o != a && o != b ==> text_less(a, o) && text_less(b, o),
    ensures
        first_two(m) == seq![m[a], m[b]],
{
    let rest = m.remove(a);
    assert(is_least(m, a));
    lemma_least(m, a);
    assert(m.dom().contains(a));
    assert(rest.dom().contains(b));
    assert(is_least(rest, b)) by {
        assert forall|o: Seq<char>| #[trigger] rest.contains_key(o) && o != b implies text_less(
            b,
            o,
        ) by {
            assert(m.contains_key(o));
        }
    }
    lemma_least(rest, b);
}

} // verus!
