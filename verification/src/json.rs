//! JSON values, as far as Kubernetes objects and patches need them.

use vstd::prelude::*;

use crate::text::{decimal_i64, decimal_int, text_eq};

verus! {

/// A JSON value. Numbers keep their text.
#[derive(Debug, PartialEq, Eq)]
pub enum Value {
    Null,
    Bool(bool),
    Number(String),
    Text(String),
    Array(Vec<Value>),
    Object(Vec<(String, Value)>),
}

/// What a [`Value`] holds; the members of an object keep their order.
pub enum JsonView {
    Null,
    Bool(bool),
    Number(Seq<char>),
    Text(Seq<char>),
    Array(Seq<JsonView>),
    Object(Seq<(Seq<char>, JsonView)>),
}

/// What a [`Value`] holds.
pub open spec fn json_of(v: Value) -> JsonView
    decreases v,
{
    match v {
        Value::Null => JsonView::Null,
        Value::Bool(b) => JsonView::Bool(b),
        Value::Number(n) => JsonView::Number(n@),
        Value::Text(s) => JsonView::Text(s@),
        Value::Array(items) => JsonView::Array(
            Seq::new(
                items@.len(),
                |i: int|
                    if 0 <= i < items@.len() {
                        json_of(items@[i])
                    } else {
                        JsonView::Null
                    },
            ),
        ),
        Value::Object(members) => JsonView::Object(
            Seq::new(
                members@.len(),
                |i: int|
                    if 0 <= i < members@.len() {
                        (members@[i].0@, json_of(members@[i].1))
                    } else {
                        (Seq::empty(), JsonView::Null)
                    },
            ),
        ),
    }
}

impl View for Value {
    type V = JsonView;

    open spec fn view(&self) -> JsonView {
        json_of(*self)
    }
}

impl Clone for Value {
    fn clone(&self) -> (r: Self)
        ensures
            r@ == self@,
        decreases self,
    {
        match self {
            Value::Null => Value::Null,
            Value::Bool(b) => Value::Bool(*b),
            Value::Number(n) => Value::Number(n.clone()),
            Value::Text(s) => Value::Text(s.clone()),
            Value::Array(items) => {
                let mut copy: Vec<Value> = Vec::new();
                for i in 0..items.len()
                    invariant
                        *self == Value::Array(*items),
                        copy@.len() == i,
                        forall|j: int| 0 <= j < i ==> json_of(copy@[j]) == json_of(items@[j]),
                {
                    assert(decreases_to!(*self => self->Array_0));
                    assert(decreases_to!(*items => items@));
                    assert(decreases_to!(items@ => items@[i as int]));
                    let item = items[i].clone();
                    copy.push(item);
                }
                let r = Value::Array(copy);
                assert(json_of(r)->Array_0 =~= json_of(*self)->Array_0);
                r
            },
            Value::Object(members) => {
                let mut copy: Vec<(String, Value)> = Vec::new();
                for i in 0..members.len()
                    invariant
                        *self == Value::Object(*members),
                        copy@.len() == i,
                        forall|j: int|
                            0 <= j < i ==> copy@[j].0@ == members@[j].0@ && json_of(copy@[j].1)
                                == json_of(members@[j].1),
                {
                    assert(decreases_to!(*self => self->Object_0));
                    assert(decreases_to!(*members => members@));
                    assert(decreases_to!(members@ => members@[i as int]));
                    assert(decreases_to!(members@[i as int] => members@[i as int].1));
                    let member = (members[i].0.clone(), members[i].1.clone());
                    copy.push(member);
                }
                let r = Value::Object(copy);
                assert(json_of(r)->Object_0 =~= json_of(*self)->Object_0);
                r
            },
        }
    }
}

/// The first member with a key.
pub open spec fn member(members: Seq<(Seq<char>, JsonView)>, key: Seq<char>) -> Option<JsonView>
    decreases members.len(),
{
    if members.len() == 0 {
        None
    } else if members[0].0 == key {
        Some(members[0].1)
    } else {
        member(members.drop_first(), key)
    }
}

impl JsonView {
    /// The member of an object with a key.
    pub open spec fn field(self, key: Seq<char>) -> Option<JsonView> {
        match self {
            JsonView::Object(members) => member(members, key),
            _ => None,
        }
    }

    /// The value reached through the members with the given keys.
    pub open spec fn at(self, path: Seq<Seq<char>>) -> Option<JsonView>
        decreases path.len(),
    {
        if path.len() == 0 {
            Some(self)
        } else {
            match self.field(path[0]) {
                Some(v) => v.at(path.drop_first()),
                None => None,
            }
        }
    }

    /// The text of a string.
    pub open spec fn text(self) -> Option<Seq<char>> {
        match self {
            JsonView::Text(s) => Some(s),
            _ => None,
        }
    }

    /// The text of the member of an object with a key.
    pub open spec fn text_field(self, key: Seq<char>) -> Option<Seq<char>> {
        match self.field(key) {
            Some(v) => v.text(),
            None => None,
        }
    }
}

/// What a possibly absent value holds.
pub open spec fn opt_json(v: Option<&Value>) -> Option<JsonView> {
    match v {
        Some(v) => Some(v@),
        None => None,
    }
}

impl Value {
    /// The member of an object with a key.
    pub fn get(&self, key: &str) -> (v: Option<&Value>)
        ensures
            opt_json(v) == self@.field(key@),
    {
        match self {
            Value::Object(members) => {
                let ghost all = self@->Object_0;
                assert(all.skip(0) =~= all);
                for i in 0..members.len()
                    invariant
                        *self == Value::Object(*members),
                        all == self@->Object_0,
                        all.len() == members@.len(),
                        self@.field(key@) == member(all.skip(i as int), key@),
                {
                    assert(all.skip(i as int).drop_first() =~= all.skip(i + 1));
                    assert(all.skip(i as int)[0] == all[i as int]);
                    if text_eq(&members[i].0, key) {
                        return Some(&members[i].1);
                    }
                }
                None
            },
            _ => None,
        }
    }

    /// The value reached through the members with the given keys.
    pub fn pointer(&self, path: &[&str]) -> (v: Option<&Value>)
        ensures
            opt_json(v) == self@.at(path.deep_view()),
    {
        let mut at: &Value = self;
        let ghost keys = path.deep_view();
        assert(keys.skip(0) =~= keys);
        for i in 0..path.len()
            invariant
                keys == path.deep_view(),
                self@.at(keys) == at@.at(keys.skip(i as int)),
        {
            assert(keys.skip(i as int).drop_first() =~= keys.skip(i + 1));
            assert(keys.skip(i as int)[0] == path@[i as int]@);
            match at.get(path[i]) {
                Some(v) => {
                    at = v;
                },
                None => return None,
            }
        }
        assert(keys.skip(path@.len() as int) =~= Seq::empty());
        Some(at)
    }

    /// The text of a string.
    pub fn as_str(&self) -> (text: Option<&str>)
        ensures
            text.deep_view() == self@.text(),
    {
        match self {
            Value::Text(s) => Some(s.as_str()),
            _ => None,
        }
    }

    /// Whether the value is `null`.
    pub fn is_null(&self) -> (null: bool)
        ensures
            null == (self@ == JsonView::Null),
    {
        matches!(self, Value::Null)
    }
}

/// The text of the member of an object with a key.
pub fn text_at(v: Option<&Value>, key: &str) -> (text: Option<String>)
    ensures
        text.deep_view() == (match v {
            Some(v) => v@.text_field(key@),
            None => None,
        }),
{
    match v {
        Some(v) => match v.get(key) {
            Some(v) => match v.as_str() {
                Some(s) => Some(s.to_string()),
                None => None,
            },
            None => None,
        },
        None => None,
    }
}

/// The value without the `null` members of objects, however deeply they are nested in objects.
pub open spec fn stripped(v: JsonView) -> JsonView
    decreases v,
{
    match v {
        JsonView::Object(members) => JsonView::Object(stripped_members(members)),
        _ => v,
    }
}

/// The members that are not `null`, each without `null` members.
pub open spec fn stripped_members(members: Seq<(Seq<char>, JsonView)>) -> Seq<
    (Seq<char>, JsonView),
>
    decreases members,
{
    if members.len() == 0 {
        Seq::empty()
    } else {
        proof {
            assert(decreases_to!(members => members.subrange(0, members.len() - 1)));
            assert(decreases_to!(members => members[members.len() - 1]));
            assert(decreases_to!(members[members.len() - 1] => members[members.len() - 1].1));
        }
        let rest = stripped_members(members.subrange(0, members.len() - 1));
        let last = members[members.len() - 1];
        if last.1 == JsonView::Null {
            rest
        } else {
            rest.push((last.0, stripped(last.1)))
        }
    }
}

/// The value without the `null` members of objects, however deeply they are nested in objects.
pub fn without_nulls(value: &Value) -> (r: Value)
    ensures
        r@ == stripped(value@),
    decreases value,
{
    match value {
        Value::Object(members) => {
            let mut kept: Vec<(String, Value)> = Vec::new();
            let ghost all = value@->Object_0;
            assert(all.take(0) =~= Seq::empty());
            for i in 0..members.len()
                invariant
                    *value == Value::Object(*members),
                    all == value@->Object_0,
                    all.len() == members@.len(),
                    member_views(kept@) == stripped_members(all.take(i as int)),
            {
                let ghost next = all.take(i + 1);
                assert(next.subrange(0, next.len() - 1) =~= all.take(i as int));
                assert(next[i as int] == (members@[i as int].0@, members@[i as int].1@));
                if !members[i].1.is_null() {
                    assert(decreases_to!(*value => value->Object_0));
                    assert(decreases_to!(*members => members@));
                    assert(decreases_to!(members@ => members@[i as int]));
                    assert(decreases_to!(members@[i as int] => members@[i as int].1));
                    let m = (members[i].0.clone(), without_nulls(&members[i].1));
                    let ghost before = kept@;
                    kept.push(m);
                    assert(member_views(kept@) =~= member_views(before).push((m.0@, m.1@)));
                }
            }
            assert(all.take(members@.len() as int) =~= all);
            let r = Value::Object(kept);
            assert(r@->Object_0 =~= member_views(kept@));
            r
        },
        _ => value.clone(),
    }
}

/// Whether a value is no object, or an object without `null` members, however deeply they are
/// nested in objects.
pub open spec fn null_free(v: JsonView) -> bool
    decreases v,
{
    match v {
        JsonView::Object(members) => forall|i: int|
            0 <= i < members.len() ==> (#[trigger] members[i]).1 != JsonView::Null && null_free(
                members[i].1,
            ),
        _ => true,
    }
}

/// The members that are left have no `null` members.
proof fn lemma_stripped_members(members: Seq<(Seq<char>, JsonView)>)
    ensures
        forall|i: int|
            0 <= i < stripped_members(members).len() ==> (#[trigger] stripped_members(
                members,
            )[i]).1 != JsonView::Null && null_free(stripped_members(members)[i].1),
        (forall|i: int|
            0 <= i < members.len() ==> (#[trigger] members[i]).1 != JsonView::Null && null_free(
                members[i].1,
            )) ==> stripped_members(members) == members,
    decreases members,
{
    if members.len() > 0 {
        assert(decreases_to!(members => members.subrange(0, members.len() - 1)));
        assert(decreases_to!(members => members[members.len() - 1]));
        assert(decreases_to!(members[members.len() - 1] => members[members.len() - 1].1));
        let rest = members.subrange(0, members.len() - 1);
        let last = members[members.len() - 1];
        lemma_stripped_members(rest);
        law_no_null_member_remains(last.1);
        if forall|i: int|
            0 <= i < members.len() ==> (#[trigger] members[i]).1 != JsonView::Null && null_free(
                members[i].1,
            ) {
            assert forall|i: int| 0 <= i < rest.len() implies (#[trigger] rest[i]).1
                != JsonView::Null && null_free(rest[i].1) by {
                assert(members[i].1 != JsonView::Null);
            }
            assert(stripped_members(members) =~= members);
        }
    }
}

/// No object nested in objects keeps a `null` member, and a value without such members is left as
/// it is.
pub proof fn law_no_null_member_remains(v: JsonView)
    ensures
        null_free(stripped(v)),
        null_free(v) ==> stripped(v) == v,
        stripped(v) == JsonView::Null <==> v == JsonView::Null,
    decreases v,
{
    if let JsonView::Object(members) = v {
        assert(decreases_to!(v => v->Object_0));
        lemma_stripped_members(members);
    }
}

/// What the members of an object hold.
pub open spec fn member_views(members: Seq<(String, Value)>) -> Seq<(Seq<char>, JsonView)> {
    members.map_values(|m: (String, Value)| (m.0@, m.1@))
}

/// What the items of an array hold.
pub open spec fn item_views(items: Seq<Value>) -> Seq<JsonView> {
    items.map_values(|v: Value| v@)
}

/// Whether two values hold the same, members of objects being in the same order.
pub fn same_value(a: &Value, b: &Value) -> (same: bool)
    ensures
        same == (a@ == b@),
    decreases a,
{
    match (a, b) {
        (Value::Null, Value::Null) => true,
        (Value::Bool(x), Value::Bool(y)) => *x == *y,
        (Value::Number(x), Value::Number(y)) => text_eq(x, y),
        (Value::Text(x), Value::Text(y)) => text_eq(x, y),
        (Value::Array(x), Value::Array(y)) => {
            let ghost va = a@->Array_0;
            let ghost vb = b@->Array_0;
            if x.len() != y.len() {
                assert(va.len() != vb.len());
                return false;
            }
            for i in 0..x.len()
                invariant
                    *a == Value::Array(*x),
                    *b == Value::Array(*y),
                    x@.len() == y@.len(),
                    va == a@->Array_0,
                    vb == b@->Array_0,
                    forall|j: int| 0 <= j < i ==> va[j] == vb[j],
            {
                assert(decreases_to!(*a => a->Array_0));
                assert(decreases_to!(*x => x@));
                assert(decreases_to!(x@ => x@[i as int]));
                if !same_value(&x[i], &y[i]) {
                    assert(va[i as int] != vb[i as int]);
                    return false;
                }
            }
            assert(va =~= vb);
            true
        },
        (Value::Object(x), Value::Object(y)) => {
            let ghost va = a@->Object_0;
            let ghost vb = b@->Object_0;
            if x.len() != y.len() {
                assert(va.len() != vb.len());
                return false;
            }
            for i in 0..x.len()
                invariant
                    *a == Value::Object(*x),
                    *b == Value::Object(*y),
                    x@.len() == y@.len(),
                    va == a@->Object_0,
                    vb == b@->Object_0,
                    forall|j: int| 0 <= j < i ==> va[j] == vb[j],
            {
                assert(decreases_to!(*a => a->Object_0));
                assert(decreases_to!(*x => x@));
                assert(decreases_to!(x@ => x@[i as int]));
                assert(decreases_to!(x@[i as int] => x@[i as int].1));
                if !text_eq(&x[i].0, &y[i].0) || !same_value(&x[i].1, &y[i].1) {
                    assert(va[i as int] != vb[i as int]);
                    return false;
                }
            }
            assert(va =~= vb);
            true
        },
        _ => false,
    }
}

/// Members and, if there is a value, one more.
pub open spec fn with_member(
    members: Seq<(Seq<char>, JsonView)>,
    key: Seq<char>,
    value: Option<JsonView>,
) -> Seq<(Seq<char>, JsonView)> {
    match value {
        Some(v) => members.push((key, v)),
        None => members,
    }
}

/// The JSON form of a text, if it is present.
pub open spec fn text_member(s: Option<Seq<char>>) -> Option<JsonView> {
    match s {
        Some(s) => Some(JsonView::Text(s)),
        None => None,
    }
}

/// The members of an object that is being written.
pub struct Members {
    pub list: Vec<(String, Value)>,
}

impl View for Members {
    type V = Seq<(Seq<char>, JsonView)>;

    open spec fn view(&self) -> Seq<(Seq<char>, JsonView)> {
        member_views(self.list@)
    }
}

impl Members {
    /// No members.
    pub fn new() -> (m: Members)
        ensures
            m@ == Seq::<(Seq<char>, JsonView)>::empty(),
    {
        let m = Members { list: Vec::new() };
        assert(m@ =~= Seq::empty());
        m
    }

    /// The members and one more.
    pub fn with(self, key: &str, value: Value) -> (m: Members)
        ensures
            m@ == self@.push((key@, value@)),
    {
        let mut list = self.list;
        list.push((key.to_string(), value));
        let m = Members { list };
        assert(m@ =~= self@.push((key@, value@)));
        m
    }

    /// The members and, if there is a value, one more.
    pub fn with_some(self, key: &str, value: Option<Value>) -> (m: Members)
        ensures
            m@ == with_member(
                self@,
                key@,
                match value {
                    Some(v) => Some(v@),
                    None => None,
                },
            ),
    {
        match value {
            Some(v) => self.with(key, v),
            None => self,
        }
    }

    /// The members and, if the text is present, one more.
    pub fn with_text(self, key: &str, value: &Option<String>) -> (m: Members)
        ensures
            m@ == with_member(self@, key@, text_member(value.deep_view())),
    {
        match value {
            Some(s) => self.with(key, text(s)),
            None => self,
        }
    }

    /// The object with these members.
    pub fn object(self) -> (v: Value)
        ensures
            v@ == JsonView::Object(self@),
    {
        let v = Value::Object(self.list);
        assert(v@->Object_0 =~= self@);
        v
    }
}

/// A JSON string.
pub fn text(s: &str) -> (v: Value)
    ensures
        v@ == JsonView::Text(s@),
{
    Value::Text(s.to_string())
}

/// The JSON form of an optional text: `null` if it is absent.
pub open spec fn opt_text_json(s: Option<Seq<char>>) -> JsonView {
    match s {
        Some(s) => JsonView::Text(s),
        None => JsonView::Null,
    }
}

/// The JSON form of an optional text: `null` if it is absent.
pub fn opt_text(s: &Option<String>) -> (v: Value)
    ensures
        v@ == opt_text_json(s.deep_view()),
{
    match s {
        Some(s) => Value::Text(s.clone()),
        None => Value::Null,
    }
}

/// A JSON number.
pub fn number(n: i64) -> (v: Value)
    ensures
        v@ == JsonView::Number(decimal_int(n as int)),
{
    Value::Number(decimal_i64(n))
}

/// The JSON form of an optional number: `null` if it is absent.
pub open spec fn opt_number_json(n: Option<int>) -> JsonView {
    match n {
        Some(n) => JsonView::Number(decimal_int(n)),
        None => JsonView::Null,
    }
}

/// The JSON form of an optional number: `null` if it is absent.
pub fn opt_number(n: Option<i64>) -> (v: Value)
    ensures
        v@ == opt_number_json(match n {
            Some(n) => Some(n as int),
            None => None,
        }),
{
    match n {
        Some(n) => number(n),
        None => Value::Null,
    }
}

/// The JSON array of some texts.
pub fn texts(list: &[String]) -> (v: Value)
    ensures
        v@ == JsonView::Array(list.deep_view().map_values(|s: Seq<char>| JsonView::Text(s))),
{
    let mut items: Vec<Value> = Vec::new();
    let ghost all = list.deep_view().map_values(|s: Seq<char>| JsonView::Text(s));
    for i in 0..list.len()
        invariant
            all == list.deep_view().map_values(|s: Seq<char>| JsonView::Text(s)),
            item_views(items@) == all.take(i as int),
    {
        let ghost before = items@;
        items.push(text(&list[i]));
        assert(all[i as int] == JsonView::Text(list@[i as int]@));
        assert(item_views(items@) =~= item_views(before).push(all[i as int]));
        assert(all.take(i + 1) =~= all.take(i as int).push(all[i as int]));
    }
    assert(all.take(list@.len() as int) =~= all);
    let v = Value::Array(items);
    assert(v@->Array_0 =~= item_views(items@));
    v
}

/// Writing an object without its absent members keeps all others, in their order, each written the
/// same way; what is no object is written as it is.
pub proof fn law_present_members_are_kept(
    members: Seq<(Seq<char>, JsonView)>,
    key: Seq<char>,
    value: JsonView,
)
    ensures
        stripped(JsonView::Object(members)) == JsonView::Object(stripped_members(members)),
        stripped_members(Seq::empty()) == Seq::<(Seq<char>, JsonView)>::empty(),
        stripped_members(members.push((key, value))) == (if value == JsonView::Null {
            stripped_members(members)
        } else {
            stripped_members(members).push((key, stripped(value)))
        }),
        !(value is Object) ==> stripped(value) == value,
{
    let all = members.push((key, value));
    assert(all.subrange(0, all.len() - 1) =~= members);
}

/// The member of an object with a key is the first one with it.
pub proof fn law_the_first_member_counts(
    members: Seq<(Seq<char>, JsonView)>,
    i: int,
    key: Seq<char>,
)
    requires
        0 <= i < members.len(),
        members[i].0 == key,
        forall|j: int| 0 <= j < i ==> (#[trigger] members[j]).0 != key,
    ensures
        JsonView::Object(members).field(key) == Some(members[i].1),
    decreases members.len(),
{
    if i > 0 {
        let rest = members.drop_first();
        assert(members[0].0 != key);
        assert(rest[i - 1] == members[i]);
        assert forall|j: int| 0 <= j < i - 1 implies (#[trigger] rest[j]).0 != key by {
            assert(rest[j] == members[j + 1]);
        }
        law_the_first_member_counts(rest, i - 1, key);
    }
}

/// An object without a key has no member with it; nor has anything that is no object.
pub proof fn law_absent_members_are_absent(v: JsonView, key: Seq<char>)
    ensures
        v matches JsonView::Object(members) ==> (forall|j: int|
            0 <= j < members.len() ==> (#[trigger] members[j]).0 != key) ==> v.field(key) is None,
        !(v is Object) ==> v.field(key) is None,
{
    if let JsonView::Object(members) = v {
        if forall|j: int| 0 <= j < members.len() ==> (#[trigger] members[j]).0 != key {
            lemma_no_member(members, key);
        }
    }
}

/// Without a key there is no member with it.
proof fn lemma_no_member(members: Seq<(Seq<char>, JsonView)>, key: Seq<char>)
    requires
        forall|j: int| 0 <= j < members.len() ==> (#[trigger] members[j]).0 != key,
    ensures
        member(members, key) is None,
    decreases members.len(),
{
    if members.len() > 0 {
        let rest = members.drop_first();
        assert forall|j: int| 0 <= j < rest.len() implies (#[trigger] rest[j]).0 != key by {
            assert(rest[j] == members[j + 1]);
        }
        assert(members[0].0 != key);
        lemma_no_member(rest, key);
    }
}

/// A value is reached member by member.
pub proof fn law_values_are_reached_member_by_member(
    v: JsonView,
    key: Seq<char>,
    path: Seq<Seq<char>>,
)
    ensures
        v.at(Seq::empty()) == Some(v),
        v.at(seq![key] + path) == (match v.field(key) {
            Some(inner) => inner.at(path),
            None => None,
        }),
{
    assert((seq![key] + path).drop_first() =~= path);
}

} // verus!
