//! JSON documents as trees, their compact text, and equality.

use vstd::prelude::*;

use vstd::string::*;

use crate::text::str_eq;

verus! {

/// One member of a JSON object.
#[derive(Debug)]
pub struct JsonMember {
    pub key: String,
    pub value: JsonValue,
}

/// A JSON document.
///
/// A number is held as the text that spells it, so two numbers are equal when
/// they are spelled alike. An object holds its members in the order of the
/// document; `member` finds the first one of a given key.
#[derive(Debug)]
pub enum JsonValue {
    Null,
    Bool(bool),
    Number(String),
    Text(String),
    Array(Vec<JsonValue>),
    Object(Vec<JsonMember>),
}

/// A JSON document as contracts see it.
pub enum Json {
    Null,
    Bool(bool),
    Number(Seq<char>),
    Text(Seq<char>),
    Array(Seq<Json>),
    Object(Seq<(Seq<char>, Json)>),
}

pub open spec fn json_view(v: JsonValue) -> Json
    decreases v,
{
    match v {
        JsonValue::Null => Json::Null,
        JsonValue::Bool(b) => Json::Bool(b),
        JsonValue::Number(t) => Json::Number(t@),
        JsonValue::Text(t) => Json::Text(t@),
        JsonValue::Array(items) => Json::Array(items_view(items@)),
        JsonValue::Object(members) => Json::Object(members_view(members@)),
    }
}

pub open spec fn items_view(items: Seq<JsonValue>) -> Seq<Json>
    decreases items,
{
    if items.len() == 0 {
        Seq::empty()
    } else {
        items_view(items.drop_last()).push(json_view(items.last()))
    }
}

pub open spec fn members_view(members: Seq<JsonMember>) -> Seq<(Seq<char>, Json)>
    decreases members,
{
    if members.len() == 0 {
        Seq::empty()
    } else {
        members_view(members.drop_last()).push(
            (members.last().key@, json_view(members.last().value)),
        )
    }
}

impl View for JsonValue {
    type V = Json;

    open spec fn view(&self) -> Json {
        json_view(*self)
    }
}

/// What `serde_json::to_string` returns for a string: the string as a JSON
/// string literal, in double quotes and with its escapes.
pub uninterp spec fn json_quoted(s: Seq<char>) -> Seq<char>;

/// `serde_json::to_string` on a `str`, which cannot fail: the result is the
/// JSON string literal that `json_quoted` names.
#[verifier::external_body]
pub(crate) fn quote_json(s: &str) -> (out: String)
    ensures
        out@ == json_quoted(s@),
{
    serde_json::to_string(s).unwrap_or_default()
}

/// The compact text of a document: no white space, members and items
/// separated by commas, a colon between a key and its value.
pub open spec fn json_text(v: Json) -> Seq<char>
    decreases v,
{
    match v {
        Json::Null => "null"@,
        Json::Bool(b) => if b {
            "true"@
        } else {
            "false"@
        },
        Json::Number(t) => t,
        Json::Text(t) => json_quoted(t),
        Json::Array(items) => "["@ + items_text(items) + "]"@,
        Json::Object(members) => "{"@ + members_text(members) + "}"@,
    }
}

pub open spec fn items_text(items: Seq<Json>) -> Seq<char>
    decreases items,
{
    if items.len() == 0 {
        Seq::empty()
    } else if items.len() == 1 {
        json_text(items[0])
    } else {
        items_text(items.drop_last()) + ","@ + json_text(items.last())
    }
}

pub open spec fn member_text(key: Seq<char>, value_text: Seq<char>) -> Seq<char> {
    json_quoted(key) + ":"@ + value_text
}

pub open spec fn members_text(members: Seq<(Seq<char>, Json)>) -> Seq<char>
    decreases members,
{
    if members.len() == 0 {
        Seq::empty()
    } else if members.len() == 1 {
        member_text(members[0].0, json_text(members[0].1))
    } else {
        members_text(members.drop_last()) + ","@ + member_text(
            members.last().0,
            json_text(members.last().1),
        )
    }
}

/// The member of the first occurrence of `key`, if there is one.
pub open spec fn find_member(members: Seq<(Seq<char>, Json)>, key: Seq<char>) -> Option<Json>
    decreases members.len(),
{
    if members.len() == 0 {
        None
    } else if members[0].0 == key {
        Some(members[0].1)
    } else {
        find_member(members.drop_first(), key)
    }
}

pub proof fn lemma_items_view(items: Seq<JsonValue>)
    ensures
        items_view(items).len() == items.len(),
        forall|i: int| 0 <= i < items.len() ==> #[trigger] items_view(items)[i] == json_view(items[i]),
    decreases items.len(),
{
    if items.len() > 0 {
        lemma_items_view(items.drop_last());
    }
}

pub proof fn lemma_members_view(members: Seq<JsonMember>)
    ensures
        members_view(members).len() == members.len(),
        forall|i: int|
            0 <= i < members.len() ==> #[trigger] members_view(members)[i] == (
                members[i].key@,
                json_view(members[i].value),
            ),
    decreases members.len(),
{
    if members.len() > 0 {
        lemma_members_view(members.drop_last());
    }
}

fn write_items(items: &Vec<JsonValue>, out: &mut String)
    ensures
        final(out)@ == old(out)@ + items_text(items_view(items@)),
    decreases items,
{
    let ghost all = items_view(items@);
    proof {
        lemma_items_view(items@);
    }
    let mut i: usize = 0;
    while i < items.len()
        invariant
            i <= items.len(),
            all == items_view(items@),
            all.len() == items.len(),
            forall|j: int| 0 <= j < items.len() ==> #[trigger] all[j] == json_view(items@[j]),
            out@ == old(out)@ + items_text(all.take(i as int)),
        decreases items.len() - i,
    {
        if i > 0 {
            out.append(",");
        }
        write_json(&items[i], out);
        proof {
            let next = all.take(i + 1);
            assert(next.drop_last() =~= all.take(i as int));
            assert(next.last() == json_view(items@[i as int]));
            if i == 0 {
                assert(old(out)@ + Seq::<char>::empty() + json_text(next[0]) =~= old(out)@
                    + items_text(next));
            } else {
                assert(old(out)@ + items_text(all.take(i as int)) + ","@ + json_text(next.last())
                    =~= old(out)@ + items_text(next));
            }
        }
        i += 1;
    }
    assert(all.take(items.len() as int) =~= all);
}

fn write_members(members: &Vec<JsonMember>, out: &mut String)
    ensures
        final(out)@ == old(out)@ + members_text(members_view(members@)),
    decreases members,
{
    let ghost all = members_view(members@);
    proof {
        lemma_members_view(members@);
    }
    let mut i: usize = 0;
    while i < members.len()
        invariant
            i <= members.len(),
            all == members_view(members@),
            all.len() == members.len(),
            forall|j: int|
                0 <= j < members.len() ==> #[trigger] all[j] == (
                    members@[j].key@,
                    json_view(members@[j].value),
                ),
            out@ == old(out)@ + members_text(all.take(i as int)),
        decreases members.len() - i,
    {
        if i > 0 {
            out.append(",");
        }
        let ghost before = out@;
        let quoted = quote_json(members[i].key.as_str());
        out.append(quoted.as_str());
        out.append(":");
        write_json(&members[i].value, out);
        proof {
            let next = all.take(i + 1);
            assert(next.drop_last() =~= all.take(i as int));
            assert(next.last() == all[i as int]);
            let mt = member_text(next.last().0, json_text(next.last().1));
            assert(out@ =~= before + mt);
            if i == 0 {
                assert(old(out)@ + Seq::<char>::empty() + mt =~= old(out)@ + members_text(next));
            } else {
                assert(old(out)@ + members_text(all.take(i as int)) + ","@ + mt =~= old(out)@
                    + members_text(next));
            }
        }
        i += 1;
    }
    assert(all.take(members.len() as int) =~= all);
}

/// Appends the compact text of `v` to `out`.
pub fn write_json(v: &JsonValue, out: &mut String)
    ensures
        final(out)@ == old(out)@ + json_text(v@),
    decreases v,
{
    match v {
        JsonValue::Null => {
            out.append("null");
        },
        JsonValue::Bool(b) => {
            if *b {
                out.append("true");
            } else {
                out.append("false");
            }
        },
        JsonValue::Number(t) => {
            out.append(t.as_str());
        },
        JsonValue::Text(t) => {
            let quoted = quote_json(t.as_str());
            out.append(quoted.as_str());
        },
        JsonValue::Array(items) => {
            out.append("[");
            write_items(items, out);
            out.append("]");
            assert(out@ =~= old(out)@ + ("["@ + items_text(items_view(items@)) + "]"@));
        },
        JsonValue::Object(members) => {
            out.append("{");
            write_members(members, out);
            out.append("}");
            assert(out@ =~= old(out)@ + ("{"@ + members_text(members_view(members@)) + "}"@));
        },
    }
}

fn items_eq(a: &Vec<JsonValue>, b: &Vec<JsonValue>) -> (r: bool)
    ensures
        r == (items_view(a@) == items_view(b@)),
    decreases a,
{
    proof {
        lemma_items_view(a@);
        lemma_items_view(b@);
    }
    if a.len() != b.len() {
        return false;
    }
    let mut i: usize = 0;
    while i < a.len()
        invariant
            i <= a.len(),
            a.len() == b.len(),
            forall|j: int| 0 <= j < i ==> json_view(a@[j]) == json_view(b@[j]),
        decreases a.len() - i,
    {
        if !json_eq(&a[i], &b[i]) {
            proof {
                lemma_items_view(a@);
                lemma_items_view(b@);
                assert(items_view(a@)[i as int] != items_view(b@)[i as int]);
            }
            return false;
        }
        i += 1;
    }
    proof {
        lemma_items_view(a@);
        lemma_items_view(b@);
        assert(items_view(a@) =~= items_view(b@));
    }
    true
}

fn members_eq(a: &Vec<JsonMember>, b: &Vec<JsonMember>) -> (r: bool)
    ensures
        r == (members_view(a@) == members_view(b@)),
    decreases a,
{
    proof {
        lemma_members_view(a@);
        lemma_members_view(b@);
    }
    if a.len() != b.len() {
        return false;
    }
    let mut i: usize = 0;
    while i < a.len()
        invariant
            i <= a.len(),
            a.len() == b.len(),
            forall|j: int|
                0 <= j < i ==> a@[j].key@ == b@[j].key@ && json_view(a@[j].value) == json_view(
                    b@[j].value,
                ),
        decreases a.len() - i,
    {
        if !str_eq(a[i].key.as_str(), b[i].key.as_str()) || !json_eq(&a[i].value, &b[i].value) {
            proof {
                lemma_members_view(a@);
                lemma_members_view(b@);
                assert(members_view(a@)[i as int] != members_view(b@)[i as int]);
            }
            return false;
        }
        i += 1;
    }
    proof {
        lemma_members_view(a@);
        lemma_members_view(b@);
        assert(members_view(a@) =~= members_view(b@));
    }
    true
}

/// Whether two documents are the same: variant by variant, item by item,
/// member by member.
pub fn json_eq(a: &JsonValue, b: &JsonValue) -> (r: bool)
    ensures
        r == (a@ == b@),
    decreases a,
{
    match (a, b) {
        (JsonValue::Null, JsonValue::Null) => true,
        (JsonValue::Bool(x), JsonValue::Bool(y)) => *x == *y,
        (JsonValue::Number(x), JsonValue::Number(y)) => str_eq(x.as_str(), y.as_str()),
        (JsonValue::Text(x), JsonValue::Text(y)) => str_eq(x.as_str(), y.as_str()),
        (JsonValue::Array(x), JsonValue::Array(y)) => items_eq(x, y),
        (JsonValue::Object(x), JsonValue::Object(y)) => members_eq(x, y),
        _ => false,
    }
}

fn copy_items(items: &Vec<JsonValue>) -> (out: Vec<JsonValue>)
    ensures
        items_view(out@) == items_view(items@),
    decreases items,
{
    let mut out: Vec<JsonValue> = Vec::new();
    let mut i: usize = 0;
    while i < items.len()
        invariant
            i <= items.len(),
            out.len() == i,
            forall|j: int| 0 <= j < i ==> json_view(out@[j]) == json_view(items@[j]),
        decreases items.len() - i,
    {
        out.push(copy_json(&items[i]));
        i += 1;
    }
    proof {
        lemma_items_view(out@);
        lemma_items_view(items@);
        assert(items_view(out@) =~= items_view(items@));
    }
    out
}

fn copy_members(members: &Vec<JsonMember>) -> (out: Vec<JsonMember>)
    ensures
        members_view(out@) == members_view(members@),
    decreases members,
{
    let mut out: Vec<JsonMember> = Vec::new();
    let mut i: usize = 0;
    while i < members.len()
        invariant
            i <= members.len(),
            out.len() == i,
            forall|j: int|
                0 <= j < i ==> out@[j].key@ == members@[j].key@ && json_view(out@[j].value)
                    == json_view(members@[j].value),
        decreases members.len() - i,
    {
        out.push(
            JsonMember { key: members[i].key.clone(), value: copy_json(&members[i].value) },
        );
        i += 1;
    }
    proof {
        lemma_members_view(out@);
        lemma_members_view(members@);
        assert(members_view(out@) =~= members_view(members@));
    }
    out
}

/// A copy of the document.
pub fn copy_json(v: &JsonValue) -> (out: JsonValue)
    ensures
        out@ == v@,
    decreases v,
{
    match v {
        JsonValue::Null => JsonValue::Null,
        JsonValue::Bool(b) => JsonValue::Bool(*b),
        JsonValue::Number(t) => JsonValue::Number(t.clone()),
        JsonValue::Text(t) => JsonValue::Text(t.clone()),
        JsonValue::Array(items) => JsonValue::Array(copy_items(items)),
        JsonValue::Object(members) => JsonValue::Object(copy_members(members)),
    }
}

impl JsonValue {
    /// The compact text of the document.
    pub fn to_text(&self) -> (out: String)
        ensures
            out@ == json_text(self@),
    {
        let mut out = String::new();
        write_json(self, &mut out);
        assert(Seq::<char>::empty() + json_text(self@) =~= json_text(self@));
        out
    }

    /// The item at `index`, where the document is an array that has one.
    pub fn item(&self, index: usize) -> (r: Option<&JsonValue>)
        ensures
            match r {
                Some(x) => self@ is Array && index < self@->Array_0.len() && x@
                    == self@->Array_0[index as int],
                None => !(self@ is Array && index < self@->Array_0.len()),
            },
    {
        match self {
            JsonValue::Array(items) => {
                proof {
                    lemma_items_view(items@);
                }
                if index < items.len() {
                    Some(&items[index])
                } else {
                    None
                }
            },
            _ => None,
        }
    }

    /// The value of the first member named `key`, where the document is an
    /// object that has one.
    pub fn member(&self, key: &str) -> (r: Option<&JsonValue>)
        ensures
            match r {
                Some(x) => self@ is Object && find_member(self@->Object_0, key@) == Some(x@),
                None => !(self@ is Object) || find_member(self@->Object_0, key@) is None,
            },
    {
        match self {
            JsonValue::Object(members) => {
                let ghost all = members_view(members@);
                proof {
                    lemma_members_view(members@);
                }
                let mut i: usize = 0;
                proof {
                    assert(all.skip(0) =~= all);
                }
                while i < members.len()
                    invariant
                        i <= members.len(),
                        all == members_view(members@),
                        self@ == Json::Object(all),
                        all.len() == members.len(),
                        forall|j: int|
                            0 <= j < members.len() ==> #[trigger] all[j] == (
                                members@[j].key@,
                                json_view(members@[j].value),
                            ),
                        find_member(all, key@) == find_member(all.skip(i as int), key@),
                    decreases members.len() - i,
                {
                    let ghost rest = all.skip(i as int);
                    assert(rest[0] == all[i as int]);
                    assert(rest.drop_first() =~= all.skip(i + 1));
                    if str_eq(members[i].key.as_str(), key) {
                        return Some(&members[i].value);
                    }
                    i += 1;
                }
                None
            },
            _ => None,
        }
    }
}

impl Clone for JsonMember {
    fn clone(&self) -> (out: JsonMember)
        ensures
            out.key@ == self.key@,
            out.value@ == self.value@,
    {
        JsonMember { key: self.key.clone(), value: copy_json(&self.value) }
    }
}

impl Clone for JsonValue {
    fn clone(&self) -> (out: JsonValue)
        ensures
            out@ == self@,
    {
        copy_json(self)
    }
}

} // verus!
