//! JSON documents as plain values.

use vstd::prelude::*;

use crate::text::{
    comes_before, ends_with, free_of, lemma_precedes_strict, lemma_precedes_trans, opt_text,
    precedes, same,
};

verus! {

/// A JSON value. Objects keep their members in the order of their keys.
#[derive(Debug)]
pub enum Json {
    Null,
    Bool(bool),
    Int(i64),
    /// An integer above the range of `i64`.
    Large(u64),
    /// Any other number, in decimal notation.
    Decimal(String),
    Str(String),
    List(Vec<Json>),
    Object(JsonMap),
}

/// The members of a JSON object.
#[derive(Debug)]
pub struct JsonMap {
    pub members: Vec<(String, Json)>,
}

/// A JSON value as a mathematical tree.
pub enum JsonView {
    Null,
    Bool(bool),
    Int(int),
    Decimal(Seq<char>),
    Str(Seq<char>),
    List(Seq<JsonView>),
    Object(Seq<(Seq<char>, JsonView)>),
}

/// What a JSON value holds.
pub open spec fn contents(j: Json) -> JsonView
    decreases j,
{
    match j {
        Json::Null => JsonView::Null,
        Json::Bool(b) => JsonView::Bool(b),
        Json::Int(n) => JsonView::Int(n as int),
        Json::Large(n) => JsonView::Int(n as int),
        Json::Decimal(t) => JsonView::Decimal(t@),
        Json::Str(s) => JsonView::Str(s@),
        Json::List(items) => JsonView::List(
            Seq::new(
                items@.len(),
                |i: int|
                    if 0 <= i < items@.len() {
                        contents(items@[i])
                    } else {
                        arbitrary()
                    },
            ),
        ),
        Json::Object(map) => JsonView::Object(
            Seq::new(
                map.members@.len(),
                |i: int|
                    if 0 <= i < map.members@.len() {
                        (map.members@[i].0@, contents(map.members@[i].1))
                    } else {
                        arbitrary()
                    },
            ),
        ),
    }
}

impl View for Json {
    type V = JsonView;

    open spec fn view(&self) -> JsonView {
        contents(*self)
    }
}

impl View for JsonMap {
    type V = Seq<(Seq<char>, JsonView)>;

    open spec fn view(&self) -> Seq<(Seq<char>, JsonView)> {
        Seq::new(
            self.members@.len(),
            |i: int|
                if 0 <= i < self.members@.len() {
                    (self.members@[i].0@, self.members@[i].1@)
                } else {
                    arbitrary()
                },
        )
    }
}

/// The members stand in the order of their keys, so no key comes twice.
pub open spec fn sorted(m: Seq<(Seq<char>, JsonView)>) -> bool {
    forall|i: int, j: int| 0 <= i < j < m.len() ==> precedes(#[trigger] m[i].0, #[trigger] m[j].0)
}

/// Every object in the value has its members in the order of their keys.
pub open spec fn well_formed(v: JsonView) -> bool
    decreases v,
{
    match v {
        JsonView::List(items) => forall|i: int|
            0 <= i < items.len() ==> well_formed(#[trigger] items[i]),
        JsonView::Object(m) => sorted(m) && forall|i: int|
            0 <= i < m.len() ==> well_formed((#[trigger] m[i]).1),
        _ => true,
    }
}

/// A number that is no integer, of up to fifteen digits without an exponent.
pub open spec fn short_decimal(t: Seq<char>) -> bool {
    t.len() <= 16 && free_of(t, 'e')
}

/// The value nests at most `depth` deep, and its numbers are integers or have
/// few digits.
pub open spec fn plain(v: JsonView, depth: nat) -> bool
    decreases v,
{
    match v {
        JsonView::Decimal(t) => short_decimal(t),
        JsonView::List(items) => depth > 0 && forall|i: int|
            0 <= i < items.len() ==> plain(#[trigger] items[i], (depth - 1) as nat),
        JsonView::Object(m) => depth > 0 && forall|i: int|
            0 <= i < m.len() ==> plain((#[trigger] m[i]).1, (depth - 1) as nat),
        _ => true,
    }
}

/// The value of the first member called `key`.
pub open spec fn lookup(m: Seq<(Seq<char>, JsonView)>, key: Seq<char>) -> Option<JsonView>
    decreases m.len(),
{
    if m.len() == 0 {
        None
    } else if m[0].0 == key {
        Some(m[0].1)
    } else {
        lookup(m.skip(1), key)
    }
}

/// The member `key` of an object; no other value has members.
pub open spec fn member(v: Option<JsonView>, key: Seq<char>) -> Option<JsonView> {
    match v {
        Some(JsonView::Object(m)) => lookup(m, key),
        _ => None,
    }
}

pub open spec fn string_in(v: Option<JsonView>) -> Option<Seq<char>> {
    match v {
        Some(JsonView::Str(s)) => Some(s),
        _ => None,
    }
}

pub open spec fn bool_in(v: Option<JsonView>) -> Option<bool> {
    match v {
        Some(JsonView::Bool(b)) => Some(b),
        _ => None,
    }
}

/// An integer in the range of `i64`.
pub open spec fn int_in(v: Option<JsonView>) -> Option<i64> {
    match v {
        Some(JsonView::Int(n)) => if i64::MIN <= n <= i64::MAX {
            Some(n as i64)
        } else {
            None
        },
        _ => None,
    }
}

pub open spec fn list_in(v: Option<JsonView>) -> Option<Seq<JsonView>> {
    match v {
        Some(JsonView::List(items)) => Some(items),
        _ => None,
    }
}

/// The first item of a list.
pub open spec fn first_in(v: Option<JsonView>) -> Option<JsonView> {
    match list_in(v) {
        Some(items) => if items.len() > 0 {
            Some(items[0])
        } else {
            None
        },
        None => None,
    }
}

/// A string that is not empty.
pub open spec fn filled(s: Option<Seq<char>>) -> Option<Seq<char>> {
    match s {
        Some(t) => if t.len() > 0 {
            Some(t)
        } else {
            None
        },
        None => None,
    }
}

pub open spec fn opt_view(v: Option<&Json>) -> Option<JsonView> {
    match v {
        Some(j) => Some(j@),
        None => None,
    }
}

pub open spec fn members_in(v: Option<JsonView>) -> Option<Seq<(Seq<char>, JsonView)>> {
    match v {
        Some(JsonView::Object(m)) => Some(m),
        _ => None,
    }
}

impl JsonMap {
    pub fn new() -> (r: JsonMap)
        ensures
            r@ == Seq::<(Seq<char>, JsonView)>::empty(),
    {
        let r = JsonMap { members: Vec::new() };
        assert(r@ =~= Seq::<(Seq<char>, JsonView)>::empty());
        r
    }

    /// The value of the member `key`.
    pub fn get(&self, key: &str) -> (r: Option<&Json>)
        ensures
            opt_view(r) == lookup(self@, key@),
    {
        let mut i: usize = 0;
        assert(self@.skip(0) =~= self@);
        while i < self.members.len()
            invariant
                i <= self.members.len(),
                lookup(self@, key@) == lookup(self@.skip(i as int), key@),
            decreases self.members.len() - i,
        {
            assert(self@.skip(i as int).skip(1) =~= self@.skip(i + 1));
            assert(self@.skip(i as int)[0] == self@[i as int]);
            if same(self.members[i].0.as_str(), key) {
                return Some(&self.members[i].1);
            }
            i += 1;
        }
        None
    }
}

/// The member `key` of an object.
pub fn field<'a>(v: Option<&'a Json>, key: &str) -> (r: Option<&'a Json>)
    ensures
        opt_view(r) == member(opt_view(v), key@),
{
    match v {
        Some(Json::Object(map)) => {
            assert(map@ =~= v->0@->Object_0);
            map.get(key)
        },
        _ => None,
    }
}

pub fn string(v: Option<&Json>) -> (r: Option<String>)
    ensures
        opt_text(r) == string_in(opt_view(v)),
{
    match v {
        Some(Json::Str(s)) => Some(s.clone()),
        _ => None,
    }
}

pub fn boolean(v: Option<&Json>) -> (r: Option<bool>)
    ensures
        r == bool_in(opt_view(v)),
{
    match v {
        Some(Json::Bool(b)) => Some(*b),
        _ => None,
    }
}

pub fn integer(v: Option<&Json>) -> (r: Option<i64>)
    ensures
        r == int_in(opt_view(v)),
{
    match v {
        Some(Json::Int(n)) => Some(*n),
        Some(Json::Large(n)) => if *n <= i64::MAX as u64 {
            Some(*n as i64)
        } else {
            None
        },
        _ => None,
    }
}

/// The items of a list.
pub open spec fn views(items: Seq<Json>) -> Seq<JsonView> {
    Seq::new(items.len(), |i: int| items[i]@)
}

pub fn list<'a>(v: Option<&'a Json>) -> (r: Option<&'a Vec<Json>>)
    ensures
        match r {
            Some(items) => list_in(opt_view(v)) == Some(views(items@)),
            None => list_in(opt_view(v)) is None,
        },
{
    match v {
        Some(Json::List(items)) => {
            assert(views(items@) =~= v->0@->List_0);
            Some(items)
        },
        _ => None,
    }
}

pub fn first<'a>(v: Option<&'a Json>) -> (r: Option<&'a Json>)
    ensures
        opt_view(r) == first_in(opt_view(v)),
{
    match list(v) {
        Some(items) => if items.len() > 0 {
            Some(&items[0])
        } else {
            None
        },
        None => None,
    }
}

/// A string that is not empty.
pub fn filled_string(s: Option<String>) -> (r: Option<String>)
    ensures
        opt_text(r) == filled(opt_text(s)),
{
    match s {
        Some(t) => if t.as_str().is_empty() {
            None
        } else {
            Some(t)
        },
        None => None,
    }
}

/// The first member called `key`, or the number of members.
pub open spec fn position(m: Seq<(Seq<char>, JsonView)>, key: Seq<char>, from: int) -> int
    decreases m.len() - from,
{
    if from >= m.len() {
        m.len() as int
    } else if m[from].0 == key {
        from
    } else {
        position(m, key, from + 1)
    }
}

/// The first member whose key comes behind `key`, or the number of members.
pub open spec fn slot(m: Seq<(Seq<char>, JsonView)>, key: Seq<char>, from: int) -> int
    decreases m.len() - from,
{
    if from >= m.len() {
        m.len() as int
    } else if precedes(key, m[from].0) {
        from
    } else {
        slot(m, key, from + 1)
    }
}

/// The members with `key` set to `value`.
pub open spec fn with_member(
    m: Seq<(Seq<char>, JsonView)>,
    key: Seq<char>,
    value: JsonView,
) -> Seq<(Seq<char>, JsonView)> {
    let i = position(m, key, 0);
    if i < m.len() {
        m.update(i, (key, value))
    } else {
        m.insert(slot(m, key, 0), (key, value))
    }
}

proof fn lemma_position(m: Seq<(Seq<char>, JsonView)>, key: Seq<char>, from: int)
    requires
        0 <= from <= m.len(),
    ensures
        from <= position(m, key, from) <= m.len(),
        position(m, key, from) < m.len() ==> m[position(m, key, from)].0 == key,
        forall|i: int| from <= i < position(m, key, from) ==> (#[trigger] m[i]).0 != key,
    decreases m.len() - from,
{
    if from < m.len() && m[from].0 != key {
        lemma_position(m, key, from + 1);
    }
}

proof fn lemma_slot(m: Seq<(Seq<char>, JsonView)>, key: Seq<char>, from: int)
    requires
        0 <= from <= m.len(),
    ensures
        from <= slot(m, key, from) <= m.len(),
        slot(m, key, from) < m.len() ==> precedes(key, m[slot(m, key, from)].0),
        forall|i: int| from <= i < slot(m, key, from) ==> !precedes(key, (#[trigger] m[i]).0),
    decreases m.len() - from,
{
    if from < m.len() && !precedes(key, m[from].0) {
        lemma_slot(m, key, from + 1);
    }
}

/// A lookup finds the value at the first position of the key.
proof fn lemma_lookup(m: Seq<(Seq<char>, JsonView)>, key: Seq<char>)
    ensures
        lookup(m, key) == (if position(m, key, 0) < m.len() {
            Some(m[position(m, key, 0)].1)
        } else {
            None
        }),
    decreases m.len(),
{
    if m.len() > 0 && m[0].0 != key {
        lemma_lookup(m.skip(1), key);
        lemma_position(m, key, 0);
        lemma_position(m.skip(1), key, 0);
        let i = position(m, key, 0);
        let j = position(m.skip(1), key, 0);
        if i < m.len() {
            assert(m.skip(1)[i - 1] == m[i]);
        }
        if j < m.len() - 1 {
            assert(m.skip(1)[j] == m[j + 1]);
            if j + 1 < i {
                assert(m[j + 1].0 != key);
            }
            if i < j + 1 {
                assert(m.skip(1)[i - 1].0 != key);
            }
        }
    }
}

proof fn lemma_lookup_is(m: Seq<(Seq<char>, JsonView)>, key: Seq<char>, i: int)
    requires
        0 <= i <= m.len(),
        i < m.len() ==> m[i].0 == key,
        forall|j: int| 0 <= j < i ==> (#[trigger] m[j]).0 != key,
    ensures
        lookup(m, key) == (if i < m.len() {
            Some(m[i].1)
        } else {
            None
        }),
{
    lemma_lookup(m, key);
    lemma_position(m, key, 0);
    let p = position(m, key, 0);
    if p < i {
        assert(m[p].0 != key);
    }
    if i < p {
        assert(m[i].0 != key);
    }
}

/// Setting a member makes it readable and leaves every other member as it was.
pub proof fn lemma_set_member(
    m: Seq<(Seq<char>, JsonView)>,
    key: Seq<char>,
    value: JsonView,
    other: Seq<char>,
)
    ensures
        lookup(with_member(m, key, value), other) == (if other == key {
            Some(value)
        } else {
            lookup(m, other)
        }),
{
    let n = with_member(m, key, value);
    lemma_position(m, key, 0);
    lemma_slot(m, key, 0);
    lemma_position(m, other, 0);
    lemma_lookup(m, other);
    let i = position(m, key, 0);
    let p = position(m, other, 0);
    if i < m.len() {
        if other == key {
            lemma_lookup_is(n, other, i);
        } else {
            lemma_lookup_is(n, other, p);
        }
    } else {
        let at = slot(m, key, 0);
        assert forall|j: int| 0 <= j < n.len() implies #[trigger] n[j] == (if j < at {
            m[j]
        } else if j == at {
            (key, value)
        } else {
            m[j - 1]
        }) by {}
        if other == key {
            lemma_lookup_is(n, other, at);
        } else {
            let q = if p < at {
                p
            } else {
                p + 1
            };
            lemma_lookup_is(n, other, q);
        }
    }
}

/// Setting a member keeps the members in the order of their keys.
pub proof fn lemma_set_member_sorted(
    m: Seq<(Seq<char>, JsonView)>,
    key: Seq<char>,
    value: JsonView,
)
    requires
        sorted(m),
    ensures
        sorted(with_member(m, key, value)),
{
    let n = with_member(m, key, value);
    lemma_position(m, key, 0);
    lemma_slot(m, key, 0);
    let p = position(m, key, 0);
    let at = slot(m, key, 0);
    assert forall|i: int, j: int| 0 <= i < j < n.len() implies precedes(
        #[trigger] n[i].0,
        #[trigger] n[j].0,
    ) by {
        if p < m.len() {
            assert(precedes(m[i].0, m[j].0));
        } else if j < at {
            assert(precedes(m[i].0, m[j].0));
        } else if j == at {
            assert(m[i].0 != key);
            assert(!precedes(key, m[i].0));
            lemma_precedes_strict(m[i].0, key);
        } else if i < at {
            assert(precedes(m[i].0, m[j - 1].0));
        } else if i == at {
            if j - 1 > at {
                assert(precedes(m[at].0, m[j - 1].0));
                lemma_precedes_trans(key, m[at].0, m[j - 1].0);
            }
        } else {
            assert(precedes(m[i - 1].0, m[j - 1].0));
        }
    }
}

/// Setting a member to a well-formed value keeps an object well-formed.
pub proof fn lemma_set_member_well_formed(
    m: Seq<(Seq<char>, JsonView)>,
    key: Seq<char>,
    value: JsonView,
)
    requires
        well_formed(JsonView::Object(m)),
        well_formed(value),
    ensures
        well_formed(JsonView::Object(with_member(m, key, value))),
{
    lemma_set_member_sorted(m, key, value);
    lemma_position(m, key, 0);
    lemma_slot(m, key, 0);
    let n = with_member(m, key, value);
    let p = position(m, key, 0);
    let at = slot(m, key, 0);
    assert forall|i: int| 0 <= i < n.len() implies well_formed((#[trigger] n[i]).1) by {
        if p < m.len() {
            if i != p {
                assert(well_formed(m[i].1));
            }
        } else if i < at {
            assert(well_formed(m[i].1));
        } else if i > at {
            assert(well_formed(m[i - 1].1));
        }
    }
}

impl JsonMap {
    /// Sets the member `key` to `value`.
    pub fn insert(&mut self, key: &str, value: Json)
        ensures
            final(self)@ == with_member(old(self)@, key@, value@),
    {
        let ghost before = self@;
        let ghost held = value@;
        let mut i: usize = 0;
        while i < self.members.len() && !same(self.members[i].0.as_str(), key)
            invariant
                i <= self.members.len(),
                self@ == before,
                position(before, key@, 0) == position(before, key@, i as int),
            decreases self.members.len() - i,
        {
            assert(before[i as int].0 == self.members@[i as int].0@);
            i += 1;
        }
        if i < self.members.len() {
            assert(before[i as int].0 == self.members@[i as int].0@);
            self.members.set(i, (key.to_owned(), value));
            assert(self@ =~= before.update(i as int, (key@, held)));
            return;
        }
        let mut at: usize = 0;
        while at < self.members.len() && !comes_before(key, self.members[at].0.as_str())
            invariant
                at <= self.members.len(),
                self@ == before,
                slot(before, key@, 0) == slot(before, key@, at as int),
            decreases self.members.len() - at,
        {
            assert(before[at as int].0 == self.members@[at as int].0@);
            at += 1;
        }
        assert(at < before.len() ==> before[at as int].0 == self.members@[at as int].0@);
        self.members.insert(at, (key.to_owned(), value));
        assert(self@ =~= before.insert(at as int, (key@, held)));
    }

    /// A copy of the members.
    pub fn copy(&self) -> (r: JsonMap)
        ensures
            r@ == self@,
        decreases self,
    {
        let mut out: Vec<(String, Json)> = Vec::new();
        let mut i: usize = 0;
        while i < self.members.len()
            invariant
                i <= self.members.len(),
                out.len() == i,
                forall|j: int|
                    0 <= j < i ==> (#[trigger] out@[j]).0@ == self.members@[j].0@ && out@[j].1@
                        == self.members@[j].1@,
            decreases self.members.len() - i,
        {
            let item = &self.members[i];
            out.push((item.0.clone(), item.1.copy()));
            i += 1;
        }
        let r = JsonMap { members: out };
        assert(r@ =~= self@);
        r
    }
}

impl Json {
    /// A copy of the value.
    pub fn copy(&self) -> (r: Json)
        ensures
            r@ == self@,
        decreases self,
    {
        match self {
            Json::Null => Json::Null,
            Json::Bool(b) => Json::Bool(*b),
            Json::Int(n) => Json::Int(*n),
            Json::Large(n) => Json::Large(*n),
            Json::Decimal(t) => Json::Decimal(t.clone()),
            Json::Str(s) => Json::Str(s.clone()),
            Json::List(items) => {
                let mut out: Vec<Json> = Vec::new();
                let mut i: usize = 0;
                while i < items.len()
                    invariant
                        i <= items.len(),
                        out.len() == i,
                        *self == Json::List(*items),
                        forall|j: int| 0 <= j < i ==> (#[trigger] out@[j])@ == items@[j]@,
                    decreases items.len() - i,
                {
                    assert(self->List_0 == *items);
                    assert(decreases_to!(*self => self->List_0@[i as int]));
                    out.push(items[i].copy());
                    i += 1;
                }
                let r = Json::List(out);
                assert(r@->List_0 =~= self@->List_0);
                r
            },
            Json::Object(map) => {
                let r = Json::Object(map.copy());
                assert(r@->Object_0 =~= r->Object_0@);
                assert(self@->Object_0 =~= map@);
                r
            },
        }
    }
}

/// `serde_json::Value`.
#[verifier::external_type_specification]
#[verifier::external_body]
pub struct ExValue(serde_json::Value);

/// What a `serde_json::Value` holds.
pub uninterp spec fn value_contents(v: serde_json::Value) -> JsonView;

/// The document in a text, as `serde_json::from_str` reads it, or the message
/// of its error.
pub uninterp spec fn json_in_text(s: Seq<char>) -> Result<JsonView, Seq<char>>;

/// The document in a byte string, as `serde_json::from_slice` reads it, or the
/// message of its error.
pub uninterp spec fn json_in_bytes(b: Seq<u8>) -> Result<JsonView, Seq<char>>;

/// A document as `serde_json` stores it: numbers in its own notation and the
/// members of objects sorted.
pub uninterp spec fn stored(v: JsonView) -> JsonView;

/// A document as `serde_json::to_string_pretty` writes it.
pub uninterp spec fn pretty(v: JsonView) -> Seq<char>;

/// `serde_json::from_str`, into a `Value`: claims that the document, or the
/// message of the error, is a function of the text, and that a document nests
/// no deeper than its recursion limit.
#[verifier::external_body]
fn read_text(s: &str) -> (r: Result<serde_json::Value, String>)
    ensures
        match r {
            Ok(v) => json_in_text(s@) == Ok::<JsonView, Seq<char>>(value_contents(v)) && nests(
                value_contents(v),
                max_depth(),
            ),
            Err(reason) => json_in_text(s@) == Err::<JsonView, Seq<char>>(reason@),
        },
{
    serde_json::from_str(s).map_err(|e| e.to_string())
}

/// `serde_json::from_slice`, into a `Value`: claims that the document, or the
/// message of the error, is a function of the bytes, and that a document nests
/// no deeper than its recursion limit.
#[verifier::external_body]
fn read_bytes(b: &[u8]) -> (r: Result<serde_json::Value, String>)
    ensures
        match r {
            Ok(v) => json_in_bytes(b@) == Ok::<JsonView, Seq<char>>(value_contents(v)) && nests(
                value_contents(v),
                max_depth(),
            ),
            Err(reason) => json_in_bytes(b@) == Err::<JsonView, Seq<char>>(reason@),
        },
{
    serde_json::from_slice(b).map_err(|e| e.to_string())
}

/// The `Value` variant by variant: claims that nothing of it is lost, that
/// `serde_json::Map` hands its members out sorted by key, and that a number
/// with few digits is written as it is read: up to fifteen digits are exact.
#[verifier::external_body]
fn from_value(v: serde_json::Value) -> (r: Json)
    ensures
        r@ == value_contents(v),
        well_formed(r@),
        short(r@) ==> canonical(r@),
{
    match v {
        serde_json::Value::Null => Json::Null,
        serde_json::Value::Bool(b) => Json::Bool(b),
        serde_json::Value::Number(n) => match (n.as_i64(), n.as_u64()) {
            (Some(i), _) => Json::Int(i),
            (None, Some(u)) => Json::Large(u),
            (None, None) => Json::Decimal(n.to_string()),
        },
        serde_json::Value::String(s) => Json::Str(s),
        serde_json::Value::Array(a) => Json::List(a.into_iter().map(from_value).collect()),
        serde_json::Value::Object(m) => Json::Object(JsonMap {
            members: m.into_iter().map(|(k, v)| (k, from_value(v))).collect(),
        }),
    }
}

/// The value as a `serde_json::Value`, variant by variant; a number that is no
/// integer is read from its text by `serde_json::from_str`. Claims that a
/// well-formed document is stored as it is, but for the numbers that are stored
/// otherwise; that a stored document is well-formed; and that it nests no deeper
/// and has no number near the end of the range, where a number was given by up
/// to three hundred characters without an exponent.
#[verifier::external_body]
fn to_value(j: &Json) -> (r: serde_json::Value)
    ensures
        value_contents(r) == stored(j@),
        well_formed(j@) ==> agrees(j@, value_contents(r)),
        well_formed(j@) && canonical(j@) ==> value_contents(r) == j@,
        well_formed(value_contents(r)),
        readable(j@, max_depth()) ==> legible(value_contents(r), max_depth()),
{
    match j {
        Json::Null => serde_json::Value::Null,
        Json::Bool(b) => serde_json::Value::from(*b),
        Json::Int(n) => serde_json::Value::from(*n),
        Json::Large(n) => serde_json::Value::from(*n),
        Json::Decimal(t) => serde_json::from_str::<serde_json::Number>(t)
            .map_or(serde_json::Value::Null, serde_json::Value::Number),
        Json::Str(s) => serde_json::Value::from(s.as_str()),
        Json::List(v) => serde_json::Value::Array(v.iter().map(to_value).collect()),
        Json::Object(m) => serde_json::Value::Object(
            m.members.iter().map(|(k, v)| (k.clone(), to_value(v))).collect(),
        ),
    }
}

/// `serde_json::to_string_pretty` of a `Value`, which cannot fail: claims that
/// the text is a function of the document; that `serde_json::from_str` reads a
/// document back that nests up to 127 levels deep and has only integers and
/// numbers with few digits; that it reads any document of that depth whose
/// numbers keep away from the end of the range; and that what it reads agrees
/// with the document, but for numbers that are no integers. How such a number
/// with many digits is rounded is left unsaid.
#[verifier::external_body]
fn print_value(v: &serde_json::Value) -> (r: String)
    ensures
        r@ == pretty(value_contents(*v)),
        well_formed(value_contents(*v)) && plain(value_contents(*v), max_depth()) ==> json_in_text(
            r@,
        ) is Ok && json_in_text(r@)->Ok_0 == value_contents(*v),
        legible(value_contents(*v), max_depth()) ==> json_in_text(r@) is Ok,
        well_formed(value_contents(*v)) && json_in_text(r@) is Ok ==> agrees(
            value_contents(*v),
            json_in_text(r@)->Ok_0,
        ),
{
    serde_json::to_string_pretty(v).unwrap_or_default()
}

/// The levels that a document may nest to be read.
pub open spec fn max_depth() -> nat {
    127
}

/// `w` is `v`, but for the numbers in `v` that are no integers.
pub open spec fn agrees(v: JsonView, w: JsonView) -> bool
    decreases v,
{
    match v {
        JsonView::Decimal(_) => true,
        JsonView::List(a) => match w {
            JsonView::List(b) => a.len() == b.len() && forall|i: int|
                0 <= i < a.len() ==> agrees(#[trigger] a[i], b[i]),
            _ => false,
        },
        JsonView::Object(a) => match w {
            JsonView::Object(b) => a.len() == b.len() && forall|i: int|
                0 <= i < a.len() ==> (#[trigger] a[i]).0 == b[i].0 && agrees(a[i].1, b[i].1),
            _ => false,
        },
        _ => v == w,
    }
}

/// What agrees with a document of integers is that document.
pub proof fn lemma_agreed_equal(v: JsonView, w: JsonView)
    requires
        agrees(v, w),
        integral(v),
    ensures
        v == w,
    decreases v,
{
    match v {
        JsonView::List(a) => {
            let b = w->List_0;
            assert forall|i: int| 0 <= i < a.len() implies a[i] == b[i] by {
                assert(agrees(a[i], b[i]));
                lemma_agreed_equal(a[i], b[i]);
            }
            assert(a =~= b);
        },
        JsonView::Object(a) => {
            let b = w->Object_0;
            assert forall|i: int| 0 <= i < a.len() implies a[i] == b[i] by {
                assert(a[i].0 == b[i].0 && agrees(a[i].1, b[i].1));
                lemma_agreed_equal(a[i].1, b[i].1);
            }
            assert(a =~= b);
        },
        _ => {},
    }
}

proof fn lemma_agrees_through(u: JsonView, v: JsonView, w: JsonView)
    requires
        agrees(u, v),
        agrees(v, w),
    ensures
        agrees(u, w),
    decreases u,
{
    match u {
        JsonView::List(a) => {
            let b = v->List_0;
            let c = w->List_0;
            assert forall|i: int| 0 <= i < a.len() implies agrees(#[trigger] a[i], c[i]) by {
                assert(agrees(a[i], b[i]) && agrees(b[i], c[i]));
                lemma_agrees_through(a[i], b[i], c[i]);
            }
        },
        JsonView::Object(a) => {
            let b = v->Object_0;
            let c = w->Object_0;
            assert forall|i: int| 0 <= i < a.len() implies (#[trigger] a[i]).0 == c[i].0 && agrees(
                a[i].1,
                c[i].1,
            ) by {
                assert(a[i].0 == b[i].0 && agrees(a[i].1, b[i].1));
                assert(b[i].0 == c[i].0 && agrees(b[i].1, c[i].1));
                lemma_agrees_through(a[i].1, b[i].1, c[i].1);
            }
        },
        _ => {},
    }
}

/// Documents that agree have the same members, and these agree.
pub proof fn lemma_agreed_member(
    m: Seq<(Seq<char>, JsonView)>,
    n: Seq<(Seq<char>, JsonView)>,
    key: Seq<char>,
)
    requires
        agrees(JsonView::Object(m), JsonView::Object(n)),
    ensures
        lookup(m, key) is Some == lookup(n, key) is Some,
        lookup(m, key) is Some ==> agrees(lookup(m, key)->0, lookup(n, key)->0),
    decreases m.len(),
{
    if m.len() > 0 {
        assert(m[0].0 == n[0].0 && agrees(m[0].1, n[0].1));
        let a = m.skip(1);
        let b = n.skip(1);
        assert forall|i: int| 0 <= i < a.len() implies (#[trigger] a[i]).0 == b[i].0 && agrees(
            a[i].1,
            b[i].1,
        ) by {
            assert(m[i + 1].0 == n[i + 1].0 && agrees(m[i + 1].1, n[i + 1].1));
        }
        lemma_agreed_member(a, b, key);
    }
}

/// All of the numbers in the value are integers.
pub open spec fn integral(v: JsonView) -> bool
    decreases v,
{
    match v {
        JsonView::Decimal(_) => false,
        JsonView::List(items) => forall|i: int|
            0 <= i < items.len() ==> integral(#[trigger] items[i]),
        JsonView::Object(m) => forall|i: int|
            0 <= i < m.len() ==> integral((#[trigger] m[i]).1),
        _ => true,
    }
}

/// All of the numbers in the value that are no integers have few digits.
pub open spec fn short(v: JsonView) -> bool
    decreases v,
{
    match v {
        JsonView::Decimal(t) => short_decimal(t),
        JsonView::List(items) => forall|i: int| 0 <= i < items.len() ==> short(#[trigger] items[i]),
        JsonView::Object(m) => forall|i: int| 0 <= i < m.len() ==> short((#[trigger] m[i]).1),
        _ => true,
    }
}

/// The value nests at most `depth` deep.
pub open spec fn nests(v: JsonView, depth: nat) -> bool
    decreases v,
{
    match v {
        JsonView::List(items) => depth > 0 && forall|i: int|
            0 <= i < items.len() ==> nests(#[trigger] items[i], (depth - 1) as nat),
        JsonView::Object(m) => depth > 0 && forall|i: int|
            0 <= i < m.len() ==> nests((#[trigger] m[i]).1, (depth - 1) as nat),
        _ => true,
    }
}

/// A document that is not too deep and whose numbers have few digits is plain.
pub proof fn lemma_short_plain(v: JsonView, depth: nat)
    requires
        nests(v, depth),
        short(v),
    ensures
        plain(v, depth),
    decreases v,
{
    match v {
        JsonView::List(items) => {
            let below = (depth - 1) as nat;
            assert forall|i: int| 0 <= i < items.len() implies plain(#[trigger] items[i], below) by {
                assert(nests(items[i], below) && short(items[i]));
                lemma_short_plain(items[i], below);
            }
        },
        JsonView::Object(m) => {
            let below = (depth - 1) as nat;
            assert forall|i: int| 0 <= i < m.len() implies plain((#[trigger] m[i]).1, below) by {
                assert(nests(m[i].1, below) && short(m[i].1));
                lemma_short_plain(m[i].1, below);
            }
        },
        _ => {},
    }
}

/// A member of such a value is such a value, one level less deep.
pub proof fn lemma_member_plain(m: Seq<(Seq<char>, JsonView)>, key: Seq<char>, depth: nat)
    requires
        well_formed(JsonView::Object(m)),
        canonical(JsonView::Object(m)),
        plain(JsonView::Object(m), depth),
        lookup(m, key) is Some,
    ensures
        well_formed(lookup(m, key)->0),
        canonical(lookup(m, key)->0),
        depth > 0,
        plain(lookup(m, key)->0, (depth - 1) as nat),
    decreases m.len(),
{
    let whole = JsonView::Object(m);
    assert(whole->Object_0 == m);
    assert(well_formed(m[0].1) && canonical(m[0].1) && plain(m[0].1, (depth - 1) as nat));
    if m[0].0 != key {
        let rest = m.skip(1);
        assert forall|i: int| 0 <= i < rest.len() implies well_formed((#[trigger] rest[i]).1)
            && canonical(rest[i].1) && plain(rest[i].1, (depth - 1) as nat) by {
            assert(whole->Object_0[i + 1] == rest[i]);
            assert(well_formed(m[i + 1].1) && canonical(m[i + 1].1) && plain(
                m[i + 1].1,
                (depth - 1) as nat,
            ));
        }
        assert forall|i: int, j: int| 0 <= i < j < rest.len() implies precedes(
            #[trigger] rest[i].0,
            #[trigger] rest[j].0,
        ) by {
            assert(precedes(m[i + 1].0, m[j + 1].0));
        }
        lemma_member_plain(rest, key, depth);
    }
}

/// All of the numbers in the value are written as they would be stored.
pub open spec fn canonical(v: JsonView) -> bool
    decreases v,
{
    match v {
        JsonView::Decimal(t) => stored(v) == v,
        JsonView::List(items) => forall|i: int|
            0 <= i < items.len() ==> canonical(#[trigger] items[i]),
        JsonView::Object(m) => forall|i: int|
            0 <= i < m.len() ==> canonical((#[trigger] m[i]).1),
        _ => true,
    }
}

/// The value nests at most `depth` deep, and its numbers that are no integers
/// have no exponent and up to three hundred characters.
pub open spec fn readable(v: JsonView, depth: nat) -> bool
    decreases v,
{
    match v {
        JsonView::Decimal(t) => t.len() <= 300 && free_of(t, 'e') && free_of(t, 'E'),
        JsonView::List(items) => depth > 0 && forall|i: int|
            0 <= i < items.len() ==> readable(#[trigger] items[i], (depth - 1) as nat),
        JsonView::Object(m) => depth > 0 && forall|i: int|
            0 <= i < m.len() ==> readable((#[trigger] m[i]).1, (depth - 1) as nat),
        _ => true,
    }
}

/// The value nests at most `depth` deep, and none of its numbers has the largest
/// exponent.
pub open spec fn legible(v: JsonView, depth: nat) -> bool
    decreases v,
{
    match v {
        JsonView::Decimal(t) => !ends_with(t, "e+308"@),
        JsonView::List(items) => depth > 0 && forall|i: int|
            0 <= i < items.len() ==> legible(#[trigger] items[i], (depth - 1) as nat),
        JsonView::Object(m) => depth > 0 && forall|i: int|
            0 <= i < m.len() ==> legible((#[trigger] m[i]).1, (depth - 1) as nat),
        _ => true,
    }
}

/// Integers are always written as they would be stored.
pub proof fn lemma_integral_canonical(v: JsonView)
    requires
        integral(v),
    ensures
        canonical(v),
    decreases v,
{
    match v {
        JsonView::List(items) => {
            assert forall|i: int| 0 <= i < items.len() implies canonical(#[trigger] items[i]) by {
                assert(integral(items[i]));
                lemma_integral_canonical(items[i]);
            }
        },
        JsonView::Object(m) => {
            assert forall|i: int| 0 <= i < m.len() implies canonical((#[trigger] m[i]).1) by {
                assert(integral(m[i].1));
                lemma_integral_canonical(m[i].1);
            }
        },
        _ => {},
    }
}

/// Setting a member to a value that can be written and read back keeps an
/// object such a value.
pub proof fn lemma_set_member_plain(
    m: Seq<(Seq<char>, JsonView)>,
    key: Seq<char>,
    value: JsonView,
    depth: nat,
)
    requires
        plain(JsonView::Object(m), depth),
        canonical(JsonView::Object(m)),
        plain(value, (depth - 1) as nat),
        canonical(value),
    ensures
        plain(JsonView::Object(with_member(m, key, value)), depth),
        canonical(JsonView::Object(with_member(m, key, value))),
{
    lemma_position(m, key, 0);
    lemma_slot(m, key, 0);
    let n = with_member(m, key, value);
    let p = position(m, key, 0);
    let at = slot(m, key, 0);
    let below = (depth - 1) as nat;
    let whole = JsonView::Object(m);
    assert(plain(whole, depth) && canonical(whole));
    assert(whole->Object_0 == m);
    assert forall|i: int| 0 <= i < m.len() implies plain((#[trigger] m[i]).1, below) by {
        assert(plain(whole->Object_0[i].1, below));
    }
    assert forall|i: int| 0 <= i < m.len() implies canonical((#[trigger] m[i]).1) by {
        assert(canonical(whole->Object_0[i].1));
    }
    assert forall|i: int| 0 <= i < n.len() implies plain((#[trigger] n[i]).1, below) && canonical(
        n[i].1,
    ) by {
        if p < m.len() {
            if i != p {
                assert(n[i] == m[i]);
            }
        } else if i < at {
            assert(n[i] == m[i]);
        } else if i > at {
            assert(n[i] == m[i - 1]);
        }
    }
}

/// What reading a document came to.
pub open spec fn read_view(r: Result<Json, String>) -> Result<JsonView, Seq<char>> {
    match r {
        Ok(j) => Ok(j@),
        Err(reason) => Err(reason@),
    }
}

/// The JSON document in a text, or why there is none.
pub fn parse(s: &str) -> (r: Result<Json, String>)
    ensures
        read_view(r) == json_in_text(s@),
        r is Ok ==> well_formed(r->Ok_0@),
        r is Ok && short(r->Ok_0@) ==> canonical(r->Ok_0@),
        r is Ok ==> nests(r->Ok_0@, max_depth()),
{
    match read_text(s) {
        Ok(v) => Ok(from_value(v)),
        Err(reason) => Err(reason),
    }
}

/// The JSON document in a byte string, or why there is none.
pub fn parse_bytes(b: &[u8]) -> (r: Result<Json, String>)
    ensures
        read_view(r) == json_in_bytes(b@),
        r is Ok ==> well_formed(r->Ok_0@),
        r is Ok && short(r->Ok_0@) ==> canonical(r->Ok_0@),
        r is Ok ==> nests(r->Ok_0@, max_depth()),
{
    match read_bytes(b) {
        Ok(v) => Ok(from_value(v)),
        Err(reason) => Err(reason),
    }
}

/// The document as indented text. What was written is what [`parse`] reads, but
/// for numbers that are no integers and have many digits.
pub fn print(j: &Json) -> (r: String)
    ensures
        r@ == pretty(stored(j@)),
        well_formed(j@) && canonical(j@) && plain(j@, max_depth()) ==> json_in_text(r@) is Ok
            && json_in_text(r@)->Ok_0 == j@,
        readable(j@, max_depth()) ==> json_in_text(r@) is Ok,
        well_formed(j@) && json_in_text(r@) is Ok ==> agrees(j@, json_in_text(r@)->Ok_0),
{
    let v = to_value(j);
    let r = print_value(&v);
    proof {
        if well_formed(j@) && json_in_text(r@) is Ok {
            lemma_agrees_through(j@, value_contents(v), json_in_text(r@)->Ok_0);
        }
    }
    r
}

} // verus!
