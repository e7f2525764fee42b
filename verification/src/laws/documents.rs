//! Documents and settings: what stands in an object is what is read from it.

use vstd::prelude::*;

use crate::json::{
    bool_in, int_in, lookup, member, string_in, with_member, JsonView,
};
use crate::source::SourceSettings;

verus! {

/// No key comes twice.
pub open spec fn apart(o: Seq<(Seq<char>, JsonView)>) -> bool {
    forall|i: int, j: int| 0 <= i < j < o.len() ==> (#[trigger] o[i]).0 != (#[trigger] o[j]).0
}

/// The object has the member `key` with this value.
pub open spec fn holds(o: Seq<(Seq<char>, JsonView)>, key: Seq<char>, value: JsonView) -> bool {
    apart(o) && o.contains((key, value))
}

/// The object has no member `key`.
pub open spec fn lacks(o: Seq<(Seq<char>, JsonView)>, key: Seq<char>) -> bool {
    forall|i: int| 0 <= i < o.len() ==> (#[trigger] o[i]).0 != key
}

/// Looking up a member of an object gives its value.
pub proof fn lemma_held(o: Seq<(Seq<char>, JsonView)>, key: Seq<char>, value: JsonView)
    requires
        holds(o, key, value),
    ensures
        lookup(o, key) == Some(value),
        member(Some(JsonView::Object(o)), key) == Some(value),
    decreases o.len(),
{
    let k = choose|k: int| 0 <= k < o.len() && o[k] == (key, value);
    if o[0].0 == key {
        if k > 0 {
            assert(o[0].0 != o[k].0);
        }
    } else {
        let rest = o.skip(1);
        assert forall|i: int, j: int| 0 <= i < j < rest.len() implies (#[trigger] rest[i]).0 != (
        #[trigger] rest[j]).0 by {
            assert(o[i + 1].0 != o[j + 1].0);
        }
        assert(rest[k - 1] == (key, value));
        lemma_held(rest, key, value);
    }
}

/// Looking up what is not there gives nothing.
pub proof fn lemma_lacking(o: Seq<(Seq<char>, JsonView)>, key: Seq<char>)
    requires
        lacks(o, key),
    ensures
        lookup(o, key) is None,
        member(Some(JsonView::Object(o)), key) is None,
    decreases o.len(),
{
    if o.len() > 0 {
        assert(o[0].0 != key);
        let rest = o.skip(1);
        assert forall|i: int| 0 <= i < rest.len() implies (#[trigger] rest[i]).0 != key by {
            assert(o[i + 1].0 != key);
        }
        lemma_lacking(rest, key);
    }
}

/// Only objects have members.
pub proof fn lemma_no_members(v: JsonView, key: Seq<char>)
    requires
        !(v is Object),
    ensures
        member(Some(v), key) is None,
        member(None, key) is None,
{
}

/// A setting is read as it stands in the settings: a number, a switch or a text,
/// each where its value is one; any other value, or none, gives the default.
pub proof fn lemma_settings_read(
    s: &SourceSettings,
    key: Seq<char>,
    number: i64,
    flag: bool,
    text: Seq<char>,
    d_number: i64,
    d_flag: bool,
    d_text: Seq<char>,
)
    ensures
        holds(s.0@, key, JsonView::Int(number as int)) ==> s.i64_at(key, d_number) == number,
        holds(s.0@, key, JsonView::Bool(flag)) ==> s.bool_at(key, d_flag) == flag,
        holds(s.0@, key, JsonView::Str(text)) ==> s.str_at(key, d_text) == text,
        holds(s.0@, key, JsonView::Int(number as int)) ==> s.bool_at(key, d_flag) == d_flag
            && s.str_at(key, d_text) == d_text,
        holds(s.0@, key, JsonView::Str(text)) ==> s.bool_at(key, d_flag) == d_flag && s.i64_at(
            key,
            d_number,
        ) == d_number,
        lacks(s.0@, key) ==> s.i64_at(key, d_number) == d_number && s.bool_at(key, d_flag) == d_flag
            && s.str_at(key, d_text) == d_text,
{
    let o = s.0@;
    if holds(o, key, JsonView::Int(number as int)) {
        lemma_held(o, key, JsonView::Int(number as int));
    }
    if holds(o, key, JsonView::Bool(flag)) {
        lemma_held(o, key, JsonView::Bool(flag));
    }
    if holds(o, key, JsonView::Str(text)) {
        lemma_held(o, key, JsonView::Str(text));
    }
    if lacks(o, key) {
        lemma_lacking(o, key);
    }
}

/// Reading a value of its kind gives what it holds, and of another kind nothing.
pub proof fn lemma_kinds(n: int, b: bool, s: Seq<char>)
    ensures
        i64::MIN <= n <= i64::MAX ==> int_in(Some(JsonView::Int(n))) == Some(n as i64),
        bool_in(Some(JsonView::Bool(b))) == Some(b),
        string_in(Some(JsonView::Str(s))) == Some(s),
        int_in(Some(JsonView::Str(s))) is None,
        bool_in(Some(JsonView::Str(s))) is None,
        string_in(Some(JsonView::Int(n))) is None,
        string_in(Some(JsonView::Null)) is None,
        string_in(None) is None,
{
}

/// Setting a member changes that member alone: it has the new value, and what is
/// read under any other key stays.
pub proof fn lemma_set_is_local(
    o: Seq<(Seq<char>, JsonView)>,
    key: Seq<char>,
    value: JsonView,
    other: Seq<char>,
)
    ensures
        lookup(with_member(o, key, value), key) == Some(value),
        other != key ==> lookup(with_member(o, key, value), other) == lookup(o, other),
{
    crate::json::lemma_set_member(o, key, value, key);
    crate::json::lemma_set_member(o, key, value, other);
}

} // verus!
