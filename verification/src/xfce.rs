//! XFCE's backdrop properties: which ones to set, and the channel file that
//! stores them.

use vstd::prelude::*;

use crate::text::{
    char_from, chars, ends_with, find, find_char, find_from, first_word, free_of, has_suffix, holds,
    is_digit, lemma_find, lemma_find_is, occurs_at, slice, split, split_on, starts_with,
    strip_prefix, texts, trim, trimmed, word_from,
};

verus! {

pub open spec fn name_attribute() -> Seq<char> {
    "name=\"last-image\""@
}

pub open spec fn value_attribute() -> Seq<char> {
    "value=\""@
}

/// Where the value of the first `last-image` property begins and ends.
pub open spec fn first_value(xml: Seq<char>) -> Option<(int, int)> {
    match find(xml, name_attribute(), 0) {
        None => None,
        Some(name) => match find(xml, value_attribute(), name + name_attribute().len()) {
            None => None,
            Some(value) => {
                let from = value + value_attribute().len();
                let to = find_char(xml, '"', from);
                if to < xml.len() {
                    Some((from, to))
                } else {
                    None
                }
            },
        },
    }
}

/// The channel file with the value of every `last-image` property replaced by
/// `abs` and everything else kept.
pub open spec fn with_last_image(xml: Seq<char>, abs: Seq<char>) -> Seq<char>
    decreases xml.len(),
{
    match first_value(xml) {
        Some((from, to)) => {
            proof {
                lemma_first_value(xml);
            }
            xml.take(from) + abs + with_last_image(xml.skip(to), abs)
        },
        None => xml,
    }
}

/// The values of the `last-image` properties, in the order of the file.
pub open spec fn last_images(xml: Seq<char>) -> Seq<Seq<char>>
    decreases xml.len(),
{
    match first_value(xml) {
        Some((from, to)) => {
            proof {
                lemma_first_value(xml);
            }
            seq![xml.subrange(from, to)] + last_images(xml.skip(to))
        },
        None => Seq::empty(),
    }
}

proof fn lemma_find_char(s: Seq<char>, c: char, from: int)
    requires
        0 <= from <= s.len(),
    ensures
        from <= find_char(s, c, from) <= s.len(),
        find_char(s, c, from) < s.len() ==> s[find_char(s, c, from)] == c,
        forall|j: int| from <= j < find_char(s, c, from) ==> s[j] != c,
    decreases s.len() - from,
{
    if from < s.len() && s[from] != c {
        lemma_find_char(s, c, from + 1);
    }
}

proof fn lemma_find_char_is(s: Seq<char>, c: char, from: int, i: int)
    requires
        0 <= from <= i < s.len(),
        s[i] == c,
        forall|j: int| from <= j < i ==> s[j] != c,
    ensures
        find_char(s, c, from) == i,
{
    lemma_find_char(s, c, from);
}

/// A value lies inside the file, behind the attribute that opens it.
pub proof fn lemma_first_value(xml: Seq<char>)
    ensures
        match first_value(xml) {
            Some((from, to)) => 0 < from <= to < xml.len() && xml[to] == '"',
            None => true,
        },
{
    reveal_strlit("value=\"");
    lemma_find(xml, name_attribute(), 0);
    match find(xml, name_attribute(), 0) {
        None => {},
        Some(name) => {
            let at = name + name_attribute().len();
            lemma_find(xml, value_attribute(), at);
            match find(xml, value_attribute(), at) {
                None => {},
                Some(value) => {
                    lemma_find_char(xml, '"', value + value_attribute().len());
                },
            }
        },
    }
}

/// The channel file with every `last-image` value set to `abs`; `None` when
/// the file holds no such value.
pub fn rewrite_xfce_xml(raw: &str, abs: &str) -> (r: Option<String>)
    ensures
        match r {
            Some(out) => last_images(raw@).len() > 0 && out@ == with_last_image(raw@, abs@),
            None => last_images(raw@).len() == 0,
        },
{
    let v = chars(raw);
    let name = chars("name=\"last-image\"");
    let value = chars("value=\"");
    let mut out = String::new();
    let mut done: usize = 0;
    assert(v@.skip(0) =~= v@);
    assert(out@ + with_last_image(raw@, abs@) =~= with_last_image(raw@, abs@));
    loop
        invariant
            v@ == raw@,
            name@ == name_attribute(),
            value@ == value_attribute(),
            done <= v.len(),
            with_last_image(raw@, abs@) == out@ + with_last_image(v@.skip(done as int), abs@),
            last_images(raw@).len() > 0 <==> done > 0 || last_images(v@.skip(done as int)).len()
                > 0,
        decreases v.len() - done,
    {
        let ghost rest = v@.skip(done as int);
        let next = next_value(&v, &name, &value, done);
        proof {
            lemma_first_value(rest);
        }
        match next {
            Some((from, to)) => {
                let head = slice(&v, done, from);
                out.append(head.as_str());
                out.append(abs);
                proof {
                    assert(head@ =~= rest.take(from - done));
                    assert(rest.skip(to - done) =~= v@.skip(to as int));
                    assert(out@ + with_last_image(v@.skip(to as int), abs@) =~= with_last_image(
                        raw@,
                        abs@,
                    ));
                }
                done = to;
            },
            None => {
                if done == 0 {
                    return None;
                }
                let tail = slice(&v, done, v.len());
                out.append(tail.as_str());
                assert(tail@ =~= rest);
                return Some(out);
            },
        }
    }
}

/// Where the next `last-image` value behind `from` begins and ends.
fn next_value(v: &Vec<char>, name: &Vec<char>, value: &Vec<char>, from: usize) -> (r: Option<
    (usize, usize),
>)
    requires
        from <= v.len(),
        name@ == name_attribute(),
        value@ == value_attribute(),
    ensures
        match r {
            Some((a, b)) => from < a <= b < v.len() && first_value(v@.skip(from as int)) == Some(
                ((a - from) as int, (b - from) as int),
            ),
            None => first_value(v@.skip(from as int)) is None,
        },
{
    let ghost rest = v@.skip(from as int);
    proof {
        lemma_first_value(rest);
    }
    match find_from(v, name, from) {
        None => {
            proof {
                lemma_find_skip(v@, name@, from as int, 0);
            }
            None
        },
        Some(i) => {
            proof {
                lemma_find_skip(v@, name@, from as int, 0);
            }
            let at = i + name.len();
            proof {
                lemma_find_skip(v@, value@, from as int, at - from);
            }
            match find_from(v, value, at) {
                None => None,
                Some(j) => {
                    let a = j + value.len();
                    let b = char_from(v, '"', a);
                    proof {
                        lemma_find_char(rest, '"', a - from);
                        if b < v.len() {
                            assert forall|k: int| a - from <= k < b - from implies rest[k]
                                != '"' by {
                                assert(rest[k] == v@[k + from]);
                            }
                            assert(rest[b - from] == v@[b as int]);
                            lemma_find_char_is(rest, '"', a - from, b - from);
                        } else {
                            let q = find_char(rest, '"', a - from);
                            if q < rest.len() {
                                assert(rest[q] == v@[q + from]);
                            }
                        }
                    }
                    if b < v.len() {
                        Some((a, b))
                    } else {
                        None
                    }
                },
            }
        },
    }
}

/// Searching a tail is searching the whole from a later position.
proof fn lemma_find_skip(s: Seq<char>, p: Seq<char>, k: int, from: int)
    requires
        0 <= k <= s.len(),
        0 <= from,
    ensures
        find(s.skip(k), p, from) == (match find(s, p, k + from) {
            Some(i) => Some(i - k),
            None => None,
        }),
{
    let t = s.skip(k);
    assert forall|i: int| 0 <= i implies (#[trigger] occurs_at(t, p, i)) == occurs_at(
        s,
        p,
        i + k,
    ) by {
        if i + p.len() <= t.len() {
            assert(t.subrange(i, i + p.len()) =~= s.subrange(i + k, i + k + p.len()));
        }
    }
    lemma_find(s, p, k + from);
    lemma_find(t, p, from);
    match find(s, p, k + from) {
        Some(i) => {
            assert(occurs_at(t, p, i - k));
            assert forall|j: int| from <= j < i - k implies !occurs_at(t, p, j) by {
                assert(!occurs_at(s, p, j + k));
            }
            lemma_find_is(t, p, from, i - k);
        },
        None => {
            match find(t, p, from) {
                Some(j) => {
                    assert(occurs_at(s, p, j + k));
                },
                None => {},
            }
        },
    }
}

proof fn lemma_find_kept(s: Seq<char>, t: Seq<char>, p: Seq<char>, from: int, k: int)
    requires
        0 <= from,
        0 <= k <= s.len(),
        k <= t.len(),
        s.take(k) == t.take(k),
        find(s, p, from) is Some,
        find(s, p, from)->0 + p.len() <= k,
    ensures
        find(t, p, from) == find(s, p, from),
{
    lemma_find(s, p, from);
    let i = find(s, p, from)->0;
    assert forall|j: int| from <= j <= i implies (#[trigger] occurs_at(t, p, j)) == occurs_at(
        s,
        p,
        j,
    ) by {
        assert(s.take(k).subrange(j, j + p.len()) =~= s.subrange(j, j + p.len()));
        assert(t.take(k).subrange(j, j + p.len()) =~= t.subrange(j, j + p.len()));
    }
    lemma_find_is(t, p, from, i);
}

/// What was written is what is read: after the rewrite every `last-image`
/// property of the file holds the new path, and there are as many as before.
pub proof fn lemma_rewrite_sets_every_image(xml: Seq<char>, abs: Seq<char>)
    requires
        free_of(abs, '"'),
    ensures
        last_images(with_last_image(xml, abs)).len() == last_images(xml).len(),
        forall|i: int|
            0 <= i < last_images(xml).len() ==> #[trigger] last_images(
                with_last_image(xml, abs),
            )[i] == abs,
    decreases xml.len(),
{
    lemma_first_value(xml);
    match first_value(xml) {
        None => {},
        Some((from, to)) => {
            let rest = xml.skip(to);
            lemma_rewrite_sets_every_image(rest, abs);
            let tail = with_last_image(rest, abs);
            let out = with_last_image(xml, abs);
            assert(out == xml.take(from) + abs + tail);
            lemma_rewrite_keeps_head(rest, abs);
            assert(tail[0] == '"');
            let name = find(xml, name_attribute(), 0)->0;
            lemma_find(xml, name_attribute(), 0);
            lemma_find(xml, value_attribute(), name + name_attribute().len());
            assert(out.take(from) =~= xml.take(from));
            lemma_find_kept(xml, out, name_attribute(), 0, from);
            lemma_find_kept(xml, out, value_attribute(), name + name_attribute().len(), from);
            let close = from + abs.len();
            assert forall|j: int| from <= j < close implies out[j] != '"' by {
                assert(out[j] == abs[j - from]);
            }
            assert(out[close] == tail[0]);
            lemma_find_char_is(out, '"', from, close);
            assert(first_value(out) == Some((from, close)));
            assert(out.skip(close) =~= tail);
            assert(out.subrange(from, close) =~= abs);
            assert(last_images(out) == seq![abs] + last_images(tail));
            assert forall|i: int| 0 <= i < last_images(xml).len() implies #[trigger] last_images(
                out,
            )[i] == abs by {
                if i > 0 {
                    assert(last_images(out)[i] == last_images(tail)[i - 1]);
                }
            }
        },
    }
}

proof fn lemma_rewrite_keeps_head(xml: Seq<char>, abs: Seq<char>)
    requires
        xml.len() > 0,
    ensures
        with_last_image(xml, abs).len() > 0,
        with_last_image(xml, abs)[0] == xml[0],
{
    lemma_first_value(xml);
}

/// A property path that holds a wallpaper.
pub open spec fn is_last_image(key: Seq<char>) -> bool {
    ends_with(key, "/last-image"@)
}

/// The paths of `keys` that hold a wallpaper, in their order.
pub open spec fn last_image_keys(keys: Seq<Seq<char>>) -> Seq<Seq<char>> {
    keys.filter(|k: Seq<char>| is_last_image(k))
}

/// The wallpaper properties among the keys of the `/backdrop` subtree.
pub fn backdrop_keys(keys: &Vec<String>) -> (r: Vec<String>)
    ensures
        texts(r@) == last_image_keys(texts(keys@)),
{
    let mut out: Vec<String> = Vec::new();
    let ghost all = texts(keys@);
    let mut i: usize = 0;
    assert(texts(out@) =~= last_image_keys(all.take(0)));
    while i < keys.len()
        invariant
            i <= keys.len(),
            all == texts(keys@),
            texts(out@) == last_image_keys(all.take(i as int)),
        decreases keys.len() - i,
    {
        let ghost before = texts(out@);
        assert(all.take(i + 1).drop_last() =~= all.take(i as int));
        assert(all[i as int] == keys@[i as int]@);
        proof {
            reveal(Seq::filter);
        }
        if has_suffix(keys[i].as_str(), "/last-image") {
            out.push(keys[i].clone());
            assert(texts(out@) =~= before.push(all[i as int]));
        }
        i += 1;
    }
    assert(all.take(i as int) =~= all);
    out
}

/// The trimmed lines of a text.
pub open spec fn trimmed_lines(raw: Seq<char>) -> Seq<Seq<char>> {
    split(raw, '\n').map_values(|l: Seq<char>| trim(l))
}

/// The wallpaper properties in a listing of the channel, one property a line.
pub fn list_backdrop_properties(listing: &str) -> (r: Vec<String>)
    ensures
        texts(r@) == last_image_keys(trimmed_lines(listing@)),
{
    let lines = split_on(listing, '\n');
    let ghost all = trimmed_lines(listing@);
    let mut keys: Vec<String> = Vec::new();
    let mut i: usize = 0;
    assert forall|j: int| 0 <= j < lines.len() implies all[j] == trim(#[trigger] lines@[j]@) by {
        assert(texts(lines@)[j] == lines@[j]@);
    }
    assert(texts(keys@) =~= all.take(0));
    while i < lines.len()
        invariant
            i <= lines.len(),
            all.len() == lines.len(),
            forall|j: int| 0 <= j < lines.len() ==> all[j] == trim(#[trigger] lines@[j]@),
            texts(keys@) == all.take(i as int),
        decreases lines.len() - i,
    {
        let ghost before = texts(keys@);
        keys.push(trimmed(lines[i].as_str()));
        assert(texts(keys@) =~= before.push(trim(lines@[i as int]@)));
        assert(all.take(i + 1) =~= before.push(all[i as int]));
        i += 1;
    }
    assert(all.take(i as int) =~= all);
    backdrop_keys(&keys)
}

/// The wallpaper property of a monitor.
pub open spec fn monitor_property(name: Seq<char>) -> Seq<char> {
    "/backdrop/screen0/monitor"@ + name + "/workspace0/last-image"@
}

pub fn backdrop_property(name: &str) -> (r: String)
    ensures
        r@ == monitor_property(name@),
{
    let mut s = "/backdrop/screen0/monitor".to_owned();
    s.append(name);
    s.append("/workspace0/last-image");
    s
}

/// `listed` and behind it the property of each monitor that is not yet there.
pub open spec fn with_monitors(listed: Seq<Seq<char>>, names: Seq<Seq<char>>) -> Seq<Seq<char>>
    decreases names.len(),
{
    if names.len() == 0 {
        listed
    } else {
        let before = with_monitors(listed, names.drop_last());
        let p = monitor_property(names.last());
        if before.contains(p) {
            before
        } else {
            before.push(p)
        }
    }
}

/// The properties to set: those that exist and one for every monitor.
pub fn backdrop_targets(listed: Vec<String>, names: &Vec<String>) -> (r: Vec<String>)
    ensures
        texts(r@) == with_monitors(texts(listed@), texts(names@)),
{
    let ghost start = texts(listed@);
    let ghost all = texts(names@);
    let mut out = listed;
    let mut i: usize = 0;
    assert(all.take(0) =~= Seq::empty());
    while i < names.len()
        invariant
            i <= names.len(),
            all == texts(names@),
            texts(out@) == with_monitors(start, all.take(i as int)),
        decreases names.len() - i,
    {
        let ghost before = texts(out@);
        assert(all.take(i + 1).drop_last() =~= all.take(i as int));
        let p = backdrop_property(names[i].as_str());
        if !holds(&out, p.as_str()) {
            let ghost path = p@;
            out.push(p);
            assert(texts(out@) =~= before.push(path));
        }
        i += 1;
    }
    assert(all.take(i as int) =~= all);
    out
}

/// Every existing property and every monitor's property is a target, and no
/// target comes twice unless it was listed twice.
pub proof fn lemma_targets_cover(listed: Seq<Seq<char>>, names: Seq<Seq<char>>)
    ensures
        forall|i: int|
            0 <= i < listed.len() ==> with_monitors(listed, names).contains(#[trigger] listed[i]),
        forall|i: int|
            0 <= i < names.len() ==> with_monitors(listed, names).contains(
                monitor_property(#[trigger] names[i]),
            ),
        listed.no_duplicates() ==> with_monitors(listed, names).no_duplicates(),
    decreases names.len(),
{
    let all = with_monitors(listed, names);
    if names.len() > 0 {
        let before = with_monitors(listed, names.drop_last());
        let p = monitor_property(names.last());
        lemma_targets_cover(listed, names.drop_last());
        assert forall|x: Seq<char>| before.contains(x) implies all.contains(x) by {
            let i = choose|i: int| 0 <= i < before.len() && before[i] == x;
            assert(all[i] == x);
        }
        assert(all.contains(p)) by {
            if !before.contains(p) {
                assert(all[before.len() as int] == p);
            }
        }
        assert forall|i: int| 0 <= i < names.len() implies all.contains(
            monitor_property(#[trigger] names[i]),
        ) by {
            if i < names.len() - 1 {
                assert(names.drop_last()[i] == names[i]);
            }
        }
        assert forall|i: int| 0 <= i < listed.len() implies all.contains(#[trigger] listed[i]) by {
            assert(before.contains(listed[i]));
        }
    } else {
        assert forall|i: int| 0 <= i < listed.len() implies all.contains(#[trigger] listed[i]) by {
            assert(all[i] == listed[i]);
        }
    }
}

/// A name without leading `+` and `-` signs.
pub open spec fn unsigned(s: Seq<char>) -> Seq<char>
    decreases s.len(),
{
    if s.len() > 0 && (s[0] == '+' || s[0] == '-') {
        unsigned(s.skip(1))
    } else {
        s
    }
}

/// The monitor that a line of a monitor listing names: ` 0: +HDMI-1 ...`.
pub open spec fn monitor_of(line: Seq<char>) -> Option<Seq<char>> {
    let t = trim(line);
    let colon = find_char(t, ':', 0);
    if t.len() > 0 && is_digit(t[0]) && colon < t.len() {
        let name = unsigned(first_word(t.skip(colon + 1)));
        if name.len() > 0 {
            Some(name)
        } else {
            None
        }
    } else {
        None
    }
}

pub open spec fn monitors_of(lines: Seq<Seq<char>>) -> Seq<Seq<char>>
    decreases lines.len(),
{
    if lines.len() == 0 {
        Seq::empty()
    } else {
        let before = monitors_of(lines.drop_last());
        match monitor_of(lines.last()) {
            Some(name) => before.push(name),
            None => before,
        }
    }
}

fn monitor_name(line: &str) -> (r: Option<String>)
    ensures
        match r {
            Some(name) => monitor_of(line@) == Some(name@),
            None => monitor_of(line@) is None,
        },
{
    let t = chars(trimmed(line).as_str());
    if t.len() == 0 || !crate::text::digit(t[0]) {
        return None;
    }
    let colon = char_from(&t, ':', 0);
    if colon == t.len() {
        return None;
    }
    let word = chars(word_from(&t, colon + 1).as_str());
    let mut a: usize = 0;
    assert(word@.skip(0) =~= word@);
    while a < word.len() && (word[a] == '+' || word[a] == '-')
        invariant
            a <= word.len(),
            unsigned(word@) == unsigned(word@.skip(a as int)),
        decreases word.len() - a,
    {
        assert(word@.skip(a as int).skip(1) =~= word@.skip(a + 1));
        a += 1;
    }
    if a == word.len() {
        return None;
    }
    assert(word@.skip(a as int) =~= word@.subrange(a as int, word.len() as int));
    Some(slice(&word, a, word.len()))
}

/// The monitor names in the output of `xrandr --listmonitors`.
pub fn parse_monitors(text: &str) -> (r: Vec<String>)
    ensures
        texts(r@) == monitors_of(split(text@, '\n')),
{
    let lines = split_on(text, '\n');
    let ghost all = texts(lines@);
    let mut out: Vec<String> = Vec::new();
    let mut i: usize = 0;
    assert(texts(out@) =~= monitors_of(all.take(0)));
    while i < lines.len()
        invariant
            i <= lines.len(),
            all == texts(lines@),
            texts(out@) == monitors_of(all.take(i as int)),
        decreases lines.len() - i,
    {
        let ghost before = texts(out@);
        assert(all.take(i + 1).drop_last() =~= all.take(i as int));
        if let Some(name) = monitor_name(lines[i].as_str()) {
            let ghost n = name@;
            out.push(name);
            assert(texts(out@) =~= before.push(n));
        }
        i += 1;
    }
    assert(all.take(i as int) =~= all);
    out
}

/// The monitor that a key of the `displays` channel belongs to:
/// `/Default/<name>/...`.
pub open spec fn display_of(key: Seq<char>) -> Seq<char> {
    let prefix = "/Default/"@;
    let rest = if starts_with(key, prefix) {
        key.skip(prefix.len() as int)
    } else {
        key
    };
    rest.take(find_char(rest, '/', 0))
}

/// The distinct monitor names of the keys, in the order of their first key.
pub open spec fn displays_of(keys: Seq<Seq<char>>) -> Seq<Seq<char>>
    decreases keys.len(),
{
    if keys.len() == 0 {
        Seq::empty()
    } else {
        let before = displays_of(keys.drop_last());
        let name = display_of(keys.last());
        if name.len() == 0 || before.contains(name) {
            before
        } else {
            before.push(name)
        }
    }
}

/// The monitor names in the keys of the `displays` channel.
pub fn monitor_names_of_keys(keys: &Vec<String>) -> (r: Vec<String>)
    ensures
        texts(r@) == displays_of(texts(keys@)),
{
    let ghost all = texts(keys@);
    let mut out: Vec<String> = Vec::new();
    let mut i: usize = 0;
    assert(texts(out@) =~= displays_of(all.take(0)));
    while i < keys.len()
        invariant
            i <= keys.len(),
            all == texts(keys@),
            texts(out@) == displays_of(all.take(i as int)),
        decreases keys.len() - i,
    {
        let ghost before = texts(out@);
        assert(all.take(i + 1).drop_last() =~= all.take(i as int));
        let rest = match strip_prefix(keys[i].as_str(), "/Default/") {
            Some(rest) => chars(rest.as_str()),
            None => chars(keys[i].as_str()),
        };
        let end = char_from(&rest, '/', 0);
        let name = slice(&rest, 0, end);
        assert(name@ =~= display_of(all[i as int]));
        if end > 0 && !holds(&out, name.as_str()) {
            let ghost n = name@;
            out.push(name);
            assert(texts(out@) =~= before.push(n));
        }
        i += 1;
    }
    assert(all.take(i as int) =~= all);
    out
}

/// The first text that is not empty.
pub open spec fn first_set(values: Seq<Option<Seq<char>>>) -> Option<Seq<char>>
    decreases values.len(),
{
    if values.len() == 0 {
        None
    } else if values[0] is Some && values[0]->0.len() > 0 {
        values[0]
    } else {
        first_set(values.skip(1))
    }
}

pub open spec fn maybe_texts(v: Seq<Option<String>>) -> Seq<Option<Seq<char>>> {
    v.map_values(
        |o: Option<String>|
            match o {
                Some(s) => Some(s@),
                None => None,
            },
    )
}

/// The current wallpaper: the first backdrop property, of those that
/// [`backdrop_keys`] lists, whose value could be read and is not empty.
pub fn current_backdrop(values: &Vec<Option<String>>) -> (r: Option<String>)
    ensures
        match r {
            Some(path) => first_set(maybe_texts(values@)) == Some(path@),
            None => first_set(maybe_texts(values@)) is None,
        },
{
    let ghost all = maybe_texts(values@);
    let mut i: usize = 0;
    assert(all.skip(0) =~= all);
    while i < values.len()
        invariant
            i <= values.len(),
            all == maybe_texts(values@),
            first_set(all) == first_set(all.skip(i as int)),
        decreases values.len() - i,
    {
        assert(all.skip(i as int).skip(1) =~= all.skip(i + 1));
        if let Some(s) = &values[i] {
            if !s.as_str().is_empty() {
                return Some(s.clone());
            }
        }
        i += 1;
    }
    None
}

} // verus!
