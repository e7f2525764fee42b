//! The wallpaper entries of Plasma's desktop configuration file.
//!
//! The file is a list of lines: `[group]` headers and `key=value` entries. The
//! wallpaper of a desktop stands in its
//! `[Containments][N][Wallpaper][org.kde.image][General]` group.

use vstd::prelude::*;

use crate::text::{
    chars, digit, free_of, is_digit, lemma_render_append, lemma_render_one, lemma_split_free,
    lemma_split_render, lemma_trim_empty, lemma_trim_end_append, lemma_trim_id, lemma_trim_trim_end,
    lower, lower_char, lowered, push_line, render, same, slice, split, split_on, strip_prefix, texts,
    trim, trim_bounds, trim_end, trimmed,
};

verus! {

/// A `[group]` header.
pub open spec fn is_header(line: Seq<char>) -> bool {
    let t = trim(line);
    t.len() > 0 && t[0] == '[' && t.last() == ']'
}

/// The header of an image wallpaper group; group names ignore case.
pub open spec fn is_image_group(line: Seq<char>) -> bool {
    is_header(line) && crate::text::ends_with(
        lower(trim(line)),
        "[wallpaper][org.kde.image][general]"@,
    )
}

/// The value of a `key=value` line whose key is `key`, ignoring case. A line
/// with nothing behind the `=` has no value.
pub open spec fn key_value(line: Seq<char>, key: Seq<char>) -> Option<Seq<char>> {
    let t = trim(line);
    let n = key.len() as int + 1;
    if t.len() > n && lower(t.take(n)) == lower(key.push('=')) {
        Some(trim(t.skip(n)))
    } else {
        None
    }
}

/// A line that marks its containment as an image desktop.
pub open spec fn is_marker(line: Seq<char>) -> bool {
    let value = match key_value(line, "plugin"@) {
        Some(v) => Some(v),
        None => key_value(line, "wallpaperplugin"@),
    };
    value is Some && lower(value->0) == "org.kde.image"@
}

pub open spec fn is_bracket(c: char) -> bool {
    c == '[' || c == ']'
}

pub open spec fn strip_brackets_start(s: Seq<char>) -> Seq<char>
    decreases s.len(),
{
    if s.len() > 0 && is_bracket(s[0]) {
        strip_brackets_start(s.skip(1))
    } else {
        s
    }
}

pub open spec fn strip_brackets_end(s: Seq<char>) -> Seq<char>
    decreases s.len(),
{
    if s.len() > 0 && is_bracket(s.last()) {
        strip_brackets_end(s.drop_last())
    } else {
        s
    }
}

pub open spec fn all_digits(s: Seq<char>) -> bool {
    forall|i: int| 0 <= i < s.len() ==> is_digit(#[trigger] s[i])
}

/// The number `N` of a `[Containments][N]` header.
pub open spec fn containment_id(line: Seq<char>) -> Option<Seq<char>> {
    let t = trim(line);
    let prefix = "[Containments]"@;
    if crate::text::starts_with(t, prefix) {
        let inner = strip_brackets_end(strip_brackets_start(t.skip(prefix.len() as int)));
        if inner.len() > 0 && all_digits(inner) {
            Some(inner)
        } else {
            None
        }
    } else {
        None
    }
}

/// The containment whose keys line `i` belongs to: that of the last header up
/// to the line.
pub open spec fn containment_at(lines: Seq<Seq<char>>, i: int) -> Option<Seq<char>>
    decreases i + 1,
{
    if i < 0 {
        None
    } else if is_header(lines[i]) {
        containment_id(lines[i])
    } else {
        containment_at(lines, i - 1)
    }
}

/// The first header at or behind `from`; the number of lines where none follows.
pub open spec fn next_header(lines: Seq<Seq<char>>, from: int) -> int
    decreases lines.len() - from,
{
    if from >= lines.len() {
        lines.len() as int
    } else if is_header(lines[from]) {
        from
    } else {
        next_header(lines, from + 1)
    }
}

/// The first image wallpaper group at or behind `from`, or the number of lines.
pub open spec fn next_image_group(lines: Seq<Seq<char>>, from: int) -> int
    decreases lines.len() - from,
{
    if from >= lines.len() {
        lines.len() as int
    } else if is_image_group(lines[from]) {
        from
    } else {
        next_image_group(lines, from + 1)
    }
}

/// The first line with an `Image` value from `from` up to `to`, or `to`.
pub open spec fn next_image_key(lines: Seq<Seq<char>>, from: int, to: int) -> int
    decreases to - from,
{
    if from >= to {
        to
    } else if key_value(lines[from], "Image"@) is Some {
        from
    } else {
        next_image_key(lines, from + 1, to)
    }
}

/// The first line at or behind `from` that marks a numbered containment as an
/// image desktop, or the number of lines.
pub open spec fn next_marker(lines: Seq<Seq<char>>, from: int) -> int
    decreases lines.len() - from,
{
    if from >= lines.len() {
        lines.len() as int
    } else if is_marker(lines[from]) && containment_at(lines, from) is Some {
        from
    } else {
        next_marker(lines, from + 1)
    }
}

/// Line `i` stands in an image wallpaper group.
pub open spec fn in_image_group(lines: Seq<Seq<char>>, i: int) -> bool
    decreases i,
{
    if i <= 0 {
        false
    } else if is_header(lines[i - 1]) {
        is_image_group(lines[i - 1])
    } else {
        in_image_group(lines, i - 1)
    }
}

/// The wallpaper that line `i` sets.
pub open spec fn image_at(lines: Seq<Seq<char>>, i: int) -> Option<Seq<char>> {
    match key_value(lines[i], "Image"@) {
        Some(v) => if !is_header(lines[i]) && in_image_group(lines, i) && v.len() > 0 {
            Some(v)
        } else {
            None
        },
        None => None,
    }
}

/// The first wallpaper set at or behind line `from`.
pub open spec fn next_image(lines: Seq<Seq<char>>, from: int) -> Option<Seq<char>>
    decreases lines.len() - from,
{
    if from >= lines.len() {
        None
    } else if image_at(lines, from) is Some {
        image_at(lines, from)
    } else {
        next_image(lines, from + 1)
    }
}

/// A path without the `file://` of its URI.
pub open spec fn local_path(value: Seq<char>) -> Seq<char> {
    if crate::text::starts_with(value, "file://"@) {
        value.skip("file://"@.len() as int)
    } else {
        value
    }
}

/// The current wallpaper of the desktop, as a path.
pub open spec fn current_image(raw: Seq<char>) -> Option<Seq<char>> {
    match next_image(split(raw, '\n'), 0) {
        Some(v) => Some(local_path(v)),
        None => None,
    }
}

/// A blank line loses its whitespace, any other line is kept.
pub open spec fn tidy_line(line: Seq<char>) -> Seq<char> {
    if trim(line).len() == 0 {
        Seq::empty()
    } else {
        line
    }
}

pub open spec fn tidy(lines: Seq<Seq<char>>) -> Seq<Seq<char>> {
    lines.map_values(|l: Seq<char>| tidy_line(l))
}

pub open spec fn image_line(abs: Seq<char>) -> Seq<char> {
    "Image="@ + abs
}

pub open spec fn group_line(id: Seq<char>) -> Seq<char> {
    "[Containments]["@ + id + "][Wallpaper][org.kde.image][General]"@
}

/// The lines with the wallpaper set to `abs`; `None` without an image desktop.
///
/// With an image wallpaper group: the first `Image` entry of the first such
/// group is replaced, or one is added at the end of that group. Without: the
/// group is added at the end of the first containment that is marked as an
/// image desktop.
pub open spec fn with_image(lines: Seq<Seq<char>>, abs: Seq<char>) -> Option<Seq<Seq<char>>> {
    let group = next_image_group(lines, 0);
    if group < lines.len() {
        let end = next_header(lines, group + 1);
        let key = next_image_key(lines, group + 1, end);
        if key < end {
            Some(tidy(lines).update(key, image_line(abs)))
        } else {
            Some(tidy(lines).insert(end, image_line(abs)))
        }
    } else {
        let marker = next_marker(lines, 0);
        if marker < lines.len() {
            let end = next_header(lines, marker + 1);
            let id = containment_at(lines, marker)->0;
            Some(
                lines.take(end) + seq![Seq::empty(), group_line(id), image_line(abs)]
                    + lines.skip(end),
            )
        } else {
            None
        }
    }
}

pub fn header(line: &str) -> (r: bool)
    ensures
        r == is_header(line@),
{
    let v = chars(line);
    let (a, b) = trim_bounds(&v);
    a < b && v[a] == '[' && v[b - 1] == ']'
}

/// Whether a line is the header of an image wallpaper group.
pub fn is_image_wallpaper_group(line: &str) -> (r: bool)
    ensures
        r == is_image_group(line@),
{
    header(line) && crate::text::has_suffix(
        lowered(trimmed(line).as_str()).as_str(),
        "[wallpaper][org.kde.image][general]",
    )
}

/// The value of a `key=value` line, ignoring the case of the key.
pub fn kconfig_value(line: &str, key: &str) -> (r: Option<String>)
    ensures
        match r {
            Some(v) => key_value(line@, key@) == Some(v@),
            None => key_value(line@, key@) is None,
        },
{
    let t = trimmed(line);
    let v = chars(t.as_str());
    let mut eq = key.to_owned();
    eq.push('=');
    let k = chars(lowered(eq.as_str()).as_str());
    if v.len() <= k.len() {
        return None;
    }
    assert(k@ == lower(key@.push('=')));
    let head = slice(&v, 0, k.len());
    assert(head@ =~= t@.take(key@.len() as int + 1));
    if !same(lowered(head.as_str()).as_str(), lowered(eq.as_str()).as_str()) {
        return None;
    }
    let rest = slice(&v, k.len(), v.len());
    assert(rest@ =~= t@.skip(key@.len() as int + 1));
    Some(trimmed(rest.as_str()))
}

fn marker(line: &str) -> (r: bool)
    ensures
        r == is_marker(line@),
{
    match kconfig_value(line, "plugin") {
        Some(v) => same(lowered(v.as_str()).as_str(), "org.kde.image"),
        None => match kconfig_value(line, "wallpaperplugin") {
            Some(v) => same(lowered(v.as_str()).as_str(), "org.kde.image"),
            None => false,
        },
    }
}

fn containment_of(line: &str) -> (r: Option<String>)
    ensures
        match r {
            Some(id) => containment_id(line@) == Some(id@),
            None => containment_id(line@) is None,
        },
{
    let t = trimmed(line);
    match strip_prefix(t.as_str(), "[Containments]") {
        None => None,
        Some(rest) => {
            let v = chars(rest.as_str());
            let mut a: usize = 0;
            assert(v@.skip(0) =~= v@);
            while a < v.len() && (v[a] == '[' || v[a] == ']')
                invariant
                    a <= v.len(),
                    strip_brackets_start(v@) == strip_brackets_start(v@.skip(a as int)),
                decreases v.len() - a,
            {
                assert(v@.skip(a as int).skip(1) =~= v@.skip(a + 1));
                a += 1;
            }
            let mut b: usize = v.len();
            let ghost inner = strip_brackets_end(strip_brackets_start(v@));
            assert(v@.skip(a as int) =~= v@.subrange(a as int, b as int));
            while a < b && (v[b - 1] == '[' || v[b - 1] == ']')
                invariant
                    a <= b <= v.len(),
                    inner == strip_brackets_end(v@.subrange(a as int, b as int)),
                decreases b - a,
            {
                assert(v@.subrange(a as int, b as int).drop_last() =~= v@.subrange(
                    a as int,
                    b - 1,
                ));
                b -= 1;
            }
            assert(inner == v@.subrange(a as int, b as int));
            if a == b {
                return None;
            }
            let mut i: usize = a;
            while i < b
                invariant
                    a <= i <= b <= v.len(),
                    inner == v@.subrange(a as int, b as int),
                    containment_id(line@) == (if inner.len() > 0 && all_digits(inner) {
                        Some(inner)
                    } else {
                        None
                    }),
                    forall|j: int| 0 <= j < i - a ==> is_digit(#[trigger] inner[j]),
                decreases b - i,
            {
                if !digit(v[i]) {
                    assert(!is_digit(inner[i - a]));
                    return None;
                }
                assert(inner[i - a] == v@[i as int]);
                i += 1;
            }
            Some(slice(&v, a, b))
        },
    }
}

/// Appends the lines from `from` up to `to`, blank ones emptied on request.
fn push_lines(out: &mut String, lines: &Vec<String>, from: usize, to: usize, tidied: bool)
    requires
        from <= to <= lines.len(),
    ensures
        final(out)@ == old(out)@ + render(
            (if tidied {
                tidy(texts(lines@))
            } else {
                texts(lines@)
            }).subrange(from as int, to as int),
        ),
{
    let ghost all = if tidied {
        tidy(texts(lines@))
    } else {
        texts(lines@)
    };
    let ghost start = out@;
    let mut i: usize = from;
    assert(all.subrange(from as int, from as int) =~= Seq::empty());
    assert(out@ =~= start + render(all.subrange(from as int, from as int)));
    while i < to
        invariant
            from <= i <= to <= lines.len(),
            all == (if tidied {
                tidy(texts(lines@))
            } else {
                texts(lines@)
            }),
            out@ == start + render(all.subrange(from as int, i as int)),
        decreases to - i,
    {
        let ghost before = out@;
        if tidied && trimmed(lines[i].as_str()).as_str().is_empty() {
            push_line(out, "");
            proof {
                reveal_strlit("");
            }
            assert(""@ =~= all[i as int]);
        } else {
            push_line(out, lines[i].as_str());
        }
        let ghost next = all.subrange(from as int, i + 1);
        assert(next.drop_last() =~= all.subrange(from as int, i as int));
        assert(next.last() == all[i as int]);
        assert(out@ =~= start + render(next));
        i += 1;
    }
}

/// Plasma's configuration with the desktop wallpaper set to `abs`.
///
/// An existing image wallpaper group has its first `Image` entry replaced, or
/// gets one at its end. Without such a group, one is created at the end of the
/// first containment marked as an image desktop. `None` when the file holds no
/// image desktop at all.
pub fn rewrite_plasma(raw: &str, abs: &str) -> (r: Option<String>)
    ensures
        match r {
            Some(out) => with_image(split(raw@, '\n'), abs@) is Some && out@ == render(
                with_image(split(raw@, '\n'), abs@)->0,
            ),
            None => with_image(split(raw@, '\n'), abs@) is None,
        },
{
    let lines = split_on(raw, '\n');
    let ghost all = texts(lines@);
    let n: usize = lines.len();
    let mut image = "Image=".to_owned();
    image.append(abs);
    let mut out = String::new();

    let mut group: usize = 0;
    while group < n && !is_image_wallpaper_group(lines[group].as_str())
        invariant
            group <= n == lines.len(),
            all == texts(lines@),
            next_image_group(all, 0) == next_image_group(all, group as int),
        decreases n - group,
    {
        group += 1;
    }
    if group < n {
        let mut end: usize = group + 1;
        while end < n && !header(lines[end].as_str())
            invariant
                group < end <= n == lines.len(),
                all == texts(lines@),
                next_header(all, group + 1) == next_header(all, end as int),
            decreases n - end,
        {
            end += 1;
        }
        let mut key: usize = group + 1;
        while key < end && kconfig_value(lines[key].as_str(), "Image").is_none()
            invariant
                group < key <= end <= n == lines.len(),
                all == texts(lines@),
                next_image_key(all, group + 1, end as int) == next_image_key(
                    all,
                    key as int,
                    end as int,
                ),
            decreases end - key,
        {
            key += 1;
        }
        push_lines(&mut out, &lines, 0, key, true);
        push_line(&mut out, image.as_str());
        let after: usize = if key < end {
            key + 1
        } else {
            key
        };
        push_lines(&mut out, &lines, after, n, true);
        proof {
            let t = tidy(all);
            let w = with_image(all, abs@)->0;
            lemma_render_append(t.subrange(0, key as int), seq![image@]);
            lemma_render_append(
                t.subrange(0, key as int) + seq![image@],
                t.subrange(after as int, n as int),
            );
            lemma_render_one(image@);
            assert(w =~= t.subrange(0, key as int) + seq![image@] + t.subrange(
                after as int,
                n as int,
            ));
        }
        return Some(out);
    }
    let mut marked: usize = 0;
    let mut containment: Option<String> = None;
    while marked < n
        invariant
            marked <= n == lines.len(),
            all == texts(lines@),
            all == split(raw@, '\n'),
            n <= next_image_group(all, 0),
            next_marker(all, 0) == next_marker(all, marked as int),
            match containment {
                Some(id) => containment_at(all, marked - 1) == Some(id@),
                None => containment_at(all, marked - 1) is None,
            },
            image@ == image_line(abs@),
            out@ == Seq::<char>::empty(),
        decreases n - marked,
    {
        if header(lines[marked].as_str()) {
            containment = containment_of(lines[marked].as_str());
        }
        if marker(lines[marked].as_str()) {
            if let Some(id) = &containment {
                let mut end: usize = marked + 1;
                while end < n && !header(lines[end].as_str())
                    invariant
                        marked < end <= n == lines.len(),
                        all == texts(lines@),
                        next_header(all, marked + 1) == next_header(all, end as int),
                    decreases n - end,
                {
                    end += 1;
                }
                let mut group_header = "[Containments][".to_owned();
                group_header.append(id.as_str());
                group_header.append("][Wallpaper][org.kde.image][General]");
                push_lines(&mut out, &lines, 0, end, false);
                push_line(&mut out, "");
                push_line(&mut out, group_header.as_str());
                push_line(&mut out, image.as_str());
                push_lines(&mut out, &lines, end, n, false);
                proof {
                    reveal_strlit("");
                    assert(""@ =~= Seq::<char>::empty());
                    assert(group_header@ == group_line(id@));
                    let a = all.subrange(0, end as int);
                    let e = Seq::<char>::empty();
                    lemma_render_one(e);
                    lemma_render_one(group_header@);
                    lemma_render_one(image@);
                    lemma_render_append(a, seq![e]);
                    lemma_render_append(a + seq![e], seq![group_header@]);
                    lemma_render_append(a + seq![e] + seq![group_header@], seq![image@]);
                    lemma_render_append(
                        a + seq![e] + seq![group_header@] + seq![image@],
                        all.subrange(end as int, n as int),
                    );
                    assert(with_image(all, abs@)->0 =~= a + seq![e] + seq![group_header@] + seq![
                        image@,
                    ] + all.subrange(end as int, n as int));
                    assert(out@ =~= render(with_image(all, abs@)->0));
                }
                return Some(out);
            }
        }
        marked += 1;
    }
    None
}

/// The current wallpaper: the first `Image` value inside an image wallpaper
/// group, without a leading `file://`.
pub fn plasma_current_from_raw(raw: &str) -> (r: Option<String>)
    ensures
        match r {
            Some(path) => current_image(raw@) == Some(path@),
            None => current_image(raw@) is None,
        },
{
    let lines = split_on(raw, '\n');
    let ghost all = texts(lines@);
    let mut in_group = false;
    let mut i: usize = 0;
    while i < lines.len()
        invariant
            i <= lines.len(),
            all == texts(lines@),
            all == split(raw@, '\n'),
            in_group == in_image_group(all, i as int),
            next_image(all, 0) == next_image(all, i as int),
        decreases lines.len() - i,
    {
        assert(all[i as int] == lines@[i as int]@);
        if header(lines[i].as_str()) {
            in_group = is_image_wallpaper_group(lines[i].as_str());
        } else if in_group {
            if let Some(v) = kconfig_value(lines[i].as_str(), "Image") {
                if !v.as_str().is_empty() {
                    return match strip_prefix(v.as_str(), "file://") {
                        Some(path) => Some(path),
                        None => Some(v),
                    };
                }
            }
        }
        i += 1;
    }
    None
}

proof fn lemma_next_header(lines: Seq<Seq<char>>, from: int)
    requires
        0 <= from <= lines.len(),
    ensures
        from <= next_header(lines, from) <= lines.len(),
        forall|j: int| from <= j < next_header(lines, from) ==> !is_header(#[trigger] lines[j]),
    decreases lines.len() - from,
{
    if from < lines.len() && !is_header(lines[from]) {
        lemma_next_header(lines, from + 1);
    }
}

pub(crate) proof fn lemma_next_image_group(lines: Seq<Seq<char>>, from: int)
    requires
        0 <= from <= lines.len(),
    ensures
        from <= next_image_group(lines, from) <= lines.len(),
        forall|j: int|
            from <= j < next_image_group(lines, from) ==> !is_image_group(#[trigger] lines[j]),
        next_image_group(lines, from) < lines.len() ==> is_image_group(
            lines[next_image_group(lines, from)],
        ),
    decreases lines.len() - from,
{
    if from < lines.len() && !is_image_group(lines[from]) {
        lemma_next_image_group(lines, from + 1);
    }
}

proof fn lemma_next_image_key(lines: Seq<Seq<char>>, from: int, to: int)
    requires
        0 <= from <= to <= lines.len(),
    ensures
        from <= next_image_key(lines, from, to) <= to,
        forall|j: int|
            from <= j < next_image_key(lines, from, to) ==> key_value(
                #[trigger] lines[j],
                "Image"@,
            ) is None,
    decreases to - from,
{
    if from < to && key_value(lines[from], "Image"@) is None {
        lemma_next_image_key(lines, from + 1, to);
    }
}

proof fn lemma_next_marker(lines: Seq<Seq<char>>, from: int)
    requires
        0 <= from <= lines.len(),
    ensures
        from <= next_marker(lines, from) <= lines.len(),
        next_marker(lines, from) < lines.len() ==> containment_at(
            lines,
            next_marker(lines, from),
        ) is Some,
    decreases lines.len() - from,
{
    if from < lines.len() && !(is_marker(lines[from]) && containment_at(lines, from) is Some) {
        lemma_next_marker(lines, from + 1);
    }
}

pub(crate) proof fn lemma_outside_image_groups(lines: Seq<Seq<char>>, i: int)
    requires
        i <= lines.len(),
        forall|j: int| 0 <= j < i ==> !is_image_group(#[trigger] lines[j]),
    ensures
        !in_image_group(lines, i),
    decreases i,
{
    if 0 < i && !is_header(lines[i - 1]) {
        lemma_outside_image_groups(lines, i - 1);
    }
}

pub(crate) proof fn lemma_inside_image_group(lines: Seq<Seq<char>>, group: int, i: int)
    requires
        0 <= group < i <= lines.len(),
        is_image_group(lines[group]),
        forall|j: int| group < j < i ==> !is_header(#[trigger] lines[j]),
    ensures
        in_image_group(lines, i),
    decreases i,
{
    if group < i - 1 {
        lemma_inside_image_group(lines, group, i - 1);
    }
}

pub(crate) proof fn lemma_first_image(lines: Seq<Seq<char>>, from: int, i: int)
    requires
        0 <= from <= i < lines.len(),
        image_at(lines, i) is Some,
        forall|j: int| from <= j < i ==> (#[trigger] image_at(lines, j)) is None,
    ensures
        next_image(lines, from) == image_at(lines, i),
    decreases i - from,
{
    if from < i {
        assert(image_at(lines, from) is None);
        lemma_first_image(lines, from + 1, i);
    }
}

/// What the line that sets the wallpaper says.
proof fn lemma_image_line(abs: Seq<char>)
    requires
        trim(abs).len() > 0,
    ensures
        key_value(image_line(abs), "Image"@) == Some(trim(abs)),
        !is_header(image_line(abs)),
{
    reveal_strlit("Image=");
    reveal_strlit("Image");
    let key = "Image="@;
    lemma_trim_empty(abs);
    lemma_trim_end_append(key, abs);
    let line = image_line(abs);
    assert(line[0] == 'I');
    assert(trim(line) == key + trim_end(abs));
    let t = trim(line);
    assert(t.take(6) =~= key);
    assert("Image"@.push('=') =~= key);
    assert(t.skip(6) =~= trim_end(abs));
    lemma_trim_trim_end(abs);
}

proof fn lemma_tidy_line(line: Seq<char>)
    ensures
        is_header(tidy_line(line)) == is_header(line),
        is_image_group(tidy_line(line)) == is_image_group(line),
        key_value(tidy_line(line), "Image"@) == key_value(line, "Image"@),
        free_of(line, '\n') ==> free_of(tidy_line(line), '\n'),
{
    if trim(line).len() == 0 {
        assert(trim(line) =~= Seq::empty());
        assert(trim(Seq::<char>::empty()) =~= Seq::empty());
    }
}

proof fn lemma_containment_digits(lines: Seq<Seq<char>>, i: int)
    ensures
        containment_at(lines, i) is Some ==> all_digits(containment_at(lines, i)->0),
    decreases i + 1,
{
    if 0 <= i && !is_header(lines[i]) {
        lemma_containment_digits(lines, i - 1);
    }
}

proof fn lemma_group_line(id: Seq<char>)
    requires
        all_digits(id),
    ensures
        is_image_group(group_line(id)),
        free_of(group_line(id), '\n'),
{
    reveal_strlit("[Containments][");
    reveal_strlit("][Wallpaper][org.kde.image][General]");
    reveal_strlit("[wallpaper][org.kde.image][general]");
    let line = group_line(id);
    let tail = "][Wallpaper][org.kde.image][General]"@;
    let name = "[wallpaper][org.kde.image][general]"@;
    lemma_trim_id(line);
    assert(lower(line).subrange(line.len() - name.len(), line.len() as int) =~= name) by {
        assert(line.subrange(line.len() - tail.len(), line.len() as int) =~= tail);
        assert forall|i: int| 0 <= i < name.len() implies lower_char(
            line[line.len() - name.len() + i],
        ) == name[i] by {
            assert(line[line.len() - name.len() + i] == tail[i + 1]);
        }
    }
    assert forall|i: int| 0 <= i < line.len() implies #[trigger] line[i] != '\n' by {
        let head = "[Containments]["@;
        if i < head.len() {
            assert(line[i] == head[i]);
        } else if i < head.len() + id.len() {
            assert(line[i] == id[i - head.len()]);
            assert(is_digit(id[i - head.len()]));
        } else {
            assert(line[i] == tail[i - head.len() - id.len()]);
        }
    }
}

/// What was written is what is read: once the wallpaper is set to a path, the
/// current wallpaper is that path.
pub proof fn lemma_rewrite_reads_back(raw: Seq<char>, abs: Seq<char>)
    requires
        with_image(split(raw, '\n'), abs) is Some,
        trim(abs).len() > 0,
        free_of(abs, '\n'),
    ensures
        current_image(render(with_image(split(raw, '\n'), abs)->0)) == Some(
            local_path(trim(abs)),
        ),
{
    let lines = split(raw, '\n');
    let out = with_image(lines, abs)->0;
    let n = lines.len() as int;
    lemma_split_free(raw, '\n');
    lemma_image_line(abs);
    assert(free_of(image_line(abs), '\n')) by {
        reveal_strlit("Image=");
        let line = image_line(abs);
        assert forall|i: int| 0 <= i < line.len() implies #[trigger] line[i] != '\n' by {
            if i >= 6 {
                assert(line[i] == abs[i - 6]);
            }
        }
    }
    let group = next_image_group(lines, 0);
    lemma_next_image_group(lines, 0);
    let all = out.push(Seq::empty());
    if group < n {
        let end = next_header(lines, group + 1);
        lemma_next_header(lines, group + 1);
        let key = next_image_key(lines, group + 1, end);
        lemma_next_image_key(lines, group + 1, end);
        assert forall|i: int| 0 <= i < out.len() implies free_of(#[trigger] out[i], '\n') by {
            if i < key {
                lemma_tidy_line(lines[i]);
                assert(free_of(lines[i], '\n'));
            } else if i > key {
                let o = if key < end { i } else { i - 1 };
                assert(out[i] == tidy_line(lines[o]));
                lemma_tidy_line(lines[o]);
                assert(free_of(lines[o], '\n'));
            }
        }
        lemma_split_render(out);
        assert forall|j: int| 0 <= j < key implies (#[trigger] all[j]) == tidy_line(lines[j])
            && is_header(all[j]) == is_header(lines[j]) && is_image_group(all[j])
            == is_image_group(lines[j]) && key_value(all[j], "Image"@) == key_value(
            lines[j],
            "Image"@,
        ) by {
            lemma_tidy_line(lines[j]);
        }
        assert forall|j: int| 0 <= j < key implies (#[trigger] image_at(all, j)) is None by {
            if j <= group {
                assert forall|k: int| 0 <= k < j implies !is_image_group(#[trigger] all[k]) by {
                    assert(!is_image_group(lines[k]));
                }
                lemma_outside_image_groups(all, j);
            } else {
                assert(key_value(lines[j], "Image"@) is None);
                assert(key_value(all[j], "Image"@) is None);
            }
        }
        assert(is_image_group(all[group]));
        assert forall|j: int| group < j < key implies !is_header(#[trigger] all[j]) by {
            assert(!is_header(lines[j]));
        }
        lemma_inside_image_group(all, group, key);
        assert(all[key] == image_line(abs));
        lemma_first_image(all, 0, key);
    } else {
        let marker = next_marker(lines, 0);
        lemma_next_marker(lines, 0);
        let end = next_header(lines, marker + 1);
        lemma_next_header(lines, marker + 1);
        lemma_containment_digits(lines, marker);
        let id = containment_at(lines, marker)->0;
        lemma_group_line(id);
        assert forall|i: int| 0 <= i < out.len() implies free_of(#[trigger] out[i], '\n') by {
            if i < end {
                assert(out[i] == lines[i]);
                assert(free_of(lines[i], '\n'));
            } else if i >= end + 3 {
                assert(out[i] == lines[i - 3]);
                assert(free_of(lines[i - 3], '\n'));
            }
        }
        lemma_split_render(out);
        assert forall|j: int| 0 <= j < end + 2 implies (#[trigger] image_at(all, j)) is None by {
            assert forall|k: int| 0 <= k < j implies !is_image_group(#[trigger] all[k]) by {
                if k < end {
                    assert(all[k] == lines[k]);
                    assert(!is_image_group(lines[k]));
                } else {
                    assert(all[k] == Seq::<char>::empty());
                    assert(trim(Seq::<char>::empty()) =~= Seq::empty());
                }
            }
            lemma_outside_image_groups(all, j);
        }
        assert(all[end + 1] == group_line(id));
        lemma_inside_image_group(all, end + 1, end + 2);
        assert(all[end + 2] == image_line(abs));
        lemma_first_image(all, 0, end + 2);
    }
}

} // verus!
