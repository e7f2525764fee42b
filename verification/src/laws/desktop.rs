//! Plasma's configuration file: what its lines mean, and what a rewrite puts in.

use vstd::prelude::*;

use crate::laws::texts::{blank, digits_only, lemma_spaces, lemma_trim_takes_ends};
use crate::plasma::{
    containment_at, containment_id, image_at, is_bracket, is_header, is_image_group, is_marker,
    key_value, lemma_first_image, lemma_inside_image_group, lemma_next_image_group,
    lemma_outside_image_groups, local_path, next_header, next_image, next_image_group,
    next_image_key, next_marker, strip_brackets_end, strip_brackets_start, tidy, with_image,
};
use crate::text::{is_space, lower, starts_with, trim};

verus! {

/// The header line of a containment.
pub open spec fn containment_header(n: Seq<char>) -> Seq<char> {
    "[Containments]["@ + n + "]"@
}

/// A header names exactly the containment whose number it holds, whatever
/// whitespace stands round it.
pub proof fn lemma_header_names_containment(a: Seq<char>, n: Seq<char>, b: Seq<char>)
    requires
        blank(a),
        blank(b),
        n.len() > 0,
        digits_only(n),
    ensures
        containment_id(a + containment_header(n) + b) == Some(n),
        is_header(a + containment_header(n) + b),
        !is_image_group(a + containment_header(n) + b),
{
    let h = containment_header(n);
    reveal_strlit("[Containments][");
    reveal_strlit("[Containments]");
    reveal_strlit("]");
    reveal_strlit("[wallpaper][org.kde.image][general]");
    lemma_spaces('[');
    lemma_spaces(']');
    assert(h[0] == '[' && h.last() == ']');
    lemma_trim_takes_ends(a, h, b);
    assert(h.subrange(0, 14) =~= "[Containments]"@);
    let rest = h.skip(14);
    assert(rest =~= seq!['['] + n + seq![']']);
    reveal_with_fuel(strip_brackets_start, 2);
    reveal_with_fuel(strip_brackets_end, 2);
    assert(rest.skip(1) =~= n + seq![']']);
    assert('0' <= n[0] <= '9');
    assert((n + seq![']'])[0] == n[0]);
    assert(strip_brackets_start(rest) == n + seq![']']);
    assert((n + seq![']']).drop_last() =~= n);
    assert('0' <= n.last() <= '9');
    assert(strip_brackets_end(n + seq![']']) == n);
    if is_image_group(a + h + b) {
        let p = "[wallpaper][org.kde.image][general]"@;
        let s = lower(h);
        let part = s.subrange(s.len() - p.len(), s.len() as int);
        assert(part == p);
        assert(part[p.len() - 2] == p[p.len() - 2]);
        assert(s[s.len() - 2] == n.last());
        assert(p[p.len() - 2] == 'l');
    }
}

proof fn lemma_strip_keeps(s: Seq<char>, k: int)
    requires
        0 <= k < s.len(),
        !is_bracket(s[k]),
    ensures
        strip_brackets_end(strip_brackets_start(s)).contains(s[k]),
{
    lemma_strip_start_keeps(s, k);
    let t = strip_brackets_start(s);
    let j = choose|j: int| 0 <= j < t.len() && t[j] == s[k];
    lemma_strip_end_keeps(t, j);
}

proof fn lemma_strip_start_keeps(s: Seq<char>, k: int)
    requires
        0 <= k < s.len(),
        !is_bracket(s[k]),
    ensures
        strip_brackets_start(s).contains(s[k]),
    decreases s.len(),
{
    if is_bracket(s[0]) {
        assert(s.skip(1)[k - 1] == s[k]);
        lemma_strip_start_keeps(s.skip(1), k - 1);
    } else {
        assert(s[k] == s[k]);
    }
}

proof fn lemma_strip_end_keeps(s: Seq<char>, k: int)
    requires
        0 <= k < s.len(),
        !is_bracket(s[k]),
    ensures
        strip_brackets_end(s).contains(s[k]),
    decreases s.len(),
{
    if is_bracket(s.last()) {
        assert(s.drop_last()[k] == s[k]);
        lemma_strip_end_keeps(s.drop_last(), k);
    } else {
        assert(s[k] == s[k]);
    }
}

/// A line names a containment only where it begins with the word for one, and
/// holds behind it no other character than digits and brackets.
pub proof fn lemma_only_numbers_name_containments(line: Seq<char>, k: int)
    requires
        containment_id(line) is Some,
    ensures
        starts_with(trim(line), "[Containments]"@),
        14 <= k < trim(line).len() ==> trim(line)[k] == '[' || trim(line)[k] == ']' || '0' <= trim(
            line,
        )[k] <= '9',
        containment_id(line)->0.len() > 0,
        digits_only(containment_id(line)->0),
{
    reveal_strlit("[Containments]");
    let t = trim(line);
    let rest = t.skip(14);
    if 14 <= k < t.len() {
        assert(rest[k - 14] == t[k]);
        if !is_bracket(t[k]) {
            lemma_strip_keeps(rest, k - 14);
        }
    }
}

/// A line in brackets is a header, and no other is.
pub proof fn lemma_header_in_brackets(a: Seq<char>, s: Seq<char>, b: Seq<char>)
    requires
        blank(a),
        blank(b),
        s.len() > 0,
        !is_space(s[0]) && !is_space(s.last()),
    ensures
        is_header(a + s + b) <==> s[0] == '[' && s.last() == ']',
        !is_header(a + b),
{
    lemma_trim_takes_ends(a, s, b);
    lemma_trim_takes_ends(a, Seq::empty(), b);
    assert(a + Seq::<char>::empty() + b =~= a + b);
}

/// The header of a containment's image group is one, and so is any header that
/// ends like it, in capital or small letters.
pub proof fn lemma_image_group_header(p: Seq<char>, end: Seq<char>)
    requires
        p.len() > 0,
        p[0] == '[',
        lower(end) == "[wallpaper][org.kde.image][general]"@,
    ensures
        is_image_group(p + end),
{
    reveal_strlit("[wallpaper][org.kde.image][general]");
    lemma_spaces('[');
    lemma_spaces(']');
    let s = p + end;
    assert(lower(end).last() == ']');
    assert(lower(end)[34] == crate::text::lower_char(end[34]));
    assert(end.last() == ']');
    lemma_trim_takes_ends(Seq::empty(), s, Seq::empty());
    assert(Seq::<char>::empty() + s + Seq::<char>::empty() =~= s);
    assert(lower(s).subrange(s.len() - end.len(), s.len() as int) =~= lower(end));
}

/// A group is an image group only where its header ends so.
pub proof fn lemma_other_groups(line: Seq<char>)
    requires
        is_image_group(line),
    ensures
        is_header(line),
        trim(line).len() >= 35,
        lower(trim(line).skip(trim(line).len() - 35)) == "[wallpaper][org.kde.image][general]"@,
{
    reveal_strlit("[wallpaper][org.kde.image][general]");
    let t = trim(line);
    assert(lower(t.skip(t.len() - 35)) =~= lower(t).subrange(t.len() - 35, t.len() as int));
}

/// The value of a line `key = value`: what stands behind the sign, trimmed, where
/// the key is the one that is looked for, in capital or small letters.
pub proof fn lemma_value_of_key(
    a: Seq<char>,
    written: Seq<char>,
    c: Seq<char>,
    value: Seq<char>,
    b: Seq<char>,
    key: Seq<char>,
)
    requires
        blank(a),
        blank(b),
        blank(c),
        written.len() > 0,
        !is_space(written[0]),
        value.len() > 0,
        !is_space(value[0]) && !is_space(value.last()),
    ensures
        lower(written) == lower(key) ==> key_value(
            a + written + seq!['='] + c + value + b,
            key,
        ) == Some(value),
        lower(written) != lower(key) && written.len() == key.len() ==> key_value(
            a + written + seq!['='] + c + value + b,
            key,
        ) is None,
        lower(written) == lower(key) ==> key_value(a + written + seq!['='] + b, key) is None,
{
    let t = written + seq!['='] + c + value;
    assert(a + written + seq!['='] + c + value + b =~= a + t + b);
    assert(t[0] == written[0] && t.last() == value.last());
    lemma_trim_takes_ends(a, t, b);
    let n = written.len() as int + 1;
    let head = t.take(n);
    assert(head =~= written.push('='));
    assert(t.skip(n) =~= c + value);
    lemma_trim_takes_ends(c, value, Seq::empty());
    assert(c + value + Seq::<char>::empty() =~= c + value);
    assert(lower(head) =~= lower(written).push('='));
    assert(lower(key.push('=')) =~= lower(key).push('='));
    if written.len() == key.len() && lower(head) == lower(key.push('=')) {
        assert(lower(head).drop_last() =~= lower(written));
        assert(lower(key.push('=')).drop_last() =~= lower(key));
    }
    if lower(written) == lower(key) {
        assert(lower(written).len() == written.len() && lower(key).len() == key.len());
        let bare = written + seq!['='];
        lemma_spaces('=');
        lemma_trim_takes_ends(a, bare, b);
        assert(a + written + seq!['='] + b =~= a + bare + b);
    }
}

/// A desktop is marked by its plugin, under either key.
pub proof fn lemma_marker_line(written: Seq<char>, value: Seq<char>)
    requires
        lower(written) == "wallpaperplugin"@ || lower(written) == "plugin"@,
        value.len() > 0,
        !is_space(value[0]) && !is_space(value.last()),
    ensures
        is_marker(written + seq!['='] + value) <==> lower(value) == "org.kde.image"@,
{
    reveal_strlit("wallpaperplugin");
    reveal_strlit("plugin");
    let e = Seq::<char>::empty();
    let line = written + seq!['='] + value;
    assert(e + written + seq!['='] + e + value + e =~= line);
    assert(lower("wallpaperplugin"@) =~= "wallpaperplugin"@);
    assert(lower("plugin"@) =~= "plugin"@);
    assert(lower(written).len() == written.len());
    assert(lower(written)[0] == crate::text::lower_char(written[0]));
    assert(!is_space(written[0]));
    if lower(written) == "plugin"@ {
        lemma_value_of_key(e, written, e, value, e, "plugin"@);
    } else {
        lemma_value_of_key(e, written, e, value, e, "wallpaperplugin"@);
        lemma_trim_takes_ends(e, line, e);
        assert(e + line + e =~= line);
        assert(lower(line.take(7))[0] == lower(written)[0]);
        assert(lower("plugin"@.push('='))[0] == 'p');
        assert(lower(written)[0] == 'w');
        assert(key_value(line, "plugin"@) is None);
    }
}

/// The group that a rewrite creates stands under the header of the containment
/// that holds the marker line, at the end of that containment's keys: an empty
/// line, the containment's header line with the names of the group behind it, and
/// the image. Every other line stays as it is.
pub proof fn lemma_created_group(
    lines: Seq<Seq<char>>,
    abs: Seq<char>,
    n: Seq<char>,
    h: int,
    m: int,
    end: int,
)
    requires
        0 <= h < m < end <= lines.len(),
        n.len() > 0,
        digits_only(n),
        lines[h] == containment_header(n),
        forall|i: int| h < i < end ==> !is_header(#[trigger] lines[i]),
        end < lines.len() ==> is_header(lines[end]),
        is_marker(lines[m]),
        forall|i: int| 0 <= i < m ==> !is_marker(#[trigger] lines[i]),
        forall|i: int| 0 <= i < lines.len() ==> !is_image_group(#[trigger] lines[i]),
    ensures
        with_image(lines, abs) == Some(
            lines.take(end) + seq![
                Seq::<char>::empty(),
                lines[h] + "[Wallpaper][org.kde.image][General]"@,
                "Image="@ + abs,
            ] + lines.skip(end),
        ),
{
    lemma_next_image_group(lines, 0);
    let e = Seq::<char>::empty();
    lemma_header_names_containment(e, n, e);
    assert(e + lines[h] + e =~= lines[h]);
    lemma_containment_here(lines, h, m);
    lemma_marker_here(lines, 0, m);
    lemma_header_here(lines, m + 1, end);
    reveal_strlit("[Containments][");
    reveal_strlit("]");
    reveal_strlit("][Wallpaper][org.kde.image][General]");
    reveal_strlit("[Wallpaper][org.kde.image][General]");
    assert("]"@ + "[Wallpaper][org.kde.image][General]"@
        =~= "][Wallpaper][org.kde.image][General]"@);
    let made = lines[h] + "[Wallpaper][org.kde.image][General]"@;
    assert(made =~= crate::plasma::group_line(n));
}

proof fn lemma_containment_here(lines: Seq<Seq<char>>, h: int, i: int)
    requires
        0 <= h <= i < lines.len(),
        is_header(lines[h]),
        forall|k: int| h < k <= i ==> !is_header(#[trigger] lines[k]),
    ensures
        containment_at(lines, i) == containment_id(lines[h]),
    decreases i,
{
    if i > h {
        lemma_containment_here(lines, h, i - 1);
    }
}

proof fn lemma_marker_here(lines: Seq<Seq<char>>, from: int, m: int)
    requires
        0 <= from <= m < lines.len(),
        is_marker(lines[m]),
        containment_at(lines, m) is Some,
        forall|i: int|
            from <= i < m ==> !(is_marker(#[trigger] lines[i]) && containment_at(lines, i) is Some),
    ensures
        next_marker(lines, from) == m,
    decreases m - from,
{
    if from < m {
        assert(!(is_marker(lines[from]) && containment_at(lines, from) is Some));
        lemma_marker_here(lines, from + 1, m);
    }
}

proof fn lemma_header_here(lines: Seq<Seq<char>>, from: int, end: int)
    requires
        0 <= from <= end <= lines.len(),
        forall|i: int| from <= i < end ==> !is_header(#[trigger] lines[i]),
        end < lines.len() ==> is_header(lines[end]),
    ensures
        next_header(lines, from) == end,
    decreases end - from,
{
    if from < end {
        assert(!is_header(lines[from]));
        lemma_header_here(lines, from + 1, end);
    }
}

proof fn lemma_group_here(lines: Seq<Seq<char>>, from: int, g: int)
    requires
        0 <= from <= g < lines.len(),
        is_image_group(lines[g]),
        forall|i: int| from <= i < g ==> !is_image_group(#[trigger] lines[i]),
    ensures
        next_image_group(lines, from) == g,
    decreases g - from,
{
    if from < g {
        assert(!is_image_group(lines[from]));
        lemma_group_here(lines, from + 1, g);
    }
}

proof fn lemma_key_here(lines: Seq<Seq<char>>, from: int, k: int, to: int)
    requires
        0 <= from <= k <= to <= lines.len(),
        k < to ==> key_value(lines[k], "Image"@) is Some,
        forall|i: int| from <= i < k ==> key_value(#[trigger] lines[i], "Image"@) is None,
    ensures
        next_image_key(lines, from, to) == k,
    decreases k - from,
{
    if from < k {
        assert(key_value(lines[from], "Image"@) is None);
        lemma_key_here(lines, from + 1, k, to);
    }
}

/// In a file with an image group, the first image of the first such group is
/// replaced where it stands. The other lines stay, but that blank ones are empty.
pub proof fn lemma_replaced_image(
    lines: Seq<Seq<char>>,
    abs: Seq<char>,
    g: int,
    k: int,
    end: int,
)
    requires
        0 <= g < k < end <= lines.len(),
        is_image_group(lines[g]),
        forall|i: int| 0 <= i < g ==> !is_image_group(#[trigger] lines[i]),
        forall|i: int| g < i < end ==> !is_header(#[trigger] lines[i]),
        end < lines.len() ==> is_header(lines[end]),
        key_value(lines[k], "Image"@) is Some,
        forall|i: int| g < i < k ==> key_value(#[trigger] lines[i], "Image"@) is None,
    ensures
        with_image(lines, abs) is Some,
        with_image(lines, abs)->0.len() == lines.len(),
        with_image(lines, abs)->0[k] == "Image="@ + abs,
        forall|i: int|
            0 <= i < lines.len() && i != k ==> {
                &&& !blank(lines[i]) ==> #[trigger] with_image(lines, abs)->0[i] == lines[i]
                &&& blank(lines[i]) ==> with_image(lines, abs)->0[i].len() == 0
            },
{
    lemma_group_here(lines, 0, g);
    lemma_header_here(lines, g + 1, end);
    lemma_key_here(lines, g + 1, k, end);
    assert forall|i: int| 0 <= i < lines.len() && i != k implies {
        &&& !blank(lines[i]) ==> #[trigger] with_image(lines, abs)->0[i] == lines[i]
        &&& blank(lines[i]) ==> with_image(lines, abs)->0[i].len() == 0
    } by {
        lemma_blank_is_trimmed(lines[i]);
        assert(tidy(lines)[i] == crate::plasma::tidy_line(lines[i]));
    }
}

/// In an image group without an image, one is added at the end of the group.
pub proof fn lemma_added_image(lines: Seq<Seq<char>>, abs: Seq<char>, g: int, end: int)
    requires
        0 <= g < end <= lines.len(),
        is_image_group(lines[g]),
        forall|i: int| 0 <= i < g ==> !is_image_group(#[trigger] lines[i]),
        forall|i: int| g < i < end ==> !is_header(#[trigger] lines[i]),
        end < lines.len() ==> is_header(lines[end]),
        forall|i: int| g < i < end ==> key_value(#[trigger] lines[i], "Image"@) is None,
    ensures
        with_image(lines, abs) is Some,
        with_image(lines, abs)->0.len() == lines.len() + 1,
        with_image(lines, abs)->0[end] == "Image="@ + abs,
        forall|i: int|
            0 <= i < end && !blank(lines[i]) ==> #[trigger] with_image(lines, abs)->0[i]
                == lines[i],
        forall|i: int|
            end < i <= lines.len() && !blank(lines[i - 1]) ==> #[trigger] with_image(lines, abs)->0[i]
                == lines[i - 1],
{
    lemma_group_here(lines, 0, g);
    lemma_header_here(lines, g + 1, end);
    lemma_key_here(lines, g + 1, end, end);
    assert forall|i: int| 0 <= i < end && !blank(lines[i]) implies #[trigger] with_image(
        lines,
        abs,
    )->0[i] == lines[i] by {
        lemma_blank_is_trimmed(lines[i]);
        assert(tidy(lines)[i] == crate::plasma::tidy_line(lines[i]));
    }
    assert forall|i: int| end < i <= lines.len() && !blank(lines[i - 1]) implies #[trigger] with_image(
        lines,
        abs,
    )->0[i] == lines[i - 1] by {
        lemma_blank_is_trimmed(lines[i - 1]);
        assert(tidy(lines)[i - 1] == crate::plasma::tidy_line(lines[i - 1]));
    }
}

/// A line is blank where nothing is left of it once it is trimmed.
proof fn lemma_blank_is_trimmed(s: Seq<char>)
    ensures
        blank(s) <==> trim(s).len() == 0,
{
    if blank(s) {
        lemma_trim_takes_ends(s, Seq::empty(), Seq::empty());
        assert(s + Seq::<char>::empty() + Seq::<char>::empty() =~= s);
    }
    if trim(s).len() == 0 {
        lemma_trimmed_away(s);
    }
}

proof fn lemma_trimmed_away(s: Seq<char>)
    requires
        trim(s).len() == 0,
    ensures
        blank(s),
    decreases s.len(),
{
    if s.len() > 0 {
        if is_space(s[0]) {
            lemma_trimmed_away(s.skip(1));
            assert forall|i: int| 0 <= i < s.len() implies is_space(#[trigger] s[i]) by {
                if i > 0 {
                    assert(s.skip(1)[i - 1] == s[i]);
                }
            }
        } else {
            lemma_end_trimmed_away(s);
        }
    }
}

proof fn lemma_end_trimmed_away(s: Seq<char>)
    requires
        crate::text::trim_end(s).len() == 0,
    ensures
        blank(s),
    decreases s.len(),
{
    if s.len() > 0 {
        lemma_end_trimmed_away(s.drop_last());
        assert forall|i: int| 0 <= i < s.len() implies is_space(#[trigger] s[i]) by {
            if i < s.len() - 1 {
                assert(s.drop_last()[i] == s[i]);
            }
        }
    }
}

/// Without an image group and without a marker the file is left alone.
pub proof fn lemma_nothing_to_rewrite(lines: Seq<Seq<char>>, abs: Seq<char>)
    requires
        forall|i: int| 0 <= i < lines.len() ==> !is_image_group(#[trigger] lines[i]),
        forall|i: int| 0 <= i < lines.len() ==> !is_marker(#[trigger] lines[i]),
    ensures
        with_image(lines, abs) is None,
{
    lemma_next_image_group(lines, 0);
    lemma_no_marker(lines, 0);
}

proof fn lemma_no_marker(lines: Seq<Seq<char>>, from: int)
    requires
        0 <= from <= lines.len(),
        forall|i: int| 0 <= i < lines.len() ==> !is_marker(#[trigger] lines[i]),
    ensures
        next_marker(lines, from) == lines.len(),
    decreases lines.len() - from,
{
    if from < lines.len() {
        assert(!is_marker(lines[from]));
        lemma_no_marker(lines, from + 1);
    }
}

/// The current image is the first one in an image group; images in other groups
/// do not count.
pub proof fn lemma_current_is_first(lines: Seq<Seq<char>>, g: int, k: int, value: Seq<char>)
    requires
        0 <= g < k < lines.len(),
        is_image_group(lines[g]),
        forall|i: int| 0 <= i < g ==> !is_image_group(#[trigger] lines[i]),
        forall|i: int| g < i <= k ==> !is_header(#[trigger] lines[i]),
        forall|i: int| g < i < k ==> key_value(#[trigger] lines[i], "Image"@) is None,
        key_value(lines[k], "Image"@) == Some(value),
        value.len() > 0,
    ensures
        next_image(lines, 0) == Some(value),
{
    lemma_inside_image_group(lines, g, k);
    assert forall|j: int| 0 <= j < k implies (#[trigger] image_at(lines, j)) is None by {
        if j < g {
            lemma_outside_image_groups(lines, j);
        } else if j > g {
            assert(key_value(lines[j], "Image"@) is None);
        } else {
            assert(is_header(lines[j]));
        }
    }
    lemma_first_image(lines, 0, k);
}

/// A path is read without the `file://` of its address, and any other value as it
/// is.
pub proof fn lemma_local_paths(path: Seq<char>)
    ensures
        local_path("file://"@ + path) == path,
        path.len() > 0 && path[0] == '/' ==> local_path(path) == path,
{
    reveal_strlit("file://");
    let s = "file://"@ + path;
    assert(s.subrange(0, 7) =~= "file://"@);
    assert(s.skip(7) =~= path);
    if path.len() > 0 && path[0] == '/' && starts_with(path, "file://"@) {
        assert(path.subrange(0, 7)[0] == path[0]);
    }
}

} // verus!
