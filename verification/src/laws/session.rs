//! The session: backends, XFCE's properties, autostart and the fetch helper.

use vstd::prelude::*;

use crate::applier::{
    backend_id, backend_named, is_plasma_session, path_of_uri, resolved, session_backend, uri_of,
    Availability, Backend,
};
use crate::autostart::{
    command_of, entry_lines, exec_command, first_present, is_stale, start_failure_text,
    supervisor_places, unit_name, unit_text, Step, Unit,
};
use crate::date::{day_in_text, Date};
use crate::helper::{
    arguments_for, error_in, job_in, line_with, reported_image, BadArguments,
};
use crate::i18n::catalogue_dirs;
use crate::laws::requests::lemma_unsplit;
use crate::laws::texts::{
    blank, digits_only, lemma_decimal_reads_back, lemma_first_place, lemma_parts_of_text,
    lemma_spaces, lemma_trim_takes_ends, number_in,
};
use crate::path::joined;
use crate::text::{
    contains, decimal, decimal_int, find, find_char, first_word, free_of, integer_in, is_space,
    lemma_find, lines, lower, number_of, occurs_at, only_digits, split, starts_with, trim,
    until_space,
};
use crate::xfce::{
    display_of, first_set, first_value, is_last_image, last_images, monitor_of, monitor_property,
    with_last_image,
};

verus! {

/// The names by which a backend is asked for.
pub proof fn lemma_backend_names()
    ensures
        backend_named("gnome"@) == Backend::Gnome,
        backend_named("kde"@) == Backend::Kde,
        backend_named("plasma"@) == Backend::Kde,
        backend_named("xfce"@) == Backend::Xfce,
        backend_named("xubuntu"@) == Backend::Xfce,
        backend_named("auto"@) == Backend::Auto,
        backend_id(Backend::Gnome) == "gnome"@,
        backend_id(Backend::Kde) == "kde"@,
        backend_id(Backend::Xfce) == "xfce"@,
        backend_id(Backend::Auto) == "auto"@,
{
    reveal_strlit("gnome");
    reveal_strlit("kde");
    reveal_strlit("plasma");
    reveal_strlit("xfce");
    reveal_strlit("xubuntu");
    reveal_strlit("auto");
    lemma_plain_name("gnome"@);
    lemma_plain_name("kde"@);
    lemma_plain_name("plasma"@);
    lemma_plain_name("xfce"@);
    lemma_plain_name("xubuntu"@);
    lemma_plain_name("auto"@);
    assert("auto"@[0] != "xfce"@[0]);
}

proof fn lemma_plain_name(s: Seq<char>)
    requires
        s.len() > 0,
        forall|i: int| 0 <= i < s.len() ==> 'a' <= #[trigger] s[i] <= 'z',
    ensures
        lower(trim(s)) == s,
{
    let e = Seq::<char>::empty();
    assert('a' <= s[0] <= 'z' && 'a' <= s[s.len() - 1] <= 'z');
    lemma_trim_takes_ends(e, s, e);
    assert(e + s + e =~= s);
    assert(lower(s) =~= s);
}

/// The names of backends are read in capital or small letters, whatever
/// whitespace stands round them.
pub proof fn lemma_backend_names_loosely(a: Seq<char>, s: Seq<char>, b: Seq<char>)
    requires
        blank(a),
        blank(b),
        s.len() > 0,
        !is_space(s[0]) && !is_space(s.last()),
    ensures
        backend_named(a + s + b) == backend_named(lower(s)) || is_space(lower(s)[0]) || is_space(
            lower(s).last(),
        ),
{
    let e = Seq::<char>::empty();
    lemma_trim_takes_ends(a, s, b);
    if !is_space(lower(s)[0]) && !is_space(lower(s).last()) {
        lemma_trim_takes_ends(e, lower(s), e);
        assert(e + lower(s) + e =~= lower(s));
        assert(lower(lower(s)) =~= lower(s));
    }
}

/// The backend that is asked for is used where it can be; else that of the
/// session; else the first that can be used, GNOME before Plasma before XFCE.
pub proof fn lemma_backend_choice(forced: Seq<char>, desktop: Seq<char>, a: Availability)
    ensures
        forced == "gnome"@ && a.gnome ==> resolved(forced, desktop, a) == Backend::Gnome,
        forced == "kde"@ && a.kde ==> resolved(forced, desktop, a) == Backend::Kde,
        forced == "plasma"@ && a.kde ==> resolved(forced, desktop, a) == Backend::Kde,
        forced == "xfce"@ && a.xfce ==> resolved(forced, desktop, a) == Backend::Xfce,
        (forced == "auto"@ || forced.len() == 0) && session_backend(desktop) is None ==> resolved(
            forced,
            desktop,
            a,
        ) == (if a.gnome {
            Backend::Gnome
        } else if a.kde {
            Backend::Kde
        } else if a.xfce {
            Backend::Xfce
        } else {
            Backend::Auto
        }),
        (forced == "auto"@ || forced.len() == 0) && session_backend(desktop) == Some(Backend::Xfce)
            && a.xfce ==> resolved(forced, desktop, a) == Backend::Xfce,
        (forced == "auto"@ || forced.len() == 0) && session_backend(desktop) == Some(Backend::Kde)
            && a.kde ==> resolved(forced, desktop, a) == Backend::Kde,
        (forced == "auto"@ || forced.len() == 0) && session_backend(desktop) == Some(Backend::Gnome)
            && a.gnome ==> resolved(forced, desktop, a) == Backend::Gnome,
        forced == "xfce"@ && !a.xfce && session_backend(desktop) == Some(Backend::Kde) && a.kde
            ==> resolved(forced, desktop, a) == Backend::Kde,
{
    lemma_backend_names();
    reveal_strlit("gnome");
    reveal_strlit("kde");
    reveal_strlit("plasma");
    reveal_strlit("xfce");
    reveal_strlit("auto");
    assert("auto"@[0] != "xfce"@[0]);
}

/// The session's desktop tells its backend by a word in its name.
pub proof fn lemma_session_words(a: Seq<char>, b: Seq<char>, desktop: Seq<char>)
    ensures
        lower(trim(desktop)) == a + "gnome"@ + b ==> session_backend(desktop) == Some(
            Backend::Gnome,
        ),
        lower(trim(desktop)) == a + "kde"@ + b && !contains(lower(trim(desktop)), "gnome"@)
            ==> session_backend(desktop) == Some(Backend::Kde),
        lower(trim(desktop)) == a + "plasma"@ + b && !contains(lower(trim(desktop)), "gnome"@)
            ==> session_backend(desktop) == Some(Backend::Kde),
        lower(trim(desktop)) == a + "xfce"@ + b && !contains(lower(trim(desktop)), "gnome"@)
            && !contains(lower(trim(desktop)), "kde"@) && !contains(
            lower(trim(desktop)),
            "plasma"@,
        ) ==> session_backend(desktop) == Some(Backend::Xfce),
        trim(desktop).len() == 0 ==> session_backend(desktop) is None,
        lower(desktop) == a + "kde"@ + b || lower(desktop) == a + "plasma"@ + b
            ==> is_plasma_session(desktop),
        desktop.len() < 3 ==> !is_plasma_session(desktop),
{
    lemma_parts_of_text(a, "gnome"@, b);
    lemma_parts_of_text(a, "kde"@, b);
    lemma_parts_of_text(a, "plasma"@, b);
    lemma_parts_of_text(a, "xfce"@, b);
    reveal_strlit("gnome");
    reveal_strlit("kde");
    reveal_strlit("plasma");
    reveal_strlit("xfce");
    reveal_strlit("xubuntu");
}

/// The address of a file is its path behind `file://`; other addresses are no
/// files.
pub proof fn lemma_file_addresses(path: Seq<char>)
    ensures
        uri_of(path) == "file://"@ + path,
        path.len() > 0 ==> path_of_uri("file://"@ + path) == Some(path),
        path_of_uri("file://"@) is None,
        path.len() > 0 && path[0] != 'f' ==> path_of_uri(path) is None,
{
    if path.len() > 0 {
        crate::applier::lemma_uri_reads_back(path);
    }
    reveal_strlit("file://");
    if path.len() > 0 && starts_with(path, "file://"@) {
        assert(path.subrange(0, 7)[0] == path[0]);
    }
}

/// XFCE's property of a monitor's wallpaper, and of any.
pub proof fn lemma_xfce_properties(name: Seq<char>, a: Seq<char>)
    ensures
        monitor_property(name) == "/backdrop/screen0/monitor"@ + name + "/workspace0/last-image"@,
        is_last_image(a + "/last-image"@),
        is_last_image(monitor_property(name)),
        a.len() < 11 ==> !is_last_image(a),
{
    lemma_parts_of_text(a, "/last-image"@, Seq::empty());
    lemma_property_end();
    let head = "/backdrop/screen0/monitor"@ + name;
    let end = "/last-image"@;
    let front = head + "/workspace0"@;
    assert(head + ("/workspace0"@ + end) =~= front + end);
    lemma_parts_of_text(front, end, Seq::empty());
}

proof fn lemma_property_end()
    ensures
        "/workspace0"@ + "/last-image"@ == "/workspace0/last-image"@,
        "/last-image"@.len() == 11,
{
    reveal_strlit("/last-image");
    reveal_strlit("/workspace0/last-image");
    reveal_strlit("/workspace0");
    assert("/workspace0"@ + "/last-image"@ =~= "/workspace0/last-image"@);
}

/// A display is named by the part of its key behind `/Default/`, up to the next
/// slash.
pub proof fn lemma_display_names(name: Seq<char>, rest: Seq<char>)
    requires
        free_of(name, '/'),
    ensures
        display_of("/Default/"@ + name + seq!['/'] + rest) == name,
        name.len() > 0 ==> display_of("/Default/"@ + name) == name,
{
    reveal_strlit("/Default/");
    let key = "/Default/"@ + name + seq!['/'] + rest;
    assert(key.subrange(0, 9) =~= "/Default/"@);
    assert(key.skip(9) =~= name + seq!['/'] + rest);
    lemma_first_place(name, '/', rest, 0);
    assert((name + seq!['/'] + rest).take(name.len() as int) =~= name);
    let short = "/Default/"@ + name;
    assert(short.subrange(0, 9) =~= "/Default/"@);
    assert(short.skip(9) =~= name);
    assert(name.take(name.len() as int) =~= name);
}

/// A line of the list of monitors: a number, a colon, and the name, with or
/// without signs before it.
pub proof fn lemma_monitor_lines(
    number: Seq<char>,
    signs: Seq<char>,
    name: Seq<char>,
    rest: Seq<char>,
)
    requires
        number.len() > 0,
        digits_only(number),
        forall|i: int| 0 <= i < signs.len() ==> #[trigger] signs[i] == '+' || signs[i] == '-',
        name.len() > 0,
        name[0] != '+' && name[0] != '-',
        forall|i: int| 0 <= i < name.len() ==> !is_space(#[trigger] name[i]),
        rest.len() > 0,
        !is_space(rest.last()),
    ensures
        monitor_of(
            number + seq![':', ' '] + signs + name + seq![' '] + rest,
        ) == Some(name),
{
    let e = Seq::<char>::empty();
    let line = number + seq![':', ' '] + signs + name + seq![' '] + rest;
    assert('0' <= number[0] <= '9');
    assert(line[0] == number[0]);
    assert(line.last() == rest.last());
    lemma_trim_takes_ends(e, line, e);
    assert(e + line + e =~= line);
    let word = signs + name;
    let behind = seq![' '] + word + seq![' '] + rest;
    assert(line =~= number + seq![':'] + behind);
    assert forall|j: int| 0 <= j < number.len() implies #[trigger] number[j] != ':' by {
        assert('0' <= number[j] <= '9');
    }
    lemma_first_place(number, ':', behind, 0);
    assert(line.skip((number.len() + 1) as int) =~= behind);
    lemma_monitor_word(signs, name, rest);
}

proof fn lemma_monitor_word(signs: Seq<char>, name: Seq<char>, rest: Seq<char>)
    requires
        forall|i: int| 0 <= i < signs.len() ==> #[trigger] signs[i] == '+' || signs[i] == '-',
        name.len() > 0,
        name[0] != '+' && name[0] != '-',
        forall|i: int| 0 <= i < name.len() ==> !is_space(#[trigger] name[i]),
    ensures
        crate::xfce::unsigned(
            first_word(seq![' '] + (signs + name) + seq![' '] + rest),
        ) == name,
{
    let word = signs + name;
    let behind = seq![' '] + word + seq![' '] + rest;
    assert(behind.skip(1) =~= word + (seq![' '] + rest));
    assert forall|i: int| 0 <= i < word.len() implies !is_space(#[trigger] word[i]) by {
        if i < signs.len() {
            assert(word[i] == signs[i]);
            lemma_spaces(signs[i]);
        } else {
            assert(word[i] == name[i - signs.len()]);
        }
    }
    assert(behind[0] == ' ');
    assert(!is_space(word[0]));
    assert((word + (seq![' '] + rest))[0] == word[0]);
    reveal_with_fuel(crate::text::trim_start, 2);
    assert(crate::text::trim_start(behind) == word + (seq![' '] + rest));
    lemma_word_taken(word, seq![' '] + rest);
    lemma_signs_taken(signs, name);
}

proof fn lemma_word_taken(word: Seq<char>, rest: Seq<char>)
    requires
        forall|i: int| 0 <= i < word.len() ==> !is_space(#[trigger] word[i]),
        rest.len() > 0,
        is_space(rest[0]),
    ensures
        until_space(word + rest) == word,
    decreases word.len(),
{
    let s = word + rest;
    if word.len() == 0 {
        assert(s =~= rest);
        assert(until_space(s) =~= word);
    } else {
        assert(s[0] == word[0]);
        let t = word.skip(1);
        assert forall|i: int| 0 <= i < t.len() implies !is_space(#[trigger] t[i]) by {
            assert(t[i] == word[i + 1]);
        }
        lemma_word_taken(t, rest);
        assert(s.skip(1) =~= t + rest);
        assert(seq![word[0]] + t =~= word);
    }
}

proof fn lemma_signs_taken(signs: Seq<char>, name: Seq<char>)
    requires
        forall|i: int| 0 <= i < signs.len() ==> #[trigger] signs[i] == '+' || signs[i] == '-',
        name.len() > 0,
        name[0] != '+' && name[0] != '-',
    ensures
        crate::xfce::unsigned(signs + name) == name,
    decreases signs.len(),
{
    let s = signs + name;
    if signs.len() == 0 {
        assert(s =~= name);
    } else {
        assert(s[0] == signs[0]);
        let t = signs.skip(1);
        assert forall|i: int| 0 <= i < t.len() implies #[trigger] t[i] == '+' || t[i] == '-' by {
            assert(t[i] == signs[i + 1]);
        }
        lemma_signs_taken(t, name);
        assert(s.skip(1) =~= t + name);
    }
}

/// Lines that do not begin with a digit name no monitor.
pub proof fn lemma_no_monitor(line: Seq<char>)
    requires
        trim(line).len() > 0 ==> !('0' <= trim(line)[0] <= '9'),
    ensures
        monitor_of(line) is None,
{
}

/// Of values the first that is set and not empty is taken.
pub proof fn lemma_first_set_value(values: Seq<Option<Seq<char>>>, k: int)
    requires
        0 <= k <= values.len(),
        forall|i: int|
            0 <= i < k ==> (#[trigger] values[i]) is None || values[i]->0.len() == 0,
    ensures
        k < values.len() && values[k] is Some && values[k]->0.len() > 0 ==> first_set(values)
            == values[k],
        k == values.len() ==> first_set(values) is None,
    decreases values.len(),
{
    if k > 0 {
        assert(values[0] is None || values[0]->0.len() == 0);
        let rest = values.skip(1);
        assert forall|i: int| 0 <= i < k - 1 implies (#[trigger] rest[i]) is None
            || rest[i]->0.len() == 0 by {
            assert(rest[i] == values[i + 1]);
        }
        lemma_first_set_value(rest, k - 1);
    }
}

/// In XFCE's file the wallpaper stands in the value behind the name `last-image`;
/// a rewrite puts the new path there, and leaves what is before and behind.
pub proof fn lemma_xfce_file(
    a: Seq<char>,
    b: Seq<char>,
    value: Seq<char>,
    c: Seq<char>,
    abs: Seq<char>,
)
    requires
        free_of(a, '='),
        free_of(b, '='),
        free_of(value, '"'),
        free_of(c, '='),
    ensures
        ({
            let head = a + "name=\"last-image\""@ + b + "value=\""@;
            let xml = head + value + seq!['"'] + c;
            &&& last_images(xml) == seq![value]
            &&& with_last_image(xml, abs) == head + abs + seq!['"'] + c
        }),
{
    let n = "name=\"last-image\""@;
    let v = "value=\""@;
    let head = a + n + b + v;
    let xml = head + value + seq!['"'] + c;
    let tail = seq!['"'] + c;
    lemma_attributes();
    assert(xml =~= a + n + (b + v + value + tail));
    lemma_word_found(a, n, 4, b + v + value + tail);
    let from = (a.len() + n.len()) as int;
    let at = (from + b.len()) as int;
    lemma_word_found_behind(a + n, b, v, 5, value + tail);
    assert(xml =~= a + n + b + v + (value + tail));
    let start = (at + v.len()) as int;
    let end = (start + value.len()) as int;
    assert forall|j: int| start <= j < end implies #[trigger] xml[j] != '"' by {
        assert(xml[j] == value[j - start]);
    }
    assert(xml[end] == '"');
    lemma_char_at(xml, '"', start, end);
    assert(first_value(xml) == Some((start, end)));
    assert(xml.subrange(start, end) =~= value);
    assert(xml.skip(end) =~= tail);
    lemma_word_absent(c, n, 4);
    assert(first_value(tail) is None);
    assert(last_images(tail) =~= Seq::empty());
    assert(last_images(xml) =~= seq![value]);
    assert(with_last_image(tail, abs) == tail);
    assert(xml.take(start) =~= head);
    assert(with_last_image(xml, abs) =~= head + abs + seq!['"'] + c);
}

proof fn lemma_attributes()
    ensures
        ({
            let n = "name=\"last-image\""@;
            &&& n.len() == 17
            &&& n[0] != '=' && n[1] != '=' && n[2] != '=' && n[3] != '=' && n[4] == '='
        }),
        ({
            let v = "value=\""@;
            &&& v.len() == 7
            &&& v[0] != '=' && v[1] != '=' && v[2] != '=' && v[3] != '=' && v[4] != '=' && v[5]
                == '='
        }),
{
    reveal_strlit("name=\"last-image\"");
    reveal_strlit("value=\"");
}

/// A word with its first `=` at `k` is found behind a text without one.
proof fn lemma_word_found_behind(
    p: Seq<char>,
    a: Seq<char>,
    word: Seq<char>,
    k: int,
    rest: Seq<char>,
)
    requires
        free_of(a, '='),
        0 <= k < word.len(),
        word[k] == '=',
        forall|i: int| 0 <= i < k ==> #[trigger] word[i] != '=',
    ensures
        find(p + a + word + rest, word, p.len() as int) == Some((p.len() + a.len()) as int),
{
    let s = p + a + word + rest;
    let from = p.len() as int;
    let at = (p.len() + a.len()) as int;
    assert(s.subrange(at, at + word.len()) =~= word);
    assert forall|j: int| from <= j < at implies !occurs_at(s, word, j) by {
        if occurs_at(s, word, j) {
            let part = s.subrange(j, j + word.len());
            assert(part[k] == s[j + k]);
            if j + k < at {
                assert(s[j + k] == a[j + k - from]);
            } else {
                assert(s[j + k] == word[j + k - at]);
            }
        }
    }
    lemma_found_at(s, word, from, at);
}

proof fn lemma_word_found(a: Seq<char>, word: Seq<char>, k: int, rest: Seq<char>)
    requires
        free_of(a, '='),
        0 <= k < word.len(),
        word[k] == '=',
        forall|i: int| 0 <= i < k ==> #[trigger] word[i] != '=',
    ensures
        find(a + word + rest, word, 0) == Some(a.len() as int),
{
    let e = Seq::<char>::empty();
    lemma_word_found_behind(e, a, word, k, rest);
    assert(e + a + word + rest =~= a + word + rest);
}

proof fn lemma_word_absent(c: Seq<char>, word: Seq<char>, k: int)
    requires
        free_of(c, '='),
        0 <= k < word.len(),
        word[k] == '=',
    ensures
        find(seq!['"'] + c, word, 0) is None,
{
    let tail = seq!['"'] + c;
    assert forall|j: int| 0 <= j implies !occurs_at(tail, word, j) by {
        if occurs_at(tail, word, j) {
            let part = tail.subrange(j, j + word.len());
            assert(part[k] == tail[j + k]);
            if j + k > 0 {
                assert(tail[j + k] == c[j + k - 1]);
            }
        }
    }
    lemma_find(tail, word, 0);
    if find(tail, word, 0) is Some {
        let i = find(tail, word, 0)->0;
        assert(!occurs_at(tail, word, i));
    }
}

proof fn lemma_found_at(s: Seq<char>, p: Seq<char>, from: int, at: int)
    requires
        0 <= from <= at,
        occurs_at(s, p, at),
        forall|j: int| from <= j < at ==> !occurs_at(s, p, j),
    ensures
        find(s, p, from) == Some(at),
{
    lemma_find(s, p, from);
    if find(s, p, from) is Some {
        let i = find(s, p, from)->0;
        if i < at {
            assert(!occurs_at(s, p, i));
        }
    }
}

proof fn lemma_char_at(s: Seq<char>, c: char, from: int, at: int)
    requires
        0 <= from <= at < s.len(),
        s[at] == c,
        forall|j: int| from <= j < at ==> #[trigger] s[j] != c,
    ensures
        find_char(s, c, from) == at,
    decreases at - from,
{
    if from < at {
        lemma_char_at(s, c, from + 1, at);
    }
}

/// The autostart entry runs the given command, in an entry for an application.
pub proof fn lemma_autostart_entry(exec: Seq<char>)
    ensures
        entry_lines(exec).len() == 7,
        entry_lines(exec)[0] == "[Desktop Entry]"@,
        entry_lines(exec)[1] == "Type=Application"@,
        entry_lines(exec).contains("Exec="@ + exec),
        entry_lines(exec).contains("Terminal=false"@),
        entry_lines(exec).contains("X-GNOME-Autostart-enabled=true"@),
{
    assert(entry_lines(exec)[4] == "Exec="@ + exec);
    assert(entry_lines(exec)[5] == "Terminal=false"@);
    assert(entry_lines(exec)[6] == "X-GNOME-Autostart-enabled=true"@);
}

/// The unit starts the given command, and again where it fails.
pub proof fn lemma_unit_starts(exec: Seq<char>)
    ensures
        unit_text(exec)
            == "[Unit]\nDescription=Equinox wallpaper supervisor\nAfter=graphical-session.target\n\n"@
            + "[Service]\nExecStart="@ + exec
            + "\nRestart=on-failure\nRestartSec=5\n\n[Install]\nWantedBy=default.target\n"@,
        contains(unit_text(exec), "[Service]\nExecStart="@ + exec),
{
    let a = "[Unit]\nDescription=Equinox wallpaper supervisor\nAfter=graphical-session.target\n\n"@;
    let b = "[Service]\nExecStart="@;
    let c = "\nRestart=on-failure\nRestartSec=5\n\n[Install]\nWantedBy=default.target\n"@;
    assert(a + b + exec + c =~= a + (b + exec) + c);
    lemma_parts_of_text(a, b + exec, c);
}

/// The commands to systemd, and the units that they are about.
pub proof fn lemma_unit_commands(u: Unit)
    ensures
        command_of(Step::Start(u)) == Some(("start"@, Some(unit_name(u)))),
        command_of(Step::Stop(u)) == Some(("stop"@, Some(unit_name(u)))),
        command_of(Step::Enable(u)) == Some(("enable"@, Some(unit_name(u)))),
        command_of(Step::Disable(u)) == Some(("disable"@, Some(unit_name(u)))),
        command_of(Step::Reload) == Some(("daemon-reload"@, None::<Seq<char>>)),
        command_of(Step::WriteUnit) is None,
        command_of(Step::WriteAutostart) is None,
        command_of(Step::RemoveAutostart) is None,
        command_of(Step::RemoveUnit(u)) is None,
        unit_name(Unit::Current) == "equinox-supervisor.service"@,
        unit_name(Unit::Legacy) == "equinox-daemon.service"@,
{
}

/// The supervisor is looked for beside the program, then in the search path; the
/// first place that has it is started. In a Flatpak its runner starts it.
pub proof fn lemma_supervisor_command(
    app: Seq<char>,
    places: Seq<Seq<char>>,
    present: Seq<bool>,
    k: int,
)
    requires
        places.len() == present.len(),
        0 <= k <= places.len(),
        forall|i: int| 0 <= i < k ==> !#[trigger] present[i],
    ensures
        app.len() > 0 ==> exec_command(Some(app), places, present)
            == "flatpak run --command=equinox-supervisor "@ + app,
        k < places.len() && present[k] ==> exec_command(None, places, present) == places[k]
            && exec_command(Some(Seq::empty()), places, present) == places[k],
        k == places.len() ==> exec_command(None, places, present) == "equinox-supervisor"@,
{
    lemma_first_present(places, present, k);
}

proof fn lemma_first_present(places: Seq<Seq<char>>, present: Seq<bool>, k: int)
    requires
        places.len() == present.len(),
        0 <= k <= places.len(),
        forall|i: int| 0 <= i < k ==> !#[trigger] present[i],
    ensures
        k < places.len() && present[k] ==> first_present(places, present) == Some(places[k]),
        k == places.len() ==> first_present(places, present) is None,
    decreases places.len(),
{
    if k > 0 {
        assert(!present[0]);
        let rest = present.skip(1);
        assert forall|i: int| 0 <= i < k - 1 implies !#[trigger] rest[i] by {
            assert(rest[i] == present[i + 1]);
        }
        lemma_first_present(places.skip(1), rest, k - 1);
    }
}

/// The places where the supervisor is looked for.
pub proof fn lemma_supervisor_places(
    dir: Seq<char>,
    program: Seq<char>,
    dirs: Seq<Seq<char>>,
    i: int,
)
    requires
        dir.len() > 0,
        dir.last() != '/' && dir.last() != '.',
        program.len() > 0,
        free_of(program, '/'),
        program.last() != '.',
        0 <= i < dirs.len(),
    ensures
        ({
            let places = supervisor_places(Some(dir + seq!['/'] + program), dirs);
            &&& places.len() == dirs.len() + 1
            &&& places[0] == dir + "/equinox-supervisor"@
            &&& places[i + 1] == joined(dirs[i], "equinox-supervisor"@)
        }),
        supervisor_places(None, dirs)[i] == joined(dirs[i], "equinox-supervisor"@),
{
    let exe = dir + seq!['/'] + program;
    assert(exe.last() == program.last());
    assert(program[program.len() - 1] != '/');
    assert(crate::path::settled(exe) == exe);
    crate::storage_laws::lemma_after_last_is(dir, program, '/');
    let head = exe.take((dir.len() + 1) as int);
    assert(head =~= dir + seq!['/']);
    assert(head.drop_last() =~= dir);
    reveal_with_fuel(crate::path::settled, 2);
    assert(crate::path::settled(head) == dir);
    assert(exe != seq!['/']) by {
        assert(exe.len() > 1);
    }
    assert(crate::path::parent_of(exe) == Some(dir));
    reveal_strlit("equinox-supervisor");
    reveal_strlit("/equinox-supervisor");
    assert(joined(dir, "equinox-supervisor"@) =~= dir + "/equinox-supervisor"@);
}

/// An entry that names another command is stale, and so is one that is hidden.
pub proof fn lemma_stale_entries(raw: Seq<char>, desired: Seq<char>, k: int)
    ensures
        (forall|i: int|
            0 <= i < split(raw, '\n').len() ==> !starts_with(
                trim(#[trigger] split(raw, '\n')[i]),
                "Exec="@,
            )) ==> is_stale(raw, desired),
        0 <= k < split(raw, '\n').len() && split(raw, '\n')[k] == "Hidden=true"@ ==> is_stale(
            raw,
            desired,
        ),
{
    if 0 <= k < split(raw, '\n').len() && split(raw, '\n')[k] == "Hidden=true"@ {
        let line = split(raw, '\n')[k];
        reveal_strlit("Hidden=true");
        reveal_strlit("hidden=true");
        let e = Seq::<char>::empty();
        lemma_trim_takes_ends(e, line, e);
        assert(e + line + e =~= line);
        assert(lower(line) =~= "hidden=true"@);
        assert(crate::autostart::hides(split(raw, '\n')[k]));
    }
    if forall|i: int|
        0 <= i < split(raw, '\n').len() ==> !starts_with(
            trim(#[trigger] split(raw, '\n')[i]),
            "Exec="@,
        ) {
        let all = split(raw, '\n');
        assert forall|i: int| 0 <= i < all.len() implies !crate::autostart::runs(
            #[trigger] all[i],
            desired,
        ) by {
            assert(!starts_with(trim(split(raw, '\n')[i]), "Exec="@));
        }
    }
}

/// A failure to start is told with the first lines of the status, six at most.
pub proof fn lemma_start_failure(a: Seq<char>)
    requires
        free_of(a, '\n'),
        a.len() > 0,
    ensures
        start_failure_text(a) == "systemd service failed to start:\n"@ + a,
{
    lemma_unsplit(a, '\n');
    let pieces = split(a, '\n');
    assert(lines(a) =~= seq![a]) by {
        assert(pieces.drop_last() =~= Seq::<Seq<char>>::empty());
    }
    assert(lines(a).take(1) =~= seq![a]);
}

/// The arguments of the helper name the source, the index and the day, in that
/// order; the first that cannot be read is told.
pub proof fn lemma_helper_arguments(
    source: Seq<char>,
    index: Seq<char>,
    day: Seq<char>,
    i: i64,
    d: Date,
)
    ensures
        integer_in(index) == Some(i) && day_in_text(day, "%Y-%m-%d"@) == Some(d) ==> job_in(
            seq![source, index, day],
        ) == Ok::<(Seq<char>, i64, Date), BadArguments>((source, i, d)),
        job_in(Seq::empty()) == Err::<(Seq<char>, i64, Date), BadArguments>(
            BadArguments::NoSource,
        ),
        job_in(seq![source]) == Err::<(Seq<char>, i64, Date), BadArguments>(BadArguments::BadIndex),
        integer_in(index) is None ==> job_in(seq![source, index, day]) == Err::<
            (Seq<char>, i64, Date),
            BadArguments,
        >(BadArguments::BadIndex),
        integer_in(index) == Some(i) ==> job_in(seq![source, index]) == Err::<
            (Seq<char>, i64, Date),
            BadArguments,
        >(BadArguments::BadDate),
        integer_in(index) == Some(i) && day_in_text(day, "%Y-%m-%d"@) is None ==> job_in(
            seq![source, index, day],
        ) == Err::<(Seq<char>, i64, Date), BadArguments>(BadArguments::BadDate),
{
}

proof fn lemma_same_number(s: Seq<char>)
    requires
        digits_only(s),
    ensures
        number_of(s) == number_in(s),
    decreases s.len(),
{
    if s.len() > 0 {
        assert(digits_only(s.drop_last()));
        lemma_same_number(s.drop_last());
        assert('0' <= s[s.len() - 1] <= '9');
    }
}

/// An integer is read from its decimal notation, with its sign.
pub proof fn lemma_integers_read_back(n: int)
    requires
        i64::MIN <= n <= i64::MAX,
    ensures
        integer_in(decimal_int(n)) == Some(n as i64),
{
    let m = if n < 0 {
        -n
    } else {
        n
    };
    lemma_decimal_reads_back(m as nat);
    lemma_same_number(decimal(m as nat));
    let digits = decimal(m as nat);
    let s = decimal_int(n);
    if n < 0 {
        assert(s.skip(1) =~= digits);
        assert(s[0] == '-');
    } else {
        assert('0' <= s[0] <= '9');
    }
    assert(only_digits(digits));
}

/// A text that is no row of digits is no integer.
pub proof fn lemma_no_integers(s: Seq<char>, k: int)
    requires
        s.len() == 0 || (1 <= k < s.len() && !('0' <= s[k] <= '9')),
    ensures
        integer_in(s) is None,
{
    if s.len() > 0 {
        assert(s.skip(1)[k - 1] == s[k]);
    }
}

/// The helper is called with the arguments that it reads.
pub proof fn lemma_helper_called(source: Seq<char>, index: i64, d: Date)
    requires
        day_in_text(crate::date::iso(d), "%Y-%m-%d"@) == Some(d),
    ensures
        job_in(arguments_for(source, index, d)) == Ok::<(Seq<char>, i64, Date), BadArguments>(
            (source, index, d),
        ),
{
    lemma_integers_read_back(index as int);
}

/// The message of a helper that failed is what it wrote behind the mark; where
/// it wrote none, its status is told.
pub proof fn lemma_helper_message(message: Seq<char>, code: i32)
    requires
        free_of(message, '\n'),
        message.len() > 0,
        message.last() != '\r',
        message[0] != 'F',
    ensures
        error_in("FETCHERR\t"@ + message + seq!['\n'], Some(code)) == message,
        error_in(Seq::empty(), Some(code)) == "fetch helper exited with status "@ + decimal_int(
            code as int,
        ),
        error_in(Seq::empty(), None) == "fetch helper exited with status "@ + "signal"@,
{
    reveal_strlit("FETCHERR\t");
    let p = "FETCHERR\t"@;
    let line = p + message;
    let s = p + message + seq!['\n'];
    assert(free_of(line, '\n')) by {
        assert forall|i: int| 0 <= i < line.len() implies #[trigger] line[i] != '\n' by {
            if i >= p.len() {
                assert(line[i] == message[i - p.len()]);
            }
        }
    }
    assert(s.drop_last() =~= line);
    lemma_unsplit(line, '\n');
    assert(split(s, '\n') =~= seq![line, Seq::<char>::empty()]);
    let pieces = split(s, '\n');
    assert(pieces.drop_last() =~= seq![line]);
    assert(line.last() == message.last());
    assert(lines(s) =~= seq![line]);
    lemma_parts_of_text(Seq::empty(), p, message);
    assert(line_with(lines(s), p, 0) == 0);
    assert(line.skip(p.len() as int) =~= message);
    if starts_with(message, p) {
        assert(message.subrange(0, p.len() as int)[0] == message[0]);
    }
    reveal_with_fuel(crate::helper::without_prefixes, 2);
    assert(crate::helper::without_prefixes(line, p) == message);
    let e = Seq::<char>::empty();
    lemma_unsplit(e, '\n');
    assert(split(e, '\n').drop_last() =~= Seq::<Seq<char>>::empty());
    assert(lines(e) =~= Seq::<Seq<char>>::empty());
}

/// A stored image that the helper reports is known by its path, its source, and
/// whether it was there.
pub proof fn lemma_reported_image(source: Seq<char>, path: Seq<char>, reused: bool)
    ensures
        reported_image(source, path, reused).path == path,
        reported_image(source, path, reused).meta.source == source,
        reported_image(source, path, reused).reused == reused,
{
}

/// The translations are looked for in the bundle, beside the program, in the
/// user's data, and in the system's.
pub proof fn lemma_catalogue_places(
    appdir: Seq<char>,
    data_home: Seq<char>,
    home: Seq<char>,
)
    ensures
        catalogue_dirs(Some(appdir), None, Some(data_home), Some(home)) == seq![
            appdir + "/usr/share/locale"@,
            data_home + "/locale"@,
            home + "/.local/share/locale"@,
            "/usr/share/locale"@,
        ],
        catalogue_dirs(None, None, None, None) == seq!["/usr/share/locale"@],
{
    assert(catalogue_dirs(Some(appdir), None, Some(data_home), Some(home)) =~= seq![
        appdir + "/usr/share/locale"@,
        data_home + "/locale"@,
        home + "/.local/share/locale"@,
        "/usr/share/locale"@,
    ]);
    assert(catalogue_dirs(None, None, None, None) =~= seq!["/usr/share/locale"@]);
}

} // verus!
