//! Translated messages and the system locale.

use vstd::prelude::*;

use crate::path::{join, joined, parent, parent_of};
use crate::text::{
    concat, free_of, lower, lowered, replace_char, replaced_char, same, split, split_on, texts,
    upper, uppered,
};

verus! {

/// `gettextrs::gettext`: the message in the language of the process. The
/// result depends on the locale and on the catalogues that are installed, so
/// nothing is claimed of it; a message may not hold a NUL character.
#[verifier::external_body]
pub(crate) fn gettext(msgid: &str) -> (r: String)
    requires
        free_of(msgid@, '\0'),
{
    gettextrs::gettext(msgid)
}

/// The system language as `ll-CC`, or `ll` without a region, from the first
/// of the system's language names.
pub open spec fn locale_of(name: Seq<char>) -> Seq<char> {
    let parts = split(replace_char(name, '_', '-'), '-');
    let lang = lower(parts[0]);
    if parts.len() > 1 && parts[1].len() > 0 {
        lang + seq!['-'] + upper(parts[1])
    } else {
        lang
    }
}

/// The system locale (`zh-CN`, or `en` without a region). `name` is the first
/// of the system's language names; without one the language is English.
pub fn system_locale(name: Option<&str>) -> (r: String)
    ensures
        r@ == locale_of(match name {
            Some(n) => n@,
            None => "en"@,
        }),
{
    let raw = match name {
        Some(n) => n,
        None => "en",
    };
    let parts = split_on(replaced_char(raw, '_', '-').as_str(), '-');
    assert(texts(parts@)[0] == parts@[0]@);
    let mut lang = lowered(parts[0].as_str());
    if parts.len() > 1 {
        assert(texts(parts@)[1] == parts@[1]@);
        if !parts[1].as_str().is_empty() {
            lang.push('-');
            lang.append(uppered(parts[1].as_str()).as_str());
            assert(lang@ =~= locale_of(raw@));
        }
    }
    lang
}

/// A language that belongs to mainland China.
pub open spec fn is_chinese(lang: Seq<char>) -> bool {
    lang == "zh"@ || lang == "yue"@ || lang == "lzh"@ || lang == "bo"@
}

pub open spec fn fallback_of(locale: Seq<char>) -> (Seq<char>, Seq<char>) {
    if is_chinese(split(locale, '-')[0]) {
        ("zh-CN"@, "CN"@)
    } else {
        ("en-US"@, "US"@)
    }
}

/// The locale and country to use where the system locale names no region:
/// mainland China for Chinese variants and Tibetan, else US English.
pub fn locale_fallback(locale: &str) -> (r: (&'static str, &'static str))
    ensures
        (r.0@, r.1@) == fallback_of(locale@),
{
    let parts = split_on(locale, '-');
    assert(texts(parts@)[0] == parts@[0]@);
    let lang = parts[0].as_str();
    if same(lang, "zh") || same(lang, "yue") || same(lang, "lzh") || same(lang, "bo") {
        ("zh-CN", "CN")
    } else {
        ("en-US", "US")
    }
}

pub open spec fn dir_for(base: Option<Seq<char>>, below: Seq<char>) -> Seq<Seq<char>> {
    match base {
        Some(b) => seq![b + below],
        None => Seq::empty(),
    }
}

pub open spec fn opt_str(o: Option<&str>) -> Option<Seq<char>> {
    match o {
        Some(s) => Some(s@),
        None => None,
    }
}

/// Where the message catalogues may be, best first: the AppImage, the build
/// tree of the running program, the user's data directory, the home directory
/// and the system.
pub open spec fn catalogue_dirs(
    appdir: Option<Seq<char>>,
    program: Option<Seq<char>>,
    data_home: Option<Seq<char>>,
    home: Option<Seq<char>>,
) -> Seq<Seq<char>> {
    let built = match program {
        Some(exe) => match parent_of(exe) {
            Some(dir) => seq![joined(dir, "../i18n"@)],
            None => Seq::empty(),
        },
        None => Seq::empty(),
    };
    dir_for(appdir, "/usr/share/locale"@) + built + dir_for(data_home, "/locale"@) + dir_for(
        home,
        "/.local/share/locale"@,
    ) + seq!["/usr/share/locale"@]
}

fn push_dir(dirs: &mut Vec<String>, base: Option<&str>, below: &str)
    ensures
        texts(final(dirs)@) == texts(old(dirs)@) + dir_for(opt_str(base), below@),
{
    if let Some(b) = base {
        dirs.push(concat(b, below));
    }
    assert(texts(dirs@) =~= texts(old(dirs)@) + dir_for(opt_str(base), below@));
}

/// Where the message catalogues may be, best first.
pub fn locale_candidates(
    appdir: Option<&str>,
    program: Option<&str>,
    data_home: Option<&str>,
    home: Option<&str>,
) -> (r: Vec<String>)
    ensures
        texts(r@) == catalogue_dirs(
            opt_str(appdir),
            opt_str(program),
            opt_str(data_home),
            opt_str(home),
        ),
{
    let mut dirs: Vec<String> = Vec::new();
    push_dir(&mut dirs, appdir, "/usr/share/locale");
    let ghost before = texts(dirs@);
    if let Some(exe) = program {
        if let Some(dir) = parent(exe) {
            dirs.push(join(dir.as_str(), "../i18n"));
            assert(texts(dirs@) =~= before.push(joined(dir@, "../i18n"@)));
        }
    }
    push_dir(&mut dirs, data_home, "/locale");
    push_dir(&mut dirs, home, "/.local/share/locale");
    let ghost most = texts(dirs@);
    dirs.push("/usr/share/locale".to_owned());
    assert(texts(dirs@) =~= most.push("/usr/share/locale"@));
    assert(texts(dirs@) =~= catalogue_dirs(
        opt_str(appdir),
        opt_str(program),
        opt_str(data_home),
        opt_str(home),
    ));
    dirs
}

} // verus!
