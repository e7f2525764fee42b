//! The fetch helper: a short-lived process that fetches and stores the image
//! of one day, so that the service itself never loads the network stack.
//!
//! The service passes the source, the number of days ago and the day as
//! arguments; the helper answers with a line on its standard output, or with
//! an error line on its standard error.

use vstd::prelude::*;

use crate::date::{day_in_text, iso, parse_day, valid, Date};
use crate::path::{with_extension, with_extension_of};
use crate::source::TextMap;
use crate::storage::{ImageMeta, ImageView, MetaView, StoredImage};
use crate::text::{
    concat, decimal_int, decimal_of_int, free_of, has_prefix, integer_in, lemma_integer_reads_back,
    lines, lines_of, parse_integer, same, split, split_on, starts_with, strip_prefix, texts,
};

verus! {

/// The argument that starts the helper.
pub const FETCH_ONCE: &'static str = "--fetch-once";

/// What the helper is asked for.
#[derive(Debug)]
pub struct FetchJob {
    pub source: String,
    /// Days ago.
    pub index: i64,
    pub date: Date,
}

/// Why the helper's arguments cannot be used.
#[derive(Clone, Copy, Debug, PartialEq, Eq, Structural)]
pub enum BadArguments {
    NoSource,
    BadIndex,
    BadDate,
}

pub open spec fn job_in(args: Seq<Seq<char>>) -> Result<(Seq<char>, i64, Date), BadArguments> {
    if args.len() < 1 {
        Err(BadArguments::NoSource)
    } else if args.len() < 2 || integer_in(args[1]) is None {
        Err(BadArguments::BadIndex)
    } else if args.len() < 3 || day_in_text(args[2], "%Y-%m-%d"@) is None {
        Err(BadArguments::BadDate)
    } else {
        Ok((args[0], integer_in(args[1])->0, day_in_text(args[2], "%Y-%m-%d"@)->0))
    }
}

/// What the helper is asked for, by the arguments that follow
/// [`FETCH_ONCE`]. The arguments that [`helper_arguments`] makes are read as
/// they are meant.
pub fn parse_arguments(args: &Vec<String>) -> (r: Result<FetchJob, BadArguments>)
    ensures
        match r {
            Ok(job) => job_in(texts(args@)) == Ok::<(Seq<char>, i64, Date), BadArguments>(
                (job.source@, job.index, job.date),
            ) && valid(job.date),
            Err(e) => job_in(texts(args@)) == Err::<(Seq<char>, i64, Date), BadArguments>(e),
        },
        forall|source: Seq<char>, index: i64, date: Date|
            texts(args@) == #[trigger] arguments_for(source, index, date) && valid(date) && 0
                <= date.year <= 9999 ==> job_in(texts(args@)) == Ok::<
                (Seq<char>, i64, Date),
                BadArguments,
            >((source, index, date)),
{
    let ghost all = texts(args@);
    proof {
        assert forall|source: Seq<char>, index: i64, date: Date|
            all == #[trigger] arguments_for(source, index, date) implies all.len() == 3
            && integer_in(all[1]) == Some(index) && all[2] == iso(date) by {
            lemma_integer_reads_back(index);
        }
    }
    if args.len() < 1 {
        return Err(BadArguments::NoSource);
    }
    assert(all[0] == args@[0]@);
    if args.len() < 2 {
        return Err(BadArguments::BadIndex);
    }
    assert(all[1] == args@[1]@);
    let index: i64 = match parse_integer(args[1].as_str()) {
        Some(n) => n,
        None => {
            return Err(BadArguments::BadIndex);
        },
    };
    if args.len() < 3 {
        return Err(BadArguments::BadDate);
    }
    assert(all[2] == args@[2]@);
    match parse_day(args[2].as_str(), "%Y-%m-%d") {
        Some(date) => Ok(FetchJob { source: args[0].clone(), index, date }),
        None => Err(BadArguments::BadDate),
    }
}

pub open spec fn bad_arguments_text(e: BadArguments) -> Seq<char> {
    match e {
        BadArguments::NoSource =>
            "usage: equinox-daemon --fetch-once <source> <index> <yyyy-mm-dd>"@,
        BadArguments::BadIndex => "fetch-once: invalid index"@,
        BadArguments::BadDate => "fetch-once: invalid date (expected yyyy-mm-dd)"@,
    }
}

impl BadArguments {
    pub fn message(self) -> (r: &'static str)
        ensures
            r@ == bad_arguments_text(self),
    {
        match self {
            BadArguments::NoSource =>
                "usage: equinox-daemon --fetch-once <source> <index> <yyyy-mm-dd>",
            BadArguments::BadIndex => "fetch-once: invalid index",
            BadArguments::BadDate => "fetch-once: invalid date (expected yyyy-mm-dd)",
        }
    }
}

pub open spec fn arguments_for(source: Seq<char>, index: i64, date: Date) -> Seq<Seq<char>> {
    seq![source, decimal_int(index as int), iso(date)]
}

/// The arguments that ask for the image of a day.
pub fn helper_arguments(source: &str, index: i64, date: Date) -> (r: Vec<String>)
    ensures
        texts(r@) == arguments_for(source@, index, date),
{
    let mut r: Vec<String> = Vec::new();
    r.push(source.to_owned());
    r.push(decimal_of_int(index));
    r.push(date.to_iso());
    assert(texts(r@) =~= arguments_for(source@, index, date));
    r
}

/// The line that reports a stored image.
pub open spec fn stored_text(path: Seq<char>, reused: bool) -> Seq<char> {
    "STORED\t"@ + path + (if reused {
        "\t1"@
    } else {
        "\t0"@
    })
}

/// The line that reports a stored image.
pub fn stored_line(path: &str, reused: bool) -> (r: String)
    ensures
        r@ == stored_text(path@, reused),
{
    let mut s = concat("STORED\t", path);
    s.append(
        if reused {
            "\t1"
        } else {
            "\t0"
        },
    );
    s
}

/// The line that reports an error.
pub fn error_line(message: &str) -> (r: String)
    ensures
        r@ == "FETCHERR\t"@ + message@,
{
    concat("FETCHERR\t", message)
}

/// The first line that begins with `prefix`.
pub open spec fn line_with(all: Seq<Seq<char>>, prefix: Seq<char>, from: int) -> int
    decreases all.len() - from,
{
    if from >= all.len() {
        all.len() as int
    } else if starts_with(all[from], prefix) {
        from
    } else {
        line_with(all, prefix, from + 1)
    }
}

fn find_line(all: &Vec<String>, prefix: &str) -> (r: Option<usize>)
    ensures
        match r {
            Some(i) => i < all.len() && i == line_with(texts(all@), prefix@, 0) && starts_with(
                texts(all@)[i as int],
                prefix@,
            ),
            None => line_with(texts(all@), prefix@, 0) == all.len(),
        },
{
    let mut i: usize = 0;
    while i < all.len()
        invariant
            i <= all.len(),
            line_with(texts(all@), prefix@, 0) == line_with(texts(all@), prefix@, i as int),
        decreases all.len() - i,
    {
        assert(texts(all@)[i as int] == all@[i as int]@);
        if has_prefix(all[i].as_str(), prefix) {
            return Some(i);
        }
        i += 1;
    }
    None
}

/// The path and the reuse flag in a report; fields are separated by tabs and
/// anything behind the third is no part of them.
pub open spec fn report_in(stdout: Seq<char>) -> Option<(Seq<char>, bool)> {
    let all = lines(stdout);
    let i = line_with(all, "STORED\t"@, 0);
    if i < all.len() {
        let fields = split(all[i], '\t');
        let path = if fields.len() > 1 {
            fields[1]
        } else {
            Seq::empty()
        };
        if path.len() > 0 {
            Some((path, fields.len() > 2 && fields[2] == "1"@))
        } else {
            None
        }
    } else {
        None
    }
}

/// `s` without any `p` in front.
pub open spec fn without_prefixes(s: Seq<char>, p: Seq<char>) -> Seq<char>
    decreases s.len(),
{
    if p.len() > 0 && starts_with(s, p) {
        without_prefixes(s.skip(p.len() as int), p)
    } else {
        s
    }
}

/// The error message of a helper that stored nothing.
pub open spec fn error_in(stderr: Seq<char>, status: Option<i32>) -> Seq<char> {
    let all = lines(stderr);
    let i = line_with(all, "FETCHERR\t"@, 0);
    let message = if i < all.len() {
        without_prefixes(all[i], "FETCHERR\t"@)
    } else {
        Seq::empty()
    };
    if message.len() > 0 {
        message
    } else {
        "fetch helper exited with status "@ + (match status {
            Some(code) => decimal_int(code as int),
            None => "signal"@,
        })
    }
}

fn strip_prefixes(s: &str, p: &str) -> (r: String)
    requires
        p@.len() > 0,
    ensures
        r@ == without_prefixes(s@, p@),
{
    let mut rest = s.to_owned();
    loop
        invariant
            p@.len() > 0,
            without_prefixes(rest@, p@) == without_prefixes(s@, p@),
        decreases rest@.len(),
    {
        match strip_prefix(rest.as_str(), p) {
            Some(t) => {
                rest = t;
            },
            None => {
                return rest;
            },
        }
    }
}

/// The image that a helper reports, as far as the report says.
pub open spec fn reported_image(source: Seq<char>, path: Seq<char>, reused: bool) -> ImageView {
    ImageView {
        path,
        json_path: with_extension_of(path, "json"@),
        meta: MetaView {
            source,
            title: Seq::empty(),
            copyright: None,
            url: Seq::empty(),
            downloaded_at: 0,
            hash: Seq::empty(),
            date: Seq::empty(),
            width: 0,
            height: 0,
            extra: Seq::empty(),
        },
        reused,
    }
}

fn empty() -> (r: String)
    ensures
        r@ == Seq::<char>::empty(),
{
    let r = String::new();
    assert(r@ =~= Seq::<char>::empty());
    r
}

/// The image that a helper stored, or its error message. `status` is its exit
/// code, if a signal did not end it.
pub fn read_report(source: &str, stdout: &str, stderr: &str, status: Option<i32>) -> (r: Result<
    StoredImage,
    String,
>)
    ensures
        match r {
            Ok(image) => report_in(stdout@) == Some((image@.path, image@.reused)) && image@
                == reported_image(source@, image@.path, image@.reused),
            Err(message) => report_in(stdout@) is None && message@ == error_in(stderr@, status),
        },
{
    let out = lines_of(stdout);
    if let Some(i) = find_line(&out, "STORED\t") {
        assert(texts(out@)[i as int] == out@[i as int]@);
        let fields = split_on(out[i].as_str(), '\t');
        let ghost views = texts(fields@);
        assert(views.len() == fields.len());
        if fields.len() > 1 {
            assert(views[1] == fields@[1]@);
            let path = fields[1].clone();
            if !path.as_str().is_empty() {
                let reused = if fields.len() > 2 {
                    assert(views[2] == fields@[2]@);
                    same(fields[2].as_str(), "1")
                } else {
                    false
                };
                let json_path = with_extension(path.as_str(), "json");
                let meta = ImageMeta {
                    source: source.to_owned(),
                    title: empty(),
                    copyright: None,
                    url: empty(),
                    downloaded_at: 0,
                    hash: empty(),
                    date: empty(),
                    width: 0,
                    height: 0,
                    extra: TextMap::new(),
                };
                return Ok(StoredImage { path, json_path, meta, reused });
            }
        }
    }
    assert(report_in(stdout@) is None) by {
        assert(texts(out@).len() == out.len());
    }
    let err = lines_of(stderr);
    assert(texts(err@).len() == err.len());
    if let Some(i) = find_line(&err, "FETCHERR\t") {
        assert(texts(err@)[i as int] == err@[i as int]@);
        proof {
            reveal_strlit("FETCHERR\t");
        }
        let message = strip_prefixes(err[i].as_str(), "FETCHERR\t");
        if !message.as_str().is_empty() {
            return Err(message);
        }
    }
    let mut message = "fetch helper exited with status ".to_owned();
    match status {
        Some(code) => {
            message.append(decimal_of_int(code as i64).as_str());
        },
        None => {
            message.append("signal");
        },
    }
    Err(message)
}

/// What the helper reports is what the service reads: the path and whether the
/// image was there already.
pub proof fn lemma_report_reads_back(path: Seq<char>, reused: bool)
    requires
        path.len() > 0,
        free_of(path, '\n'),
        free_of(path, '\t'),
    ensures
        report_in(stored_text(path, reused).push('\n')) == Some((path, reused)),
{
    reveal_strlit("STORED\t");
    reveal_strlit("\t1");
    reveal_strlit("\t0");
    reveal_strlit("1");
    let head = "STORED"@;
    reveal_strlit("STORED");
    let flag = if reused {
        seq!['1']
    } else {
        seq!['0']
    };
    let line = stored_text(path, reused);
    assert(line =~= head + seq!['\t'] + path + seq!['\t'] + flag);
    assert(free_of(line, '\n')) by {
        assert forall|i: int| 0 <= i < line.len() implies #[trigger] line[i] != '\n' by {
            if 7 <= i < 7 + path.len() {
                assert(line[i] == path[i - 7]);
            }
        }
    }
    let one = seq![line];
    crate::text::lemma_split_render(one);
    crate::text::lemma_render_one(line);
    let text = line.push('\n');
    assert(split(text, '\n') == one.push(Seq::empty()));
    let all = lines(text);
    assert(line.last() != '\r');
    assert(all =~= one) by {
        assert(split(text, '\n').drop_last() =~= one);
    }
    assert(line.subrange(0, 7) =~= "STORED\t"@);
    assert(starts_with(all[0], "STORED\t"@));
    assert(line_with(all, "STORED\t"@, 0) == 0);
    lemma_three_fields(head, path, flag);
    let fields = split(line, '\t');
    assert(fields[1] == path);
    assert(fields[2] == flag);
    assert(reused == (flag == "1"@)) by {
        if reused {
            assert(flag =~= "1"@);
        } else {
            assert(flag[0] != "1"@[0]);
        }
    }
}

proof fn lemma_three_fields(a: Seq<char>, b: Seq<char>, c: Seq<char>)
    requires
        free_of(a, '\t'),
        free_of(b, '\t'),
        free_of(c, '\t'),
    ensures
        split(a + seq!['\t'] + b + seq!['\t'] + c, '\t') == seq![a, b, c],
{
    let none = Seq::<char>::empty();
    crate::text::lemma_split_append(none, a, '\t');
    assert(none + a =~= a);
    assert(split(none, '\t') =~= seq![none]);
    assert(split(a, '\t') =~= seq![a]);
    let p = a + seq!['\t'];
    assert(p.drop_last() =~= a);
    assert(split(p, '\t') =~= seq![a, none]);
    crate::text::lemma_split_append(p, b, '\t');
    assert(none + b =~= b);
    assert(split(p + b, '\t') =~= seq![a, b]);
    let q = p + b + seq!['\t'];
    assert(q.drop_last() =~= p + b);
    assert(split(q, '\t') =~= seq![a, b, none]);
    crate::text::lemma_split_append(q, c, '\t');
    assert(none + c =~= c);
    assert(split(q + c, '\t') =~= seq![a, b, c]);
}

} // verus!
