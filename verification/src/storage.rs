//! Stored images: `{day or time}_{content hash}.{ext}` with a description file
//! of the same name beside each.
//!
//! The content hash in the file name keeps one copy per image: content that is
//! there already is reused.

use sha2::{Digest, Sha256};
use vstd::prelude::*;

use crate::date::{day_of_timestamp, day_with_number, opt_iso, utc_day_number, Date};
use crate::http::{
    ensure_ok, extension_for, image_extension, image_file_extension, is_image_content_type,
    is_image_extension, may_be_image, status_text, HttpResponse,
};
use crate::i18n::opt_str;
use crate::path::{
    extension, extension_of, file_name, file_name_of, file_stem, file_stem_of, join, joined, parent, parent_of,
    with_extension, with_extension_of,
};
use crate::source::{text_at, FetchResult, FetchView, TextMap};
use crate::text::{
    concat, contains, decimal, decimal_of, ends_with, has_prefix, has_suffix, has_text,
    lemma_decimal_injective, lemma_decimal_len, lemma_precedes_strict, lemma_precedes_trans,
    opt_text, precedes, removed_char, same, starts_with, without_char,
};

verus! {

/// Hexadecimal digits of the content hash in a file name.
pub const HASH_LEN: usize = 12;

/// Longest edge of a thumbnail, in pixels.
pub const THUMB_MAX: i32 = 512;

/// JPEG quality of a thumbnail.
pub const THUMB_QUALITY: &'static str = "82";

/// The description of an image.
#[derive(Debug)]
pub struct ImageMeta {
    pub source: String,
    pub title: String,
    pub copyright: Option<String>,
    pub url: String,
    /// Unix timestamp.
    pub downloaded_at: i64,
    /// Content hash; empty in old data.
    pub hash: String,
    /// The image's own day as `YYYY-MM-DD`; empty where it is not known.
    pub date: String,
    /// Size in pixels; 0 in old data.
    pub width: i32,
    pub height: i32,
    pub extra: TextMap,
}

pub struct MetaView {
    pub source: Seq<char>,
    pub title: Seq<char>,
    pub copyright: Option<Seq<char>>,
    pub url: Seq<char>,
    pub downloaded_at: i64,
    pub hash: Seq<char>,
    pub date: Seq<char>,
    pub width: i32,
    pub height: i32,
    pub extra: Seq<(Seq<char>, Seq<char>)>,
}

impl View for ImageMeta {
    type V = MetaView;

    open spec fn view(&self) -> MetaView {
        MetaView {
            source: self.source@,
            title: self.title@,
            copyright: opt_text(self.copyright),
            url: self.url@,
            downloaded_at: self.downloaded_at,
            hash: self.hash@,
            date: self.date@,
            width: self.width,
            height: self.height,
            extra: self.extra@,
        }
    }
}

/// A stored image.
#[derive(Debug)]
pub struct StoredImage {
    pub path: String,
    pub json_path: String,
    pub meta: ImageMeta,
    /// The image was there already; no file was added.
    pub reused: bool,
}

pub struct ImageView {
    pub path: Seq<char>,
    pub json_path: Seq<char>,
    pub meta: MetaView,
    pub reused: bool,
}

impl View for StoredImage {
    type V = ImageView;

    open spec fn view(&self) -> ImageView {
        ImageView {
            path: self.path@,
            json_path: self.json_path@,
            meta: self.meta@,
            reused: self.reused,
        }
    }
}

/// A file in the directory of a source. `meta` is the description that the
/// file holds, where it is a description file that can be read.
#[derive(Debug)]
pub struct DirFile {
    pub name: String,
    pub meta: Option<ImageMeta>,
}

pub struct FileView {
    pub name: Seq<char>,
    pub meta: Option<MetaView>,
}

impl View for DirFile {
    type V = FileView;

    open spec fn view(&self) -> FileView {
        FileView {
            name: self.name@,
            meta: match self.meta {
                Some(m) => Some(m@),
                None => None,
            },
        }
    }
}

/// The directory of a source, as it was listed.
#[derive(Debug)]
pub struct Folder {
    pub dir: String,
    pub files: Vec<DirFile>,
}

pub open spec fn file_views(files: Seq<DirFile>) -> Seq<FileView> {
    Seq::new(files.len(), |i: int| files[i]@)
}

impl View for Folder {
    type V = Seq<FileView>;

    open spec fn view(&self) -> Seq<FileView> {
        file_views(self.files@)
    }
}

/// SHA-256 of a byte string, as `sha2::Sha256::digest` computes it.
pub uninterp spec fn sha256(body: Seq<u8>) -> Seq<u8>;

/// `sha2::Sha256::digest`: claims that the digest is a function of the bytes,
/// 32 bytes long.
#[verifier::external_body]
fn digest(body: &[u8]) -> (r: Vec<u8>)
    ensures
        r@ == sha256(body@),
        r.len() == 32,
{
    Sha256::digest(body).to_vec()
}

/// A lower-case hexadecimal digit.
pub open spec fn hex_char(n: int) -> char {
    if n < 10 {
        (n + 48) as u8 as char
    } else {
        (n + 87) as u8 as char
    }
}

pub open spec fn hex_text(bytes: Seq<u8>) -> Seq<char>
    decreases bytes.len(),
{
    if bytes.len() == 0 {
        Seq::empty()
    } else {
        hex_text(bytes.drop_last()) + seq![
            hex_char(bytes.last() as int / 16),
            hex_char(bytes.last() as int % 16),
        ]
    }
}

/// The content hash: the first hexadecimal digits of the SHA-256.
pub open spec fn hash_of(body: Seq<u8>) -> Seq<char> {
    hex_text(sha256(body).take(HASH_LEN as int / 2))
}

fn hex(n: u8) -> (r: char)
    requires
        n < 16,
    ensures
        r == hex_char(n as int),
{
    if n < 10 {
        (n + 48) as char
    } else {
        (n + 87) as char
    }
}

/// The first `count` bytes in hexadecimal digits.
pub fn hex_of(bytes: &Vec<u8>, count: usize) -> (r: String)
    requires
        count <= bytes.len(),
    ensures
        r@ == hex_text(bytes@.take(count as int)),
{
    let mut out = String::new();
    let mut i: usize = 0;
    assert(out@ =~= hex_text(bytes@.take(0)));
    while i < count
        invariant
            i <= count <= bytes.len(),
            out@ == hex_text(bytes@.take(i as int)),
        decreases count - i,
    {
        let b = bytes[i];
        let ghost before = out@;
        assert(bytes@.take(i + 1).drop_last() =~= bytes@.take(i as int));
        out.push(hex(b / 16));
        out.push(hex(b % 16));
        assert(out@ =~= before + seq![hex_char(b as int / 16), hex_char(b as int % 16)]);
        i += 1;
    }
    out
}

/// The content hash that names a file.
pub fn content_hash(body: &[u8]) -> (r: String)
    ensures
        r@ == hash_of(body@),
        r@.len() == HASH_LEN,
{
    let d = digest(body);
    proof {
        lemma_hex_text_len(d@.take(HASH_LEN as int / 2));
    }
    hex_of(&d, HASH_LEN / 2)
}

proof fn lemma_hex_text_len(bytes: Seq<u8>)
    ensures
        hex_text(bytes).len() == 2 * bytes.len(),
    decreases bytes.len(),
{
    if bytes.len() > 0 {
        lemma_hex_text_len(bytes.drop_last());
    }
}

impl ImageMeta {
    pub fn copy(&self) -> (r: ImageMeta)
        ensures
            r@ == self@,
    {
        ImageMeta {
            source: self.source.clone(),
            title: self.title.clone(),
            copyright: self.copyright.clone(),
            url: self.url.clone(),
            downloaded_at: self.downloaded_at,
            hash: self.hash.clone(),
            date: self.date.clone(),
            width: self.width,
            height: self.height,
            extra: self.extra.copy(),
        }
    }
}

/// The first file called `name` at or behind `from`, or their number.
pub open spec fn file_at(files: Seq<FileView>, name: Seq<char>, from: int) -> int
    decreases files.len() - from,
{
    if from >= files.len() {
        files.len() as int
    } else if files[from].name == name {
        from
    } else {
        file_at(files, name, from + 1)
    }
}

pub open spec fn has_file(files: Seq<FileView>, name: Seq<char>) -> bool {
    exists|i: int| 0 <= i < files.len() && (#[trigger] files[i]).name == name
}

/// The description file of an image.
pub open spec fn sidecar(name: Seq<char>) -> Seq<char> {
    with_extension_of(name, "json"@)
}

/// An image whose name carries a content hash.
pub open spec fn carries_hash(name: Seq<char>, hash: Seq<char>) -> bool {
    contains(name, "_"@ + hash + "."@) && !ends_with(name, ".json"@)
}

/// The first file that carries a hash at or behind `from`, or their number.
pub open spec fn hash_at(files: Seq<FileView>, hash: Seq<char>, from: int) -> int
    decreases files.len() - from,
{
    if from >= files.len() {
        files.len() as int
    } else if carries_hash(files[from].name, hash) {
        from
    } else {
        hash_at(files, hash, from + 1)
    }
}

/// A description file of an image with a source identity.
pub open spec fn describes(f: FileView, id: Seq<char>) -> bool {
    &&& extension_of(f.name) == Some("json"@)
    &&& f.meta is Some
    &&& text_at(f.meta->0.extra, "dedup-id"@) == Some(id)
}

pub open spec fn description_at(files: Seq<FileView>, id: Seq<char>, from: int) -> int
    decreases files.len() - from,
{
    if from >= files.len() {
        files.len() as int
    } else if describes(files[from], id) {
        from
    } else {
        description_at(files, id, from + 1)
    }
}

/// The image that a description file belongs to.
pub open spec fn belongs_to(name: Seq<char>, json: Seq<char>) -> bool {
    &&& name != json
    &&& sidecar(name) == json
    &&& file_stem_of(name) == file_stem_of(with_extension_of(json, ""@))
}

pub open spec fn image_at(files: Seq<FileView>, json: Seq<char>, from: int) -> int
    decreases files.len() - from,
{
    if from >= files.len() {
        files.len() as int
    } else if belongs_to(files[from].name, json) {
        from
    } else {
        image_at(files, json, from + 1)
    }
}

/// The image with a source identity, or the number of files.
pub open spec fn identity_at(files: Seq<FileView>, id: Seq<char>) -> int {
    let d = description_at(files, id, 0);
    if d < files.len() {
        image_at(files, files[d].name, 0)
    } else {
        files.len() as int
    }
}

/// An identity that is not empty.
pub open spec fn identity_in(extra: Seq<(Seq<char>, Seq<char>)>) -> Option<Seq<char>> {
    crate::json::filled(text_at(extra, "dedup-id"@))
}

/// The stored image that a new one repeats: by content, else by identity. The
/// number of files where it repeats none.
pub open spec fn repeated_at(
    files: Seq<FileView>,
    hash: Seq<char>,
    extra: Seq<(Seq<char>, Seq<char>)>,
) -> int {
    let h = hash_at(files, hash, 0);
    if h < files.len() {
        h
    } else {
        match identity_in(extra) {
            Some(id) => identity_at(files, id),
            None => files.len() as int,
        }
    }
}

/// The prefix of a file name: the image's day, else the time of the download.
pub open spec fn prefix_for(date: Seq<char>, stamp: Seq<char>) -> Seq<char> {
    if date.len() == 0 {
        stamp
    } else {
        without_char(date, '-')
    }
}

/// The `n`-th name for an image: names after the first carry the number.
pub open spec fn candidate(prefix: Seq<char>, hash: Seq<char>, ext: Seq<char>, n: nat) -> Seq<
    char,
> {
    let numbered = if n == 0 {
        prefix
    } else {
        prefix + "-"@ + decimal(n)
    };
    numbered + "_"@ + hash + "."@ + ext
}

/// `n` is the first number whose name is free.
pub open spec fn first_free(
    files: Seq<FileView>,
    prefix: Seq<char>,
    hash: Seq<char>,
    ext: Seq<char>,
    n: nat,
) -> bool {
    &&& !has_file(files, candidate(prefix, hash, ext, n))
    &&& forall|m: nat| m < n ==> has_file(files, #[trigger] candidate(prefix, hash, ext, m))
}

impl Folder {
    fn position(&self, name: &str) -> (r: usize)
        ensures
            r == file_at(self@, name@, 0),
            r <= self.files.len(),
            (r < self.files.len()) == has_file(self@, name@),
    {
        let mut i: usize = 0;
        while i < self.files.len() && !same(self.files[i].name.as_str(), name)
            invariant
                i <= self.files.len(),
                file_at(self@, name@, 0) == file_at(self@, name@, i as int),
                forall|j: int| 0 <= j < i ==> (#[trigger] self@[j]).name != name@,
            decreases self.files.len() - i,
        {
            i += 1;
        }
        if i < self.files.len() {
            assert(self@[i as int].name == name@);
        }
        i
    }

    /// The first image whose name carries a content hash.
    pub fn find_existing_by_hash(&self, hash: &str) -> (r: Option<usize>)
        ensures
            match r {
                Some(i) => i < self@.len() && i == hash_at(self@, hash@, 0),
                None => hash_at(self@, hash@, 0) == self@.len(),
            },
    {
        let mut part = concat("_", hash);
        part.append(".");
        let mut i: usize = 0;
        while i < self.files.len()
            invariant
                i <= self.files.len(),
                part@ == "_"@ + hash@ + "."@,
                hash_at(self@, hash@, 0) == hash_at(self@, hash@, i as int),
            decreases self.files.len() - i,
        {
            let name = self.files[i].name.as_str();
            if has_text(name, part.as_str()) && !has_suffix(name, ".json") {
                return Some(i);
            }
            i += 1;
        }
        None
    }

    /// The image whose description carries a source identity.
    pub fn find_existing_by_dedup_id(&self, id: &str) -> (r: Option<usize>)
        ensures
            match r {
                Some(i) => i < self@.len() && i == identity_at(self@, id@),
                None => identity_at(self@, id@) == self@.len(),
            },
    {
        let mut d: usize = 0;
        while d < self.files.len() && !self.describes_identity(d, id)
            invariant
                d <= self.files.len(),
                description_at(self@, id@, 0) == description_at(self@, id@, d as int),
            decreases self.files.len() - d,
        {
            d += 1;
        }
        if d == self.files.len() {
            return None;
        }
        let json = self.files[d].name.as_str();
        let stem = file_stem(with_extension(json, "").as_str());
        let mut i: usize = 0;
        while i < self.files.len()
            invariant
                i <= self.files.len(),
                d < self.files.len(),
                json@ == self@[d as int].name,
                opt_text(stem) == file_stem_of(with_extension_of(json@, ""@)),
                identity_at(self@, id@) == image_at(self@, json@, i as int),
            decreases self.files.len() - i,
        {
            let name = self.files[i].name.as_str();
            if !same(name, json) && same(with_extension(name, "json").as_str(), json) && same_opt(
                &file_stem(name),
                &stem,
            ) {
                return Some(i);
            }
            i += 1;
        }
        None
    }

    fn describes_identity(&self, i: usize, id: &str) -> (r: bool)
        requires
            i < self.files.len(),
        ensures
            r == describes(self@[i as int], id@),
    {
        let f = &self.files[i];
        let is_json = match extension(f.name.as_str()) {
            Some(e) => same(e.as_str(), "json"),
            None => false,
        };
        if !is_json {
            return false;
        }
        match &f.meta {
            Some(m) => match m.extra.get("dedup-id") {
                Some(found) => same(found.as_str(), id),
                None => false,
            },
            None => false,
        }
    }
}

fn same_opt(a: &Option<String>, b: &Option<String>) -> (r: bool)
    ensures
        r == (opt_text(*a) == opt_text(*b)),
{
    match (a, b) {
        (Some(x), Some(y)) => same(x.as_str(), y.as_str()),
        (None, None) => true,
        _ => false,
    }
}

fn candidate_name(prefix: &str, hash: &str, ext: &str, n: usize) -> (r: String)
    ensures
        r@ == candidate(prefix@, hash@, ext@, n as nat),
{
    let mut s = prefix.to_owned();
    if n > 0 {
        s.append("-");
        s.append(decimal_of(n as u64).as_str());
    }
    s.append("_");
    s.append(hash);
    s.append(".");
    s.append(ext);
    s
}

proof fn lemma_candidates_differ(
    prefix: Seq<char>,
    hash: Seq<char>,
    ext: Seq<char>,
    m: nat,
    n: nat,
)
    requires
        m < n,
    ensures
        candidate(prefix, hash, ext, m) != candidate(prefix, hash, ext, n),
{
    let a = candidate(prefix, hash, ext, m);
    let b = candidate(prefix, hash, ext, n);
    reveal_strlit("-");
    lemma_decimal_len(n);
    let tail = "_"@ + hash + "."@ + ext;
    let x = if m == 0 {
        prefix
    } else {
        prefix + "-"@ + decimal(m)
    };
    let y = prefix + "-"@ + decimal(n);
    assert(a =~= x + tail);
    assert(b =~= y + tail);
    if a == b {
        assert(x.len() == y.len());
        assert(x =~= a.take(x.len() as int));
        assert(y =~= b.take(y.len() as int));
        let k = prefix.len() as int + 1;
        assert(decimal(m) =~= x.skip(k));
        assert(decimal(n) =~= y.skip(k));
        lemma_decimal_injective(m, n);
    }
}

/// Distinct names that are all in a directory are no more than its files.
proof fn lemma_names_bounded(files: Seq<FileView>, tried: Seq<Seq<char>>)
    requires
        tried.no_duplicates(),
        forall|i: int| 0 <= i < tried.len() ==> has_file(files, #[trigger] tried[i]),
    ensures
        tried.len() <= files.len(),
{
    let names = files.map_values(|f: FileView| f.name);
    assert forall|x: Seq<char>| tried.to_set().contains(x) implies names.to_set().contains(x) by {
        let i = choose|i: int| 0 <= i < tried.len() && tried[i] == x;
        assert(has_file(files, tried[i]));
        let j = choose|j: int| 0 <= j < files.len() && (#[trigger] files[j]).name == x;
        assert(names[j] == x);
    }
    tried.unique_seq_to_set();
    names.lemma_cardinality_of_set();
    vstd::set_lib::lemma_len_subset(tried.to_set(), names.to_set());
}

impl Folder {
    /// The first free name for an image.
    fn free_name(&self, prefix: &str, hash: &str, ext: &str) -> (r: String)
        ensures
            exists|n: nat|
                r@ == candidate(prefix@, hash@, ext@, n) && #[trigger] first_free(
                    self@,
                    prefix@,
                    hash@,
                    ext@,
                    n,
                ),
    {
        let mut n: usize = 0;
        let mut name = candidate_name(prefix, hash, ext, 0);
        let ghost mut tried = Seq::<Seq<char>>::empty();
        while self.position(name.as_str()) < self.files.len()
            invariant
                name@ == candidate(prefix@, hash@, ext@, n as nat),
                tried.len() == n,
                n <= self.files.len(),
                forall|m: int|
                    0 <= m < n ==> #[trigger] tried[m] == candidate(
                        prefix@,
                        hash@,
                        ext@,
                        m as nat,
                    ),
                forall|m: nat|
                    m < n ==> has_file(self@, #[trigger] candidate(prefix@, hash@, ext@, m)),
            decreases self.files.len() - n,
        {
            proof {
                let more = tried.push(name@);
                assert forall|i: int, j: int|
                    0 <= i < more.len() && 0 <= j < more.len() && i != j implies more[i]
                    != more[j] by {
                    assert(more[i] == candidate(prefix@, hash@, ext@, i as nat));
                    assert(more[j] == candidate(prefix@, hash@, ext@, j as nat));
                    if i < j {
                        lemma_candidates_differ(prefix@, hash@, ext@, i as nat, j as nat);
                    } else {
                        lemma_candidates_differ(prefix@, hash@, ext@, j as nat, i as nat);
                    }
                }
                assert forall|i: int| 0 <= i < more.len() implies has_file(
                    self@,
                    #[trigger] more[i],
                ) by {
                    assert(more[i] == candidate(prefix@, hash@, ext@, i as nat));
                }
                lemma_names_bounded(self@, more);
                tried = more;
            }
            n += 1;
            name = candidate_name(prefix, hash, ext, n);
        }
        assert(first_free(self@, prefix@, hash@, ext@, n as nat));
        name
    }
}

impl Folder {
    /// Notes that a file was written.
    fn put(&mut self, f: DirFile)
        ensures
            final(self)@ == with_file(old(self)@, f@),
            final(self).dir@ == old(self).dir@,
    {
        let ghost before = self@;
        let ghost added = f@;
        let i = self.position(f.name.as_str());
        if i < self.files.len() {
            self.files.set(i, f);
            assert(self@ =~= before.update(i as int, added));
        } else {
            self.files.push(f);
            assert(self@ =~= before.push(added));
        }
    }
}

/// What storing an image comes to.
#[derive(Debug)]
pub struct Stored {
    pub image: StoredImage,
    /// The image file is to be written.
    pub writes_image: bool,
    /// The description file is to be written.
    pub writes_meta: bool,
}

/// The stored image that repeats a file of the directory.
pub open spec fn reused_image(dir: Seq<char>, name: Seq<char>, meta: MetaView) -> ImageView {
    ImageView {
        path: joined(dir, name),
        json_path: joined(dir, sidecar(name)),
        meta,
        reused: true,
    }
}

pub open spec fn new_image(dir: Seq<char>, name: Seq<char>, meta: MetaView) -> ImageView {
    ImageView { reused: false, ..reused_image(dir, name, meta) }
}

/// The directory once a file was written: in place of one of its name, if
/// there is one.
pub open spec fn with_file(files: Seq<FileView>, f: FileView) -> Seq<FileView> {
    let i = file_at(files, f.name, 0);
    if i < files.len() {
        files.update(i, f)
    } else {
        files.push(f)
    }
}

/// The directory with a new image and its description.
pub open spec fn with_image(files: Seq<FileView>, name: Seq<char>, meta: MetaView) -> Seq<
    FileView,
> {
    with_file(
        with_file(files, FileView { name, meta: None }),
        FileView { name: sidecar(name), meta: Some(meta) },
    )
}

/// `name` is the first free name for an image.
pub open spec fn free_for(
    files: Seq<FileView>,
    ext: Seq<char>,
    meta: MetaView,
    stamp: Seq<char>,
    name: Seq<char>,
) -> bool {
    exists|n: nat|
        name == candidate(prefix_for(meta.date, stamp), meta.hash, ext, n) && #[trigger] first_free(
            files,
            prefix_for(meta.date, stamp),
            meta.hash,
            ext,
            n,
        )
}

/// What storing an image in `files` comes to: a directory `after`, the image as
/// it is stored, and the files to be written. Content that is there already is
/// reused, and so is an image with the same identity; a lost description is
/// written again.
pub open spec fn stores(
    dir: Seq<char>,
    files: Seq<FileView>,
    after: Seq<FileView>,
    ext: Seq<char>,
    meta: MetaView,
    stamp: Seq<char>,
    image: ImageView,
    writes_image: bool,
    writes_meta: bool,
) -> bool {
    let i = repeated_at(files, meta.hash, meta.extra);
    if i < files.len() {
        let name = files[i].name;
        &&& image == reused_image(dir, name, meta)
        &&& !writes_image
        &&& writes_meta == (hash_at(files, meta.hash, 0) < files.len() && !has_file(
            files,
            sidecar(name),
        ))
        &&& after == (if writes_meta {
            with_file(files, FileView { name: sidecar(name), meta: Some(meta) })
        } else {
            files
        })
    } else {
        &&& writes_image && writes_meta
        &&& exists|name: Seq<char>|
            {
                &&& #[trigger] free_for(files, ext, meta, stamp, name)
                &&& image == new_image(dir, name, meta)
                &&& after == with_image(files, name, meta)
            }
    }
}

/// Stores an image. Content that is there already is reused, and so is an
/// image with the same identity; a lost description is written again. A new
/// image is named after its day, or after `stamp`, the time of the download.
pub fn store_body_at(folder: &mut Folder, ext: &str, meta: &ImageMeta, stamp: &str) -> (r: Stored)
    ensures
        final(folder).dir@ == old(folder).dir@,
        stores(
            old(folder).dir@,
            old(folder)@,
            final(folder)@,
            ext@,
            meta@,
            stamp@,
            r.image@,
            r.writes_image,
            r.writes_meta,
        ),
{
    let ghost files = folder@;
    let ghost dir = folder.dir@;
    if let Some(i) = folder.find_existing_by_hash(meta.hash.as_str()) {
        let name = folder.files[i].name.clone();
        let json = with_extension(name.as_str(), "json");
        let path = join(folder.dir.as_str(), name.as_str());
        let json_path = join(folder.dir.as_str(), json.as_str());
        let lost = folder.position(json.as_str()) == folder.files.len();
        if lost {
            folder.put(DirFile { name: json, meta: Some(meta.copy()) });
        }
        let image = StoredImage { path, json_path, meta: meta.copy(), reused: true };
        return Stored { image, writes_image: false, writes_meta: lost };
    }
    if let Some(id) = meta.extra.get("dedup-id") {
        if !id.as_str().is_empty() {
            if let Some(i) = folder.find_existing_by_dedup_id(id.as_str()) {
                let name = folder.files[i].name.clone();
                let json = with_extension(name.as_str(), "json");
                let path = join(folder.dir.as_str(), name.as_str());
                let json_path = join(folder.dir.as_str(), json.as_str());
                let image = StoredImage { path, json_path, meta: meta.copy(), reused: true };
                return Stored { image, writes_image: false, writes_meta: false };
            }
        }
    }
    assert(repeated_at(files, meta@.hash, meta@.extra) >= files.len());
    let prefix = if meta.date.as_str().is_empty() {
        stamp.to_owned()
    } else {
        removed_char(meta.date.as_str(), '-')
    };
    let name = folder.free_name(prefix.as_str(), meta.hash.as_str(), ext);
    let json = with_extension(name.as_str(), "json");
    let path = join(folder.dir.as_str(), name.as_str());
    let json_path = join(folder.dir.as_str(), json.as_str());
    let ghost given = name@;
    proof {
        assert(prefix@ == prefix_for(meta@.date, stamp@));
        let n = choose|n: nat|
            given == candidate(prefix@, meta@.hash, ext@, n) && #[trigger] first_free(
                files,
                prefix@,
                meta@.hash,
                ext@,
                n,
            );
        assert(first_free(files, prefix_for(meta@.date, stamp@), meta@.hash, ext@, n));
        assert(free_for(files, ext@, meta@, stamp@, given));
    }
    folder.put(DirFile { name, meta: None });
    folder.put(DirFile { name: json, meta: Some(meta.copy()) });
    assert(folder@ == with_image(files, given, meta@));
    let image = StoredImage { path, json_path, meta: meta.copy(), reused: false };
    Stored { image, writes_image: true, writes_meta: true }
}

/// What an image is sorted by: its own day, else the day of the download, and
/// then the time of the download.
pub open spec fn key_of(meta: MetaView) -> (Seq<char>, i64) {
    (
        if meta.date.len() == 0 {
            opt_iso(day_with_number(utc_day_number(meta.downloaded_at as int)))
        } else {
            meta.date
        },
        meta.downloaded_at,
    )
}

pub open spec fn key_less(a: (Seq<char>, i64), b: (Seq<char>, i64)) -> bool {
    precedes(a.0, b.0) || (a.0 == b.0 && a.1 < b.1)
}

/// `a` is newer than `b`.
pub open spec fn newer(a: ImageView, b: ImageView) -> bool {
    key_less(key_of(b.meta), key_of(a.meta))
}

/// `x` put behind every image that is not older.
pub open spec fn placed(images: Seq<ImageView>, x: ImageView) -> Seq<ImageView>
    decreases images.len(),
{
    if images.len() > 0 && newer(x, images.last()) {
        placed(images.drop_last(), x).push(images.last())
    } else {
        images.push(x)
    }
}

/// The images newest first; those of equal age stay in their order.
pub open spec fn newest_first(images: Seq<ImageView>) -> Seq<ImageView>
    decreases images.len(),
{
    if images.len() == 0 {
        images
    } else {
        placed(newest_first(images.drop_last()), images.last())
    }
}

/// The description that belongs to an image file, where there is one.
pub open spec fn meta_at(files: Seq<FileView>, name: Seq<char>) -> Option<MetaView> {
    let j = file_at(files, sidecar(name), 0);
    if j < files.len() {
        files[j].meta
    } else {
        None
    }
}

/// What a file of the directory is listed as: an image with a description.
pub open spec fn image_for(dir: Seq<char>, files: Seq<FileView>, name: Seq<char>) -> Option<
    ImageView,
> {
    match extension_of(name) {
        Some(e) => match meta_at(files, name) {
            Some(meta) => if is_image_extension(e) {
                Some(new_image(dir, name, meta))
            } else {
                None
            },
            None => None,
        },
        None => None,
    }
}

/// The images among the first `n` files.
pub open spec fn images_among(dir: Seq<char>, files: Seq<FileView>, n: int) -> Seq<ImageView>
    decreases n,
{
    if n <= 0 {
        Seq::empty()
    } else {
        match image_for(dir, files, files[n - 1].name) {
            Some(image) => images_among(dir, files, n - 1).push(image),
            None => images_among(dir, files, n - 1),
        }
    }
}

/// The images of a directory, newest first.
pub open spec fn listing(dir: Seq<char>, files: Seq<FileView>) -> Seq<ImageView> {
    newest_first(images_among(dir, files, files.len() as int))
}

pub open spec fn image_views(images: Seq<StoredImage>) -> Seq<ImageView> {
    Seq::new(images.len(), |i: int| images[i]@)
}

/// What an image is sorted by.
pub fn sort_key(meta: &ImageMeta) -> (r: (String, i64))
    ensures
        (r.0@, r.1) == key_of(meta@),
{
    let date = if meta.date.as_str().is_empty() {
        match day_of_timestamp(meta.downloaded_at) {
            Some(d) => d.to_iso(),
            None => {
                let none = String::new();
                assert(none@ =~= Seq::<char>::empty());
                none
            },
        }
    } else {
        meta.date.clone()
    };
    (date, meta.downloaded_at)
}

fn is_newer(a: &ImageMeta, b: &ImageMeta) -> (r: bool)
    ensures
        r == key_less(key_of(b@), key_of(a@)),
{
    let x = sort_key(a);
    let y = sort_key(b);
    crate::text::comes_before(y.0.as_str(), x.0.as_str()) || (same(y.0.as_str(), x.0.as_str())
        && y.1 < x.1)
}

fn place(images: &mut Vec<StoredImage>, x: StoredImage)
    ensures
        image_views(final(images)@) == placed(image_views(old(images)@), x@),
{
    let ghost before = image_views(images@);
    let ghost put = x@;
    let mut i: usize = images.len();
    assert(before.take(i as int) =~= before);
    assert(placed(before, put) =~= placed(before.take(i as int), put) + before.skip(i as int));
    while i > 0 && is_newer(&x.meta, &images[i - 1].meta)
        invariant
            i <= images.len(),
            before == image_views(images@),
            put == x@,
            placed(before, put) == placed(before.take(i as int), put) + before.skip(i as int),
        decreases i,
    {
        let ghost head = before.take(i as int);
        assert(head.last() == images@[i - 1]@);
        assert(head.drop_last() =~= before.take(i - 1));
        assert(placed(head, put) == placed(before.take(i - 1), put).push(before[i - 1]));
        assert(placed(before.take(i - 1), put) + before.skip(i - 1) =~= placed(head, put)
            + before.skip(i as int));
        i -= 1;
    }
    let ghost head = before.take(i as int);
    if i > 0 {
        assert(head.last() == images@[i - 1]@);
    }
    assert(placed(head, put) == head.push(put));
    images.insert(i, x);
    assert(image_views(images@) =~= before.insert(i as int, put));
    assert(before.insert(i as int, put) =~= head.push(put) + before.skip(i as int));
}

impl Folder {
    fn meta_of(&self, name: &str) -> (r: Option<ImageMeta>)
        ensures
            match r {
                Some(m) => meta_at(self@, name@) == Some(m@),
                None => meta_at(self@, name@) is None,
            },
    {
        let json = with_extension(name, "json");
        let j = self.position(json.as_str());
        if j < self.files.len() {
            match &self.files[j].meta {
                Some(m) => Some(m.copy()),
                None => None,
            }
        } else {
            None
        }
    }

    /// The images of the directory, newest first. An image without a
    /// description that can be read is left out.
    pub fn list_dir(&self) -> (r: Vec<StoredImage>)
        ensures
            image_views(r@) == listing(self.dir@, self@),
    {
        let ghost dir = self.dir@;
        let ghost files = self@;
        let mut out: Vec<StoredImage> = Vec::new();
        let mut i: usize = 0;
        assert(image_views(out@) =~= newest_first(images_among(dir, files, 0)));
        while i < self.files.len()
            invariant
                i <= self.files.len(),
                dir == self.dir@,
                files == self@,
                image_views(out@) == newest_first(images_among(dir, files, i as int)),
            decreases self.files.len() - i,
        {
            let name = self.files[i].name.as_str();
            assert(files[i as int].name == name@);
            if let Some(e) = extension(name) {
                if image_file_extension(e.as_str()) {
                    if let Some(meta) = self.meta_of(name) {
                        let path = join(self.dir.as_str(), name);
                        let json = with_extension(name, "json");
                        let json_path = join(self.dir.as_str(), json.as_str());
                        let image = StoredImage { path, json_path, meta, reused: false };
                        proof {
                            let some = images_among(dir, files, i as int);
                            let more = images_among(dir, files, i + 1);
                            assert(image@ == image_for(dir, files, name@)->0);
                            assert(more.drop_last() =~= some);
                            assert(newest_first(more) == placed(newest_first(some), image@));
                        }
                        place(&mut out, image);
                    }
                }
            }
            i += 1;
        }
        out
    }

    /// Whether an image of a day is stored: a file name begins with the day.
    pub fn has_dated(&self, date: Date) -> (r: bool)
        ensures
            r == dated(self@, date),
    {
        let prefix = date.to_compact();
        let mut i: usize = 0;
        while i < self.files.len()
            invariant
                i <= self.files.len(),
                prefix@ == crate::date::compact(date),
                forall|j: int| 0 <= j < i ==> !starts_with((#[trigger] self@[j]).name, prefix@),
            decreases self.files.len() - i,
        {
            if has_prefix(self.files[i].name.as_str(), prefix.as_str()) {
                assert(starts_with(self@[i as int].name, prefix@));
                return true;
            }
            i += 1;
        }
        false
    }
}

/// A file name begins with the day.
pub open spec fn dated(files: Seq<FileView>, date: Date) -> bool {
    exists|i: int|
        0 <= i < files.len() && starts_with(
            (#[trigger] files[i]).name,
            crate::date::compact(date),
        )
}

/// No image comes before a newer one.
pub open spec fn in_order(images: Seq<ImageView>) -> bool {
    forall|i: int, j: int|
        0 <= i < j < images.len() ==> !newer(#[trigger] images[j], #[trigger] images[i])
}

proof fn lemma_placed(images: Seq<ImageView>, x: ImageView)
    requires
        in_order(images),
    ensures
        in_order(placed(images, x)),
        placed(images, x).to_multiset() == images.to_multiset().insert(x),
        placed(images, x).len() == images.len() + 1,
    decreases images.len(),
{
    broadcast use vstd::seq_lib::group_to_multiset_ensures;

    let out = placed(images, x);
    if images.len() > 0 && newer(x, images.last()) {
        let init = images.drop_last();
        assert forall|i: int, j: int| 0 <= i < j < init.len() implies !newer(
            #[trigger] init[j],
            #[trigger] init[i],
        ) by {
            assert(!newer(images[j], images[i]));
        }
        lemma_placed(init, x);
        let most = placed(init, x);
        assert(images =~= init.push(images.last()));
        assert(out.to_multiset() =~= images.to_multiset().insert(x));
        assert forall|i: int, j: int| 0 <= i < j < out.len() implies !newer(
            #[trigger] out[j],
            #[trigger] out[i],
        ) by {
            if j < most.len() {
                assert(!newer(most[j], most[i]));
            } else {
                assert(most.to_multiset().contains(most[i]));
                if most[i] == x {
                    lemma_key_asym(key_of(images.last().meta), key_of(x.meta));
                } else {
                    assert(init.to_multiset().contains(most[i]));
                    assert(init.contains(most[i]));
                    let k = choose|k: int| 0 <= k < init.len() && init[k] == most[i];
                    assert(images[k] == most[i]);
                    assert(!newer(images[images.len() - 1], images[k]));
                }
            }
        }
    } else {
        assert forall|i: int, j: int| 0 <= i < j < out.len() implies !newer(
            #[trigger] out[j],
            #[trigger] out[i],
        ) by {
            if j < images.len() {
                assert(!newer(images[j], images[i]));
            } else if i < images.len() - 1 {
                assert(!newer(images[images.len() - 1], images[i]));
                lemma_not_newer_trans(images[i], images.last(), x);
            }
        }
    }
}

proof fn lemma_key_asym(a: (Seq<char>, i64), b: (Seq<char>, i64))
    ensures
        key_less(a, b) ==> !key_less(b, a),
{
    lemma_precedes_strict(a.0, b.0);
}

pub(crate) proof fn lemma_not_newer_trans(a: ImageView, b: ImageView, c: ImageView)
    requires
        !newer(b, a),
        !newer(c, b),
    ensures
        !newer(c, a),
{
    let x = key_of(a.meta);
    let y = key_of(b.meta);
    let z = key_of(c.meta);
    lemma_precedes_strict(x.0, y.0);
    lemma_precedes_strict(y.0, z.0);
    lemma_precedes_strict(x.0, z.0);
    if precedes(z.0, y.0) && precedes(y.0, x.0) {
        lemma_precedes_trans(z.0, y.0, x.0);
    }
    if precedes(x.0, z.0) {
        if precedes(z.0, y.0) {
            lemma_precedes_trans(x.0, z.0, y.0);
        }
    }
}

/// Sorting keeps every image and puts the newest first.
pub proof fn lemma_newest_first(images: Seq<ImageView>)
    ensures
        in_order(newest_first(images)),
        newest_first(images).to_multiset() == images.to_multiset(),
        newest_first(images).len() == images.len(),
    decreases images.len(),
{
    broadcast use vstd::seq_lib::group_to_multiset_ensures;

    if images.len() > 0 {
        lemma_newest_first(images.drop_last());
        lemma_placed(newest_first(images.drop_last()), images.last());
        assert(images =~= images.drop_last().push(images.last()));
    }
}

/// The thumbnail of an image: `{name without extension}_thumb.jpg` beside it.
pub open spec fn thumbnail_of(path: Seq<char>) -> Seq<char> {
    let stem = match file_stem_of(path) {
        Some(s) => s,
        None => Seq::empty(),
    };
    let dir = match parent_of(path) {
        Some(d) => d,
        None => Seq::empty(),
    };
    joined(dir, stem + "_thumb.jpg"@)
}

/// The files whose name is not among `gone`.
pub open spec fn without_names(files: Seq<FileView>, gone: Seq<Seq<char>>) -> Seq<FileView>
    decreases files.len(),
{
    if files.len() == 0 {
        files
    } else if gone.contains(files.last().name) {
        without_names(files.drop_last(), gone)
    } else {
        without_names(files.drop_last(), gone).push(files.last())
    }
}

/// The files of an image: the image, its description and its thumbnail.
pub open spec fn files_of_image(name: Seq<char>) -> Seq<Seq<char>> {
    seq![name, sidecar(name), thumbnail_of(name)]
}

/// The description of a fetched image.
pub open spec fn meta_for(
    source: Seq<char>,
    result: FetchView,
    now: i64,
    hash: Seq<char>,
) -> MetaView {
    MetaView {
        source,
        title: result.title,
        copyright: result.copyright,
        url: result.image_url,
        downloaded_at: now,
        hash,
        date: opt_iso(result.date),
        width: 0,
        height: 0,
        extra: result.extra,
    }
}

/// The extension to store a reply under, or why it is not stored.
pub open spec fn reply_extension(
    status: u32,
    status_name: Seq<char>,
    content_type: Option<Seq<char>>,
    url: Seq<char>,
    not_image: Seq<char>,
) -> Result<Seq<char>, Seq<char>> {
    if status != 200 {
        Err(status_text(status_name, url))
    } else if !may_be_image(content_type) {
        Err(
            not_image + " ("@ + (match content_type {
                Some(ct) => ct,
                None => Seq::empty(),
            }) + "): "@ + url,
        )
    } else {
        Ok(extension_for(content_type, url))
    }
}

/// What storing a reply comes to: the image under the hash of the reply's body,
/// or the directory as it was and a message.
pub open spec fn stores_reply(
    dir: Seq<char>,
    files: Seq<FileView>,
    after: Seq<FileView>,
    source: Seq<char>,
    result: FetchView,
    reply: HttpResponse,
    now: i64,
    stamp: Seq<char>,
    not_image: Seq<char>,
    r: Result<Stored, String>,
) -> bool {
    match reply_extension(
        reply.status,
        reply.status_name@,
        opt_text(reply.content_type),
        result.image_url,
        not_image,
    ) {
        Ok(ext) => r is Ok && stores(
            dir,
            files,
            after,
            ext,
            meta_for(source, result, now, hash_of(reply.body@)),
            stamp,
            r->Ok_0.image@,
            r->Ok_0.writes_image,
            r->Ok_0.writes_meta,
        ),
        Err(message) => r is Err && r->Err_0@ == message && after == files,
    }
}

/// The name of a file in its directory.
pub open spec fn entry_name(path: Seq<char>) -> Seq<char> {
    match file_name_of(path) {
        Some(name) => name,
        None => path,
    }
}

/// A description once the size of its image was looked for.
pub open spec fn sized_meta(meta: MetaView, width: i32, height: i32) -> MetaView {
    if width > 0 && height > 0 {
        MetaView { width, height, ..meta }
    } else {
        meta
    }
}

/// The directory once the size of a stored image was looked for.
pub open spec fn measured(
    files: Seq<FileView>,
    image: ImageView,
    width: i32,
    height: i32,
) -> Seq<FileView> {
    if width > 0 && height > 0 {
        with_file(
            files,
            FileView {
                name: entry_name(image.json_path),
                meta: Some(sized_meta(image.meta, width, height)),
            },
        )
    } else {
        files
    }
}

pub open spec fn text_result(r: Result<String, String>) -> Result<Seq<char>, Seq<char>> {
    match r {
        Ok(s) => Ok(s@),
        Err(s) => Err(s@),
    }
}

pub struct Storage;

impl Storage {
    /// The thumbnail of an image.
    pub fn thumbnail_path(path: &str) -> (r: String)
        ensures
            r@ == thumbnail_of(path@),
    {
        let stem = match file_stem(path) {
            Some(s) => s,
            None => {
                let s = String::new();
                assert(s@ =~= Seq::<char>::empty());
                s
            },
        };
        let dir = match parent(path) {
            Some(d) => d,
            None => {
                let s = String::new();
                assert(s@ =~= Seq::<char>::empty());
                s
            },
        };
        join(dir.as_str(), concat(stem.as_str(), "_thumb.jpg").as_str())
    }

    /// The storage root, in the user's pictures directory or else at home.
    pub fn root(pictures: Option<&str>, home: Option<&str>) -> (r: String)
        ensures
            r@ == joined(
                match pictures {
                    Some(p) => p@,
                    None => match home {
                        Some(h) => h@,
                        None => ""@,
                    },
                },
                "Equinox"@,
            ),
    {
        let base = match pictures {
            Some(p) => p,
            None => match home {
                Some(h) => h,
                None => "",
            },
        };
        join(base, "Equinox")
    }

    /// The directory of a source.
    pub fn source_dir(root: &str, source: &str) -> (r: String)
        ensures
            r@ == joined(root@, source@),
    {
        join(root, source)
    }

    /// The images of a source, newest first.
    pub fn list(folder: &Folder) -> (r: Vec<StoredImage>)
        ensures
            image_views(r@) == listing(folder.dir@, folder@),
            in_order(image_views(r@)),
    {
        proof {
            lemma_newest_first(images_among(folder.dir@, folder@, folder@.len() as int));
        }
        folder.list_dir()
    }

    /// The newest image of a source.
    pub fn latest(folder: &Folder) -> (r: Option<StoredImage>)
        ensures
            match r {
                Some(image) => listing(folder.dir@, folder@).len() > 0 && image@ == listing(
                    folder.dir@,
                    folder@,
                )[0] && (forall|i: int|
                    0 <= i < listing(folder.dir@, folder@).len() ==> !newer(
                        #[trigger] listing(folder.dir@, folder@)[i],
                        image@,
                    )),
                None => listing(folder.dir@, folder@).len() == 0,
            },
    {
        let mut all = Storage::list(folder);
        let ghost views = image_views(all@);
        if all.len() == 0 {
            return None;
        }
        let image = all.remove(0);
        assert(image@ == views[0]);
        proof {
            lemma_precedes_strict(key_of(image@.meta).0, key_of(image@.meta).0);
            assert forall|i: int| 0 <= i < views.len() implies !newer(
                #[trigger] views[i],
                image@,
            ) by {
                if i > 0 {
                    assert(!newer(views[i], views[0]));
                }
            }
        }
        Some(image)
    }

    /// A random image of a source.
    pub fn random(folder: &Folder) -> (r: Option<StoredImage>)
        ensures
            match r {
                Some(image) => exists|i: int|
                    0 <= i < listing(folder.dir@, folder@).len() && image@ == #[trigger] listing(
                        folder.dir@,
                        folder@,
                    )[i],
                None => listing(folder.dir@, folder@).len() == 0,
            },
    {
        let all = Storage::list(folder);
        if all.len() == 0 {
            return None;
        }
        let idx = crate::chance::random_between(0, all.len());
        Storage::nth(all, idx)
    }

    /// The image at a position of a listing.
    pub fn nth(images: Vec<StoredImage>, idx: usize) -> (r: Option<StoredImage>)
        ensures
            match r {
                Some(image) => idx < images.len() && image@ == image_views(images@)[idx as int],
                None => idx >= images.len(),
            },
    {
        let mut images = images;
        if idx < images.len() {
            Some(images.remove(idx))
        } else {
            None
        }
    }

    /// The images beyond the newest `max`, which are to be deleted; none where
    /// `max` is 0.
    pub fn trim(folder: &Folder, max: usize) -> (r: Vec<String>)
        ensures
            ({
                let all = listing(folder.dir@, folder@);
                if max == 0 || max >= all.len() {
                    r.len() == 0
                } else {
                    &&& r.len() == all.len() - max
                    &&& forall|i: int| 0 <= i < r.len() ==> (#[trigger] r@[i])@ == all[max + i].path
                }
            }),
    {
        let mut out: Vec<String> = Vec::new();
        if max == 0 {
            return out;
        }
        let all = Storage::list(folder);
        let ghost views = image_views(all@);
        if max >= all.len() {
            return out;
        }
        let mut i: usize = max;
        while i < all.len()
            invariant
                max <= i <= all.len(),
                views == image_views(all@),
                out.len() == i - max,
                forall|j: int| 0 <= j < out.len() ==> (#[trigger] out@[j])@ == views[max + j].path,
            decreases all.len() - i,
        {
            out.push(all[i].path.clone());
            i += 1;
        }
        out
    }

    /// Deletes an image with its description and its thumbnail, where there
    /// are any. Says whether there is such an image.
    pub fn delete(folder: &mut Folder, name: &str) -> (r: bool)
        ensures
            r == has_file(old(folder)@, name@),
            r ==> final(folder)@ == without_names(old(folder)@, files_of_image(name@)),
            !r ==> final(folder)@ == old(folder)@,
            final(folder).dir@ == old(folder).dir@,
    {
        if folder.position(name) == folder.files.len() {
            return false;
        }
        let json = with_extension(name, "json");
        let thumb = Storage::thumbnail_path(name);
        let ghost gone = files_of_image(name@);
        let ghost all = folder@;
        let ghost dir = folder.dir@;
        let mut kept: Vec<DirFile> = Vec::new();
        let mut i: usize = 0;
        assert(file_views(kept@) =~= without_names(all.take(0), gone));
        while i < folder.files.len()
            invariant
                i <= folder.files.len(),
                folder@ == all,
                folder.dir@ == dir,
                gone == files_of_image(name@),
                json@ == sidecar(name@),
                thumb@ == thumbnail_of(name@),
                file_views(kept@) == without_names(all.take(i as int), gone),
            decreases folder.files.len() - i,
        {
            let f = &folder.files[i];
            let ghost before = file_views(kept@);
            assert(all.take(i + 1).drop_last() =~= all.take(i as int));
            assert(all[i as int] == f@);
            let doomed = same(f.name.as_str(), name) || same(f.name.as_str(), json.as_str())
                || same(f.name.as_str(), thumb.as_str());
            proof {
                assert(gone[0] == name@ && gone[1] == json@ && gone[2] == thumb@);
                assert(gone.contains(f@.name) == doomed) by {
                    if gone.contains(f@.name) {
                        let k = choose|k: int| 0 <= k < gone.len() && gone[k] == f@.name;
                        assert(k == 0 || k == 1 || k == 2);
                    }
                }
            }
            if !doomed {
                let copy = DirFile {
                    name: f.name.clone(),
                    meta: match &f.meta {
                        Some(m) => Some(m.copy()),
                        None => None,
                    },
                };
                kept.push(copy);
                assert(file_views(kept@) =~= before.push(all[i as int]));
            }
            i += 1;
        }
        assert(all.take(i as int) =~= all);
        folder.files = kept;
        true
    }

    /// Deletes every file of a source and says how many there were.
    pub fn delete_all(folder: &mut Folder) -> (r: usize)
        ensures
            r == old(folder)@.len(),
            final(folder)@.len() == 0,
            final(folder).dir@ == old(folder).dir@,
    {
        let count = folder.files.len();
        folder.files = Vec::new();
        count
    }

    /// The description of a fetched image, downloaded at the time `now`.
    pub fn describe(source: &str, result: &FetchResult, now: i64, hash: String) -> (r: ImageMeta)
        ensures
            r@ == meta_for(source@, result@, now, hash@),
            r.source@ == source@,
            r.title@ == result.title@,
            opt_text(r.copyright) == opt_text(result.copyright),
            r.url@ == result.image_url@,
            r.downloaded_at == now,
            r.hash@ == hash@,
            r.extra@ == result.extra@,
    {
        let date = match &result.date {
            Some(d) => d.to_iso(),
            None => {
                let none = String::new();
                assert(none@ =~= Seq::<char>::empty());
                none
            },
        };
        ImageMeta {
            source: source.to_owned(),
            title: result.title.clone(),
            copyright: result.copyright.clone(),
            url: result.image_url.clone(),
            downloaded_at: now,
            hash,
            date,
            width: 0,
            height: 0,
            extra: result.extra.copy(),
        }
    }

    /// The stored image that a fetch repeats, by its source identity; it need
    /// not be downloaded again.
    pub fn known(folder: &Folder, source: &str, result: &FetchResult, now: i64) -> (r: Option<
        StoredImage,
    >)
        ensures
            ({
                let files = folder@;
                let i = match identity_in(result@.extra) {
                    Some(id) => identity_at(files, id),
                    None => files.len() as int,
                };
                match r {
                    Some(image) => i < files.len() && image@ == reused_image(
                        folder.dir@,
                        files[i].name,
                        meta_for(source@, result@, now, Seq::empty()),
                    ),
                    None => i >= files.len(),
                }
            }),
    {
        match result.extra.get("dedup-id") {
            Some(id) => {
                if id.as_str().is_empty() {
                    return None;
                }
                match folder.find_existing_by_dedup_id(id.as_str()) {
                    Some(i) => {
                        let name = folder.files[i].name.as_str();
                        let json = with_extension(name, "json");
                        let none = String::new();
                        assert(none@ =~= Seq::<char>::empty());
                        Some(
                            StoredImage {
                                path: join(folder.dir.as_str(), name),
                                json_path: join(folder.dir.as_str(), json.as_str()),
                                meta: Storage::describe(source, result, now, none),
                                reused: true,
                            },
                        )
                    },
                    None => None,
                }
            },
            None => None,
        }
    }

    /// The extension to store a reply under. A reply with another status than
    /// 200, or of another type than an image, is refused with a message;
    /// `not_image` is the translated beginning of the latter.
    pub fn check_reply_in(
        status: u32,
        status_name: &str,
        content_type: Option<&str>,
        url: &str,
        not_image: &str,
    ) -> (r: Result<String, String>)
        ensures
            text_result(r) == reply_extension(
                status,
                status_name@,
                opt_str(content_type),
                url@,
                not_image@,
            ),
    {
        match ensure_ok(status, status_name, url) {
            Err(message) => {
                return Err(message);
            },
            Ok(_) => {},
        }
        if !is_image_content_type(content_type) {
            let mut message = concat(not_image, " (");
            if let Some(ct) = content_type {
                message.append(ct);
            }
            message.append("): ");
            message.append(url);
            let r: Result<String, String> = Err(message);
            assert(text_result(r)->Err_0 =~= reply_extension(
                status,
                status_name@,
                opt_str(content_type),
                url@,
                not_image@,
            )->Err_0);
            return r;
        }
        Ok(image_extension(content_type, url))
    }

    /// Stores what a reply holds as an image that `result` describes. A reply
    /// with another status than 200, or of another type than an image, leaves
    /// the directory as it is and comes to a message; `not_image` is the
    /// translated beginning of the latter.
    pub fn store_in(
        folder: &mut Folder,
        source: &str,
        result: &FetchResult,
        reply: &HttpResponse,
        now: i64,
        stamp: &str,
        not_image: &str,
    ) -> (r: Result<Stored, String>)
        ensures
            final(folder).dir@ == old(folder).dir@,
            stores_reply(
                old(folder).dir@,
                old(folder)@,
                final(folder)@,
                source@,
                result@,
                *reply,
                now,
                stamp@,
                not_image@,
                r,
            ),
    {
        let content_type: Option<&str> = match &reply.content_type {
            Some(ct) => Some(ct.as_str()),
            None => None,
        };
        match Storage::check_reply_in(
            reply.status,
            reply.status_name.as_str(),
            content_type,
            result.image_url.as_str(),
            not_image,
        ) {
            Ok(ext) => {
                let hash = content_hash(reply.body.as_slice());
                let meta = Storage::describe(source, result, now, hash);
                Ok(store_body_at(folder, ext.as_str(), &meta, stamp))
            },
            Err(message) => Err(message),
        }
    }

    /// Stores what a reply holds as an image that `result` describes, or
    /// refuses it with a message in the language of the process.
    pub fn store(
        folder: &mut Folder,
        source: &str,
        result: &FetchResult,
        reply: &HttpResponse,
        now: i64,
        stamp: &str,
    ) -> (r: Result<Stored, String>)
        ensures
            final(folder).dir@ == old(folder).dir@,
            exists|not_image: Seq<char>|
                #[trigger] stores_reply(
                    old(folder).dir@,
                    old(folder)@,
                    final(folder)@,
                    source@,
                    result@,
                    *reply,
                    now,
                    stamp@,
                    not_image,
                    r,
                ),
    {
        proof {
            reveal_strlit("Response is not an image");
        }
        let label = crate::i18n::gettext("Response is not an image");
        Storage::store_in(folder, source, result, reply, now, stamp, label.as_str())
    }

    /// Whether the size of an image is still to be recorded.
    pub fn needs_dimensions(meta: &ImageMeta) -> (r: bool)
        ensures
            r == (meta@.width == 0 || meta@.height == 0),
    {
        meta.width == 0 || meta.height == 0
    }

    /// The end of a store: where the size of the image could be read, its
    /// description is written anew with what was fetched and the size, also that
    /// of an image that was there already. Says whether it is to be written.
    pub fn sized(folder: &mut Folder, image: &StoredImage, width: i32, height: i32) -> (r: bool)
        ensures
            r == (width > 0 && height > 0),
            final(folder)@ == measured(old(folder)@, image@, width, height),
            final(folder).dir@ == old(folder).dir@,
    {
        let mut meta = image.meta.copy();
        if !Storage::record_dimensions(&mut meta, width, height) {
            return false;
        }
        let name = match file_name(image.json_path.as_str()) {
            Some(name) => name,
            None => image.json_path.clone(),
        };
        folder.put(DirFile { name, meta: Some(meta) });
        true
    }

    /// Records the size of an image, where it could be read; says whether.
    pub fn record_dimensions(meta: &mut ImageMeta, width: i32, height: i32) -> (r: bool)
        ensures
            r == (width > 0 && height > 0),
            final(meta)@ == (if r {
                (MetaView { width, height, ..old(meta)@ })
            } else {
                old(meta)@
            }),
    {
        if width > 0 && height > 0 {
            meta.width = width;
            meta.height = height;
            true
        } else {
            false
        }
    }
}

} // verus!
