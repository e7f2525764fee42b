//! Stored contents: hashes, repeats and days.

use vstd::prelude::*;

use crate::date::{compact, Date};
use crate::laws::texts::lemma_parts_of_text;
use crate::source::{text_at, FetchResult};
use crate::storage::{
    carries_hash, dated, describes, hash_at, hash_of, hex_char, hex_text, identity_in, repeated_at,
    sha256, stores, DirFile, FileView, ImageMeta, ImageView, MetaView, StoredImage,
};
use crate::storage_laws::lemma_hash_at;
use crate::text::{ends_with, opt_text, starts_with};

verus! {

/// What a small hexadecimal digit stands for.
pub open spec fn small_hex(c: char) -> int {
    if '0' <= c <= '9' {
        c as int - '0' as int
    } else {
        c as int - 'a' as int + 10
    }
}

/// Bytes are written in two hexadecimal digits each, in order.
pub proof fn lemma_hex_pairs(bytes: Seq<u8>)
    ensures
        hex_text(bytes).len() == 2 * bytes.len(),
        forall|i: int|
            0 <= i < bytes.len() ==> small_hex(hex_text(bytes)[2 * i]) * 16 + small_hex(
                hex_text(bytes)[2 * i + 1],
            ) == #[trigger] bytes[i],
    decreases bytes.len(),
{
    if bytes.len() > 0 {
        let rest = bytes.drop_last();
        lemma_hex_pairs(rest);
        assert forall|i: int| 0 <= i < bytes.len() implies small_hex(hex_text(bytes)[2 * i]) * 16
            + small_hex(hex_text(bytes)[2 * i + 1]) == #[trigger] bytes[i] by {
            if i < rest.len() {
                assert(rest[i] == bytes[i]);
                assert(hex_text(bytes)[2 * i] == hex_text(rest)[2 * i]);
                assert(hex_text(bytes)[2 * i + 1] == hex_text(rest)[2 * i + 1]);
            } else {
                lemma_hex_digit(bytes[i] as int / 16);
                lemma_hex_digit(bytes[i] as int % 16);
            }
        }
    }
}

proof fn lemma_hex_digit(n: int)
    requires
        0 <= n < 16,
    ensures
        small_hex(hex_char(n)) == n,
{
}

/// The hash of a content is its SHA-256, cut to the first six bytes.
pub proof fn lemma_hash_is_cut_digest(body: Seq<u8>, i: int)
    requires
        sha256(body).len() == 32,
        0 <= i < 6,
    ensures
        hash_of(body).len() == 12,
        small_hex(hash_of(body)[2 * i]) * 16 + small_hex(hash_of(body)[2 * i + 1])
            == sha256(body)[i],
{
    let cut = sha256(body).take(6);
    lemma_hex_pairs(cut);
    assert(cut[i] == sha256(body)[i]);
}

/// A file that holds the hash in its name is the one that a content repeats, if
/// it is the first.
pub proof fn lemma_repeat_by_content(
    files: Seq<FileView>,
    a: Seq<char>,
    hash: Seq<char>,
    b: Seq<char>,
    extra: Seq<(Seq<char>, Seq<char>)>,
    k: int,
)
    requires
        0 <= k < files.len(),
        files[k].name == a + ("_"@ + hash + "."@) + b,
        !ends_with(files[k].name, ".json"@),
        forall|i: int| 0 <= i < k ==> !carries_hash((#[trigger] files[i]).name, hash),
    ensures
        repeated_at(files, hash, extra) == k,
{
    lemma_parts_of_text(a, "_"@ + hash + "."@, b);
    lemma_hash_at(files, hash, 0);
    let h = hash_at(files, hash, 0);
    assert(carries_hash(files[k].name, hash));
    if h < k {
        assert(!carries_hash(files[h].name, hash));
    }
}

/// A repeated image is not written again: the image that is there is given back,
/// and the directory keeps its files, but for a description that was lost.
pub proof fn lemma_repeat_is_reused(
    dir: Seq<char>,
    files: Seq<FileView>,
    after: Seq<FileView>,
    ext: Seq<char>,
    meta: MetaView,
    stamp: Seq<char>,
    image: ImageView,
    writes_image: bool,
    writes_meta: bool,
)
    requires
        stores(dir, files, after, ext, meta, stamp, image, writes_image, writes_meta),
    ensures
        ({
            let k = repeated_at(files, meta.hash, meta.extra);
            &&& k < files.len() ==> !writes_image && image.reused && image.path
                == crate::path::joined(dir, files[k].name) && image.meta == meta
            &&& k < files.len() && !writes_meta ==> after == files
            &&& k >= files.len() ==> writes_image && writes_meta && !image.reused && image.meta
                == meta
        }),
{
}

/// Content decides before identity, and an image without an identity repeats
/// nothing but its content.
pub proof fn lemma_no_identity_no_repeat(
    files: Seq<FileView>,
    hash: Seq<char>,
    extra: Seq<(Seq<char>, Seq<char>)>,
)
    requires
        forall|i: int| 0 <= i < files.len() ==> !carries_hash((#[trigger] files[i]).name, hash),
        text_at(extra, "dedup-id"@) is None || text_at(extra, "dedup-id"@)->0.len() == 0,
    ensures
        repeated_at(files, hash, extra) == files.len(),
{
    lemma_hash_at(files, hash, 0);
    let h = hash_at(files, hash, 0);
    if h < files.len() {
        assert(!carries_hash(files[h].name, hash));
    }
}

/// The identity of an image is its text `dedup-id`, where that is not empty; a
/// description tells the same.
pub proof fn lemma_identities(extra: Seq<(Seq<char>, Seq<char>)>, id: Seq<char>, f: FileView)
    ensures
        text_at(extra, "dedup-id"@) == Some(id) && id.len() > 0 ==> identity_in(extra) == Some(id),
        text_at(extra, "dedup-id"@) is None ==> identity_in(extra) is None,
        describes(f, id) ==> f.meta is Some && text_at(f.meta->0.extra, "dedup-id"@) == Some(id),
{
}

/// A day is stored where a file's name begins with it, in eight digits.
pub proof fn lemma_day_is_stored(files: Seq<FileView>, d: Date, rest: Seq<char>, k: int)
    requires
        0 <= k < files.len(),
    ensures
        files[k].name == compact(d) + rest ==> dated(files, d),
        (forall|i: int| 0 <= i < files.len() ==> !starts_with((#[trigger] files[i]).name, compact(d)))
            ==> !dated(files, d),
{
    lemma_parts_of_text(Seq::empty(), compact(d), rest);
    if files[k].name == compact(d) + rest {
        assert(starts_with(files[k].name, compact(d)));
    }
}

/// What the models of a description, an image, a file and a fetch stand for.
pub proof fn lemma_models(m: ImageMeta, i: StoredImage, f: DirFile, r: FetchResult)
    ensures
        m@.source == m.source@ && m@.title == m.title@ && m@.copyright == opt_text(m.copyright)
            && m@.url == m.url@ && m@.downloaded_at == m.downloaded_at && m@.hash == m.hash@
            && m@.date == m.date@ && m@.width == m.width && m@.height == m.height && m@.extra
            == m.extra@,
        i@.path == i.path@ && i@.json_path == i.json_path@ && i@.meta == i.meta@ && i@.reused
            == i.reused,
        f@.name == f.name@ && (f.meta is Some ==> f@.meta == Some(f.meta->0@)) && (f.meta is None
            ==> f@.meta is None),
        r@.image_url == r.image_url@ && r@.title == r.title@ && r@.copyright == opt_text(
            r.copyright,
        ) && r@.date == r.date && r@.extra == r.extra@,
{
}

} // verus!
