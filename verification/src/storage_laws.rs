//! What holds of a directory of stored images across several operations.

use vstd::prelude::*;

use crate::date::{compact, iso, two_digits, year_text, Date};
use crate::http::{extension_for, is_image_extension};
use crate::path::{
    after_last, extension_at, extension_of, file_name_of, file_stem_of, settled, with_extension_of,
};
use crate::source::{text_at, FetchView};
use crate::storage::{
    belongs_to, candidate, carries_hash, dated, describes, description_at, file_at, first_free,
    free_for, has_file, hash_at, hash_of, hex_char, hex_text, identity_at, identity_in, image_at,
    image_for, images_among, lemma_newest_first, listing, meta_at, meta_for, new_image,
    newest_first, prefix_for, repeated_at, sha256, sidecar, stores, with_file, with_image,
    without_names, FileView, HASH_LEN, ImageView, MetaView,
};
use crate::text::{
    contains, decimal, ends_with, free_of, is_digit, occurs_at, starts_with, without_char,
    zero_padded,
};

verus! {

pub(crate) proof fn lemma_file_at(files: Seq<FileView>, name: Seq<char>, from: int)
    requires
        0 <= from <= files.len(),
    ensures
        from <= file_at(files, name, from) <= files.len(),
        file_at(files, name, from) < files.len() ==> files[file_at(files, name, from)].name == name,
        forall|i: int| from <= i < file_at(files, name, from) ==> (#[trigger] files[i]).name != name,
    decreases files.len() - from,
{
    if from < files.len() && files[from].name != name {
        lemma_file_at(files, name, from + 1);
    }
}

pub(crate) proof fn lemma_hash_at(files: Seq<FileView>, hash: Seq<char>, from: int)
    requires
        0 <= from <= files.len(),
    ensures
        from <= hash_at(files, hash, from) <= files.len(),
        hash_at(files, hash, from) < files.len() ==> carries_hash(
            files[hash_at(files, hash, from)].name,
            hash,
        ),
        forall|i: int|
            from <= i < hash_at(files, hash, from) ==> !carries_hash(
                (#[trigger] files[i]).name,
                hash,
            ),
    decreases files.len() - from,
{
    if from < files.len() && !carries_hash(files[from].name, hash) {
        lemma_hash_at(files, hash, from + 1);
    }
}

pub(crate) proof fn lemma_description_at(files: Seq<FileView>, id: Seq<char>, from: int)
    requires
        0 <= from <= files.len(),
    ensures
        from <= description_at(files, id, from) <= files.len(),
        description_at(files, id, from) < files.len() ==> describes(
            files[description_at(files, id, from)],
            id,
        ),
        forall|i: int|
            from <= i < description_at(files, id, from) ==> !describes(#[trigger] files[i], id),
    decreases files.len() - from,
{
    if from < files.len() && !describes(files[from], id) {
        lemma_description_at(files, id, from + 1);
    }
}

pub(crate) proof fn lemma_image_at(files: Seq<FileView>, json: Seq<char>, from: int)
    requires
        0 <= from <= files.len(),
    ensures
        from <= image_at(files, json, from) <= files.len(),
        image_at(files, json, from) < files.len() ==> belongs_to(
            files[image_at(files, json, from)].name,
            json,
        ),
        forall|i: int|
            from <= i < image_at(files, json, from) ==> !belongs_to(
                (#[trigger] files[i]).name,
                json,
            ),
    decreases files.len() - from,
{
    if from < files.len() && !belongs_to(files[from].name, json) {
        lemma_image_at(files, json, from + 1);
    }
}

/// The stem of a new file name.
pub open spec fn stem_for(meta: MetaView, stamp: Seq<char>, n: nat) -> Seq<char> {
    let prefix = prefix_for(meta.date, stamp);
    (if n == 0 {
        prefix
    } else {
        prefix + "-"@ + decimal(n)
    }) + "_"@ + meta.hash
}

/// A new image's name ends in its extension and carries its hash.
proof fn lemma_candidate(meta: MetaView, stamp: Seq<char>, ext: Seq<char>, n: nat)
    requires
        is_image_extension(ext),
    ensures
        candidate(prefix_for(meta.date, stamp), meta.hash, ext, n) == stem_for(meta, stamp, n)
            + seq!['.'] + ext,
        carries_hash(candidate(prefix_for(meta.date, stamp), meta.hash, ext, n), meta.hash),
        stem_for(meta, stamp, n).len() > 0,
{
    reveal_strlit("_");
    reveal_strlit(".");
    reveal_strlit(".json");
    reveal_strlit("jpg");
    reveal_strlit("jpeg");
    reveal_strlit("png");
    reveal_strlit("webp");
    reveal_strlit("avif");
    reveal_strlit("gif");
    reveal_strlit("tif");
    reveal_strlit("tiff");
    let prefix = prefix_for(meta.date, stamp);
    let name = candidate(prefix, meta.hash, ext, n);
    let numbered = if n == 0 {
        prefix
    } else {
        prefix + "-"@ + decimal(n)
    };
    assert(name =~= stem_for(meta, stamp, n) + seq!['.'] + ext);
    let part = "_"@ + meta.hash + "."@;
    let at = numbered.len() as int;
    assert(name.subrange(at, at + part.len()) =~= part);
    assert(occurs_at(name, part, at));
    assert(name.last() == ext.last());
    if ends_with(name, ".json"@) {
        let t = name.subrange(name.len() - 5, name.len() as int);
        assert(t[4] == name.last());
    }
}

/// A file of a new name is added at the end.
pub(crate) proof fn lemma_with_new_file(files: Seq<FileView>, f: FileView)
    requires
        !has_file(files, f.name),
    ensures
        with_file(files, f) == files.push(f),
{
    lemma_file_at(files, f.name, 0);
    let i = file_at(files, f.name, 0);
    if i < files.len() {
        assert(files[i].name == f.name);
    }
}

/// One copy per image: once content is stored under its hash, storing the same
/// content again finds that image, whatever its other metadata.
pub proof fn lemma_content_stored_once(
    files: Seq<FileView>,
    ext: Seq<char>,
    meta: MetaView,
    stamp: Seq<char>,
    name: Seq<char>,
    extra: Seq<(Seq<char>, Seq<char>)>,
)
    requires
        is_image_extension(ext),
        hash_at(files, meta.hash, 0) == files.len(),
        free_for(files, ext, meta, stamp, name),
    ensures
        ({
            let after = with_image(files, name, meta);
            &&& repeated_at(after, meta.hash, extra) == files.len()
            &&& after[files.len() as int].name == name
            &&& hash_at(after, meta.hash, 0) < after.len()
            &&& has_file(after, sidecar(name))
        }),
{
    let n = choose|n: nat|
        name == candidate(prefix_for(meta.date, stamp), meta.hash, ext, n) && #[trigger] first_free(
            files,
            prefix_for(meta.date, stamp),
            meta.hash,
            ext,
            n,
        );
    lemma_candidate(meta, stamp, ext, n);
    let image = FileView { name, meta: None };
    let json = FileView { name: sidecar(name), meta: Some(meta) };
    lemma_with_new_file(files, image);
    let mid = files.push(image);
    let after = with_image(files, name, meta);
    lemma_file_at(mid, sidecar(name), 0);
    let j = file_at(mid, sidecar(name), 0);
    lemma_hash_at(files, meta.hash, 0);
    lemma_hash_at(after, meta.hash, 0);
    let k = files.len() as int;
    assert(j != k) by {
        if j == k {
            assert(sidecar(name) == name);
            lemma_sidecar_differs(name, stem_for(meta, stamp, n), ext);
        }
    }
    assert(after[k] == image);
    assert forall|i: int| 0 <= i < k implies !carries_hash((#[trigger] after[i]).name, meta.hash) by {
        assert(!carries_hash(files[i].name, meta.hash));
        assert(after[i].name == files[i].name);
    }
    let h = hash_at(after, meta.hash, 0);
    if h < k {
        assert(!carries_hash(after[h].name, meta.hash));
    }
    if k < h {
        assert(!carries_hash(after[k].name, meta.hash));
    }
    let at = if j < mid.len() {
        j
    } else {
        mid.len() as int
    };
    assert(after[at].name == sidecar(name));
}

/// The same image is stored once: of two stores of the same content with the
/// same identity, the second reuses the image of the first.
pub proof fn lemma_same_content_reused(
    dir: Seq<char>,
    files: Seq<FileView>,
    mid: Seq<FileView>,
    after: Seq<FileView>,
    first: (Seq<char>, MetaView, Seq<char>, ImageView, bool, bool),
    second: (Seq<char>, MetaView, Seq<char>, ImageView, bool, bool),
)
    requires
        stores(dir, files, mid, first.0, first.1, first.2, first.3, first.4, first.5),
        stores(dir, mid, after, second.0, second.1, second.2, second.3, second.4, second.5),
        is_image_extension(first.0),
        first.1.hash == second.1.hash,
        identity_in(first.1.extra) == identity_in(second.1.extra),
    ensures
        second.3 == (ImageView { meta: second.1, reused: true, ..first.3 }),
        !second.4,
{
    let (ext, meta, stamp, image, writes_image, writes_meta) = first;
    let hash = meta.hash;
    let i = repeated_at(files, hash, meta.extra);
    lemma_hash_at(files, hash, 0);
    lemma_hash_at(mid, hash, 0);
    if i < files.len() {
        let h = hash_at(files, hash, 0);
        if h < files.len() {
            let name = files[h].name;
            if writes_meta {
                lemma_with_new_file(files, FileView { name: sidecar(name), meta: Some(meta) });
            }
            assert(mid[h] == files[h]);
            assert(hash_at(mid, hash, 0) == h) by {
                let k = hash_at(mid, hash, 0);
                if k < h {
                    assert(mid[k] == files[k]);
                }
            }
        } else {
            assert(mid == files);
        }
    } else {
        let name = choose|name: Seq<char>|
            {
                &&& #[trigger] free_for(files, ext, meta, stamp, name)
                &&& image == new_image(dir, name, meta)
                &&& mid == with_image(files, name, meta)
            };
        lemma_content_stored_once(files, ext, meta, stamp, name, second.1.extra);
    }
}

/// Every reply that is stored is stored under the extension of an image.
pub(crate) proof fn lemma_reply_extension(content_type: Option<Seq<char>>, url: Seq<char>)
    ensures
        is_image_extension(extension_for(content_type, url)),
{
}

pub(crate) proof fn lemma_after_last_none(p: Seq<char>, c: char)
    requires
        free_of(p, c),
    ensures
        after_last(p, c) == 0,
    decreases p.len(),
{
    if p.len() > 0 {
        assert(p[p.len() - 1] != c);
        assert forall|i: int| 0 <= i < p.drop_last().len() implies #[trigger] p.drop_last()[i]
            != c by {
            assert(p.drop_last()[i] == p[i]);
        }
        lemma_after_last_none(p.drop_last(), c);
    }
}

pub(crate) proof fn lemma_after_last_is(a: Seq<char>, b: Seq<char>, c: char)
    requires
        free_of(b, c),
    ensures
        after_last(a + seq![c] + b, c) == a.len() + 1,
    decreases b.len(),
{
    let p = a + seq![c] + b;
    if b.len() == 0 {
        assert(p.last() == c);
    } else {
        assert(p.last() == b[b.len() - 1]);
        assert forall|i: int| 0 <= i < b.drop_last().len() implies #[trigger] b.drop_last()[i]
            != c by {
            assert(b.drop_last()[i] == b[i]);
        }
        lemma_after_last_is(a, b.drop_last(), c);
        assert(p.drop_last() =~= a + seq![c] + b.drop_last());
    }
}

pub(crate) proof fn lemma_after_last_bounds(p: Seq<char>, c: char)
    ensures
        0 <= after_last(p, c) <= p.len(),
        forall|i: int| after_last(p, c) <= i < p.len() ==> p[i] != c,
    decreases p.len(),
{
    if p.len() > 0 && p.last() != c {
        lemma_after_last_bounds(p.drop_last(), c);
        assert forall|i: int| after_last(p, c) <= i < p.len() implies p[i] != c by {
            if i < p.len() - 1 {
                assert(p.drop_last()[i] == p[i]);
            }
        }
    }
}

/// A name that ends in an image's extension is no description file's.
proof fn lemma_sidecar_differs(name: Seq<char>, stem: Seq<char>, ext: Seq<char>)
    requires
        name == stem + seq!['.'] + ext,
        is_image_extension(ext),
        stem.len() > 0,
    ensures
        sidecar(name) != name,
{
    reveal_strlit("jpg");
    reveal_strlit("jpeg");
    reveal_strlit("png");
    reveal_strlit("webp");
    reveal_strlit("avif");
    reveal_strlit("gif");
    reveal_strlit("tif");
    reveal_strlit("tiff");
    reveal_strlit("json");
    assert(name.last() == ext.last());
    assert(settled(name) == name);
    lemma_after_last_bounds(name, '/');
    let s = after_last(name, '/');
    let base = name.skip(s);
    assert forall|i: int| stem.len() < i < name.len() implies name[i] != '/' by {
        assert(name[i] == ext[i - stem.len() - 1]);
    }
    assert(s <= stem.len()) by {
        lemma_after_last_char(name, '/');
    }
    assert(base.len() > 2 && base.last() == ext.last());
    assert(file_name_of(name) == Some(base));
    let w = sidecar(name);
    assert(w.last() == 'n');
}

proof fn lemma_after_last_char(p: Seq<char>, c: char)
    ensures
        after_last(p, c) > 0 ==> p[after_last(p, c) - 1] == c,
        0 <= after_last(p, c) <= p.len(),
    decreases p.len(),
{
    if p.len() > 0 && p.last() != c {
        lemma_after_last_char(p.drop_last(), c);
    }
}

/// The parts of a plain file name.
pub(crate) proof fn lemma_plain_name(stem: Seq<char>, ext: Seq<char>)
    requires
        stem.len() > 0,
        ext.len() > 0,
        free_of(stem, '/'),
        free_of(ext, '/'),
        free_of(ext, '.'),
    ensures
        extension_of(stem + seq!['.'] + ext) == Some(ext),
        file_stem_of(stem + seq!['.'] + ext) == Some(stem),
        sidecar(stem + seq!['.'] + ext) == stem + seq!['.'] + "json"@,
        with_extension_of(stem + seq!['.'] + ext, ""@) == stem,
{
    reveal_strlit("json");
    reveal_strlit("");
    let name = stem + seq!['.'] + ext;
    assert(name.last() == ext[ext.len() - 1]);
    assert(settled(name) == name);
    assert forall|i: int| 0 <= i < name.len() implies #[trigger] name[i] != '/' by {
        if i < stem.len() {
            assert(name[i] == stem[i]);
        } else if i > stem.len() {
            assert(name[i] == ext[i - stem.len() - 1]);
        }
    }
    lemma_after_last_none(name, '/');
    assert(name.skip(0) =~= name);
    assert(file_name_of(name) == Some(name));
    lemma_after_last_is(stem, ext, '.');
    let i = stem.len() as int + 1;
    assert(name.skip(i) =~= ext);
    assert(name.take(i - 1) =~= stem);
    assert(name.take(0) + stem =~= stem);
    assert(with_extension_of(name, ""@) =~= stem);
}

pub(crate) proof fn lemma_image_extension_plain(ext: Seq<char>)
    requires
        is_image_extension(ext),
    ensures
        ext.len() > 0,
        free_of(ext, '/'),
        free_of(ext, '.'),
{
    reveal_strlit("jpg");
    reveal_strlit("jpeg");
    reveal_strlit("png");
    reveal_strlit("webp");
    reveal_strlit("avif");
    reveal_strlit("gif");
    reveal_strlit("tif");
    reveal_strlit("tiff");
}

/// A new image and its description, at their places in the directory.
pub(crate) proof fn lemma_with_image(
    files: Seq<FileView>,
    ext: Seq<char>,
    meta: MetaView,
    stamp: Seq<char>,
    name: Seq<char>,
) -> (n: nat)
    requires
        is_image_extension(ext),
        free_for(files, ext, meta, stamp, name),
    ensures
        name == stem_for(meta, stamp, n) + seq!['.'] + ext,
        stem_for(meta, stamp, n).len() > 0,
        ({
            let after = with_image(files, name, meta);
            let j = file_at(after, sidecar(name), 0);
            &&& files.len() < after.len() <= files.len() + 2
            &&& after[files.len() as int] == (FileView { name, meta: None })
            &&& 0 <= j < after.len() && j != files.len()
            &&& j < files.len() ==> after.len() == files.len() + 1
            &&& after[j] == (FileView { name: sidecar(name), meta: Some(meta) })
            &&& forall|i: int|
                0 <= i < files.len() ==> (#[trigger] after[i]).name == files[i].name && (i != j
                    ==> after[i] == files[i])
        }),
{
    let n = choose|n: nat|
        name == candidate(prefix_for(meta.date, stamp), meta.hash, ext, n) && #[trigger] first_free(
            files,
            prefix_for(meta.date, stamp),
            meta.hash,
            ext,
            n,
        );
    lemma_candidate(meta, stamp, ext, n);
    lemma_sidecar_differs(name, stem_for(meta, stamp, n), ext);
    let image = FileView { name, meta: None };
    let json = FileView { name: sidecar(name), meta: Some(meta) };
    lemma_with_new_file(files, image);
    let mid = files.push(image);
    let after = with_image(files, name, meta);
    lemma_file_at(mid, sidecar(name), 0);
    lemma_file_at(after, sidecar(name), 0);
    let j = file_at(mid, sidecar(name), 0);
    let q = file_at(after, sidecar(name), 0);
    assert(mid[files.len() as int] == image);
    assert(after[j] == json);
    if q < j {
        assert(after[q].name == mid[q].name);
        assert(mid[q].name != sidecar(name));
    }
    if j < q {
        assert(after[j].name != sidecar(name));
    }
    assert(q == j);
    n
}

pub(crate) proof fn lemma_among(
    dir: Seq<char>,
    files: Seq<FileView>,
    n: int,
    k: int,
    image: ImageView,
)
    requires
        0 <= k < n <= files.len(),
        image_for(dir, files, files[k].name) == Some(image),
    ensures
        images_among(dir, files, n).contains(image),
    decreases n,
{
    let most = images_among(dir, files, n - 1);
    let all = images_among(dir, files, n);
    if k == n - 1 {
        assert(all[most.len() as int] == image);
    } else {
        lemma_among(dir, files, n - 1, k, image);
        let i = choose|i: int| 0 <= i < most.len() && most[i] == image;
        assert(all[i] == image);
    }
}

/// What was stored is listed.
pub proof fn lemma_stored_image_is_listed(
    dir: Seq<char>,
    files: Seq<FileView>,
    ext: Seq<char>,
    meta: MetaView,
    stamp: Seq<char>,
    name: Seq<char>,
)
    requires
        is_image_extension(ext),
        free_for(files, ext, meta, stamp, name),
        free_of(name, '/'),
    ensures
        listing(dir, with_image(files, name, meta)).contains(
            new_image(dir, name, meta),
        ),
{
    broadcast use vstd::seq_lib::group_to_multiset_ensures;

    let n = lemma_with_image(files, ext, meta, stamp, name);
    let after = with_image(files, name, meta);
    let stem = stem_for(meta, stamp, n);
    lemma_image_extension_plain(ext);
    assert forall|i: int| 0 <= i < stem.len() implies #[trigger] stem[i] != '/' by {
        assert(name[i] == stem[i]);
    }
    lemma_plain_name(stem, ext);
    let k = files.len() as int;
    let image = new_image(dir, name, meta);
    assert(meta_at(after, name) == Some(meta));
    assert(image_for(dir, after, after[k].name) == Some(image));
    let all = images_among(dir, after, after.len() as int);
    lemma_among(dir, after, after.len() as int, k, image);
    lemma_newest_first(all);
    assert(all.to_multiset().contains(image));
    assert(newest_first(all).to_multiset().contains(image));
}

/// One copy per source identity: once an image with an identity is stored, an
/// image with that identity but other content is recognised as that image.
pub proof fn lemma_identity_stored_once(
    files: Seq<FileView>,
    ext: Seq<char>,
    meta: MetaView,
    stamp: Seq<char>,
    name: Seq<char>,
    id: Seq<char>,
)
    requires
        is_image_extension(ext),
        free_for(files, ext, meta, stamp, name),
        text_at(meta.extra, "dedup-id"@) == Some(id),
        description_at(files, id, 0) == files.len(),
        forall|i: int|
            0 <= i < files.len() ==> !belongs_to((#[trigger] files[i]).name, sidecar(name)),
        free_of(name, '/'),
        forall|i: int| 0 <= i < name.len() - ext.len() - 1 ==> #[trigger] name[i] != '.',
    ensures
        identity_at(with_image(files, name, meta), id) == files.len(),
        with_image(files, name, meta)[files.len() as int].name == name,
{
    let n = lemma_with_image(files, ext, meta, stamp, name);
    let after = with_image(files, name, meta);
    let stem = stem_for(meta, stamp, n);
    let k = files.len() as int;
    let json = sidecar(name);
    let j = file_at(after, json, 0);
    reveal_strlit("json");
    lemma_image_extension_plain(ext);
    assert forall|i: int| 0 <= i < stem.len() implies #[trigger] stem[i] != '/' by {
        assert(name[i] == stem[i]);
    }
    assert forall|i: int| 0 <= i < stem.len() implies #[trigger] stem[i] != '.' by {
        assert(name[i] == stem[i]);
    }
    lemma_plain_name(stem, ext);
    lemma_plain_name(stem, "json"@);
    lemma_bare_name(stem);
    assert(describes(after[j], id));
    lemma_description_at(files, id, 0);
    lemma_description_at(after, id, 0);
    let d = description_at(after, id, 0);
    if d < j {
        if d < k {
            assert(after[d] == files[d]);
            assert(!describes(files[d], id));
        } else {
            assert(after[d] == FileView { name, meta: None::<MetaView> });
        }
    }
    if j < d {
        assert(!describes(after[j], id));
    }
    assert(d == j);
    lemma_image_at(after, json, 0);
    lemma_sidecar_differs(name, stem, ext);
    assert(belongs_to(after[k].name, json));
    let m = image_at(after, json, 0);
    if m < k {
        assert(!belongs_to(files[m].name, json));
        assert(after[m].name == files[m].name);
    }
    if k < m {
        assert(!belongs_to(after[k].name, json));
    }
}

/// A name without a dot is its own stem.
pub(crate) proof fn lemma_bare_name(stem: Seq<char>)
    requires
        stem.len() > 0,
        free_of(stem, '/'),
        free_of(stem, '.'),
    ensures
        file_stem_of(stem) == Some(stem),
{
    assert(stem[stem.len() - 1] != '/' && stem[stem.len() - 1] != '.');
    assert(settled(stem) == stem);
    lemma_after_last_none(stem, '/');
    assert(stem.skip(0) =~= stem);
    assert(stem[0] != '.');
    lemma_after_last_none(stem, '.');
}

proof fn lemma_without_append(a: Seq<char>, b: Seq<char>, c: char)
    ensures
        without_char(a + b, c) == without_char(a, c) + without_char(b, c),
    decreases b.len(),
{
    if b.len() == 0 {
        assert(a + b =~= a);
        assert(without_char(a, c) + without_char(b, c) =~= without_char(a, c));
    } else {
        assert((a + b).drop_last() =~= a + b.drop_last());
        lemma_without_append(a, b.drop_last(), c);
        assert(without_char(a + b, c) =~= without_char(a, c) + without_char(b, c));
    }
}

proof fn lemma_without_free(a: Seq<char>, c: char)
    requires
        free_of(a, c),
    ensures
        without_char(a, c) == a,
    decreases a.len(),
{
    if a.len() > 0 {
        assert(a[a.len() - 1] != c);
        assert forall|i: int| 0 <= i < a.drop_last().len() implies #[trigger] a.drop_last()[i]
            != c by {
            assert(a.drop_last()[i] == a[i]);
        }
        lemma_without_free(a.drop_last(), c);
        assert(without_char(a, c) =~= a);
    }
}

proof fn lemma_decimal_free(n: nat, c: char)
    requires
        !is_digit(c),
    ensures
        free_of(decimal(n), c),
    decreases n,
{
    if n >= 10 {
        lemma_decimal_free(n / 10, c);
        let d = decimal(n / 10);
        assert forall|i: int| 0 <= i < decimal(n).len() implies #[trigger] decimal(n)[i] != c by {
            if i < d.len() {
                assert(decimal(n)[i] == d[i]);
            }
        }
    }
}

proof fn lemma_padded_free(s: Seq<char>, width: int, c: char)
    requires
        !is_digit(c),
        free_of(s, c),
    ensures
        free_of(zero_padded(s, width), c),
    decreases width - s.len(),
{
    if s.len() < width {
        let t = seq!['0'] + s;
        assert forall|i: int| 0 <= i < t.len() implies #[trigger] t[i] != c by {
            if i > 0 {
                assert(t[i] == s[i - 1]);
            }
        }
        lemma_padded_free(t, width, c);
    }
}

/// A day without its dashes is the day in compact form.
pub proof fn lemma_compact_day(d: Date)
    requires
        d.year >= 0,
    ensures
        without_char(iso(d), '-') == compact(d),
{
    let y = year_text(d.year as int);
    let m = two_digits(d.month);
    let t = two_digits(d.day);
    let dash = seq!['-'];
    lemma_decimal_free(d.year as nat, '-');
    lemma_padded_free(decimal(d.year as nat), 4, '-');
    lemma_decimal_free(d.month as nat, '-');
    lemma_padded_free(decimal(d.month as nat), 2, '-');
    lemma_decimal_free(d.day as nat, '-');
    lemma_padded_free(decimal(d.day as nat), 2, '-');
    assert(free_of(y, '-')) by {
        if d.year > 9999 {
            let z = zero_padded(decimal(d.year as nat), 4);
            assert forall|i: int| 0 <= i < y.len() implies #[trigger] y[i] != '-' by {
                if i > 0 {
                    assert(y[i] == z[i - 1]);
                }
            }
        }
    }
    lemma_without_free(y, '-');
    lemma_without_free(m, '-');
    lemma_without_free(t, '-');
    assert(without_char(dash, '-') =~= Seq::empty()) by {
        assert(dash.drop_last() =~= Seq::empty());
        reveal_with_fuel(without_char, 2);
    }
    lemma_without_append(y, dash, '-');
    lemma_without_append(y + dash, m, '-');
    lemma_without_append(y + dash + m, dash, '-');
    lemma_without_append(y + dash + m + dash, t, '-');
    assert(without_char(iso(d), '-') =~= compact(d));
}

/// A stored image of a day is found by that day.
pub proof fn lemma_stored_day_is_found(
    files: Seq<FileView>,
    ext: Seq<char>,
    meta: MetaView,
    stamp: Seq<char>,
    name: Seq<char>,
    d: Date,
)
    requires
        is_image_extension(ext),
        free_for(files, ext, meta, stamp, name),
        d.year >= 0,
        meta.date == iso(d),
    ensures
        dated(with_image(files, name, meta), d),
{
    let n = lemma_with_image(files, ext, meta, stamp, name);
    let after = with_image(files, name, meta);
    lemma_compact_day(d);
    assert(iso(d).len() > 0);
    let prefix = compact(d);
    assert(prefix_for(meta.date, stamp) == prefix);
    assert(name.subrange(0, prefix.len() as int) =~= prefix);
    assert(starts_with(after[files.len() as int].name, prefix));
}

pub(crate) proof fn lemma_free_append(a: Seq<char>, b: Seq<char>, c: char)
    requires
        free_of(a, c),
        free_of(b, c),
    ensures
        free_of(a + b, c),
{
    assert forall|i: int| 0 <= i < (a + b).len() implies #[trigger] (a + b)[i] != c by {
        if i < a.len() {
            assert((a + b)[i] == a[i]);
        } else {
            assert((a + b)[i] == b[i - a.len()]);
        }
    }
}

proof fn lemma_without_keeps_free(a: Seq<char>, gone: char, c: char)
    requires
        free_of(a, c),
    ensures
        free_of(without_char(a, gone), c),
    decreases a.len(),
{
    if a.len() > 0 {
        let init = a.drop_last();
        assert forall|i: int| 0 <= i < init.len() implies #[trigger] init[i] != c by {
            assert(init[i] == a[i]);
        }
        assert(a[a.len() - 1] != c);
        lemma_without_keeps_free(init, gone, c);
        lemma_free_append(without_char(init, gone), seq![a.last()], c);
        assert(without_char(init, gone).push(a.last()) =~= without_char(init, gone) + seq![
            a.last(),
        ]);
    }
}

/// A day is written in digits and signs.
proof fn lemma_iso_free(d: Date, c: char)
    requires
        !is_digit(c),
        c != '-',
        c != '+',
    ensures
        free_of(iso(d), c),
{
    let years = if d.year < 0 {
        (-d.year) as nat
    } else {
        d.year as nat
    };
    let y = zero_padded(decimal(years), 4);
    lemma_decimal_free(years, c);
    lemma_padded_free(decimal(years), 4, c);
    lemma_decimal_free(d.month as nat, c);
    lemma_padded_free(decimal(d.month as nat), 2, c);
    lemma_decimal_free(d.day as nat, c);
    lemma_padded_free(decimal(d.day as nat), 2, c);
    lemma_free_append(seq!['-'], y, c);
    lemma_free_append(seq!['+'], y, c);
    let year = year_text(d.year as int);
    lemma_free_append(year, seq!['-'], c);
    lemma_free_append(year + seq!['-'], two_digits(d.month), c);
    lemma_free_append(year + seq!['-'] + two_digits(d.month), seq!['-'], c);
    lemma_free_append(year + seq!['-'] + two_digits(d.month) + seq!['-'], two_digits(d.day), c);
}

proof fn lemma_hex_free(bytes: Seq<u8>, c: char)
    requires
        c == '/' || c == '.',
    ensures
        free_of(hex_text(bytes), c),
    decreases bytes.len(),
{
    if bytes.len() > 0 {
        lemma_hex_free(bytes.drop_last(), c);
        let pair = seq![
            hex_char(bytes.last() as int / 16),
            hex_char(bytes.last() as int % 16),
        ];
        lemma_free_append(hex_text(bytes.drop_last()), pair, c);
    }
}

/// The stem of a new file name holds no dot and no separator.
pub(crate) proof fn lemma_stem_free(meta: MetaView, stamp: Seq<char>, n: nat, c: char)
    requires
        c == '/' || c == '.',
        free_of(stamp, c),
        free_of(meta.date, c),
        free_of(meta.hash, c),
    ensures
        free_of(stem_for(meta, stamp, n), c),
{
    reveal_strlit("-");
    reveal_strlit("_");
    let prefix = prefix_for(meta.date, stamp);
    lemma_without_keeps_free(meta.date, '-', c);
    lemma_decimal_free(n, c);
    lemma_free_append(prefix, "-"@, c);
    lemma_free_append(prefix + "-"@, decimal(n), c);
    let numbered = if n == 0 {
        prefix
    } else {
        prefix + "-"@ + decimal(n)
    };
    lemma_free_append(numbered, "_"@, c);
    lemma_free_append(numbered + "_"@, meta.hash, c);
}

/// The description of a fetched image holds no dot and no separator in what
/// names its file.
pub(crate) proof fn lemma_meta_free(source: Seq<char>, result: FetchView, now: i64, body: Seq<u8>, c: char)
    requires
        c == '/' || c == '.',
    ensures
        free_of(meta_for(source, result, now, hash_of(body)).date, c),
        free_of(meta_for(source, result, now, hash_of(body)).hash, c),
{
    if let Some(d) = result.date {
        lemma_iso_free(d, c);
    }
    lemma_hex_free(sha256(body).take(HASH_LEN as int / 2), c);
}

proof fn lemma_settled_prefix(p: Seq<char>) -> (n: int)
    ensures
        0 <= n <= p.len(),
        settled(p) == p.take(n),
        n < p.len() ==> p.last() == '/' || p.last() == '.',
    decreases p.len(),
{
    if p.len() > 1 && (p.last() == '/' || (p.last() == '.' && p[p.len() - 2] == '/')) {
        let n = lemma_settled_prefix(p.drop_last());
        assert(p.drop_last().take(n) =~= p.take(n));
        n
    } else {
        assert(p.take(p.len() as int) =~= p);
        p.len() as int
    }
}

/// A file with an extension that shares the description of an image carries
/// the hash of that image.
pub(crate) proof fn lemma_sharing_carries(f: Seq<char>, part: Seq<char>, hash: Seq<char>)
    requires
        extension_of(f) is Some,
        f != part + "_"@ + hash + seq!['.'] + "json"@,
        sidecar(f) == part + "_"@ + hash + seq!['.'] + "json"@,
        free_of(part + "_"@ + hash, '/'),
    ensures
        carries_hash(f, hash),
{
    reveal_strlit("json");
    reveal_strlit(".json");
    reveal_strlit("_");
    reveal_strlit(".");
    let stem = part + "_"@ + hash;
    let json = stem + seq!['.'] + "json"@;
    let n = lemma_settled_prefix(f);
    let q = settled(f);
    let s = after_last(q, '/');
    lemma_after_last_char(q, '/');
    let name = q.skip(s);
    let i = extension_at(name)->0;
    lemma_after_last_char(name, '.');
    let own = name.take(i - 1);
    let base = q.take(s) + own;
    assert(base + seq!['.'] + "json"@ == json);
    assert(base =~= stem) by {
        assert(base.len() == stem.len());
        assert forall|k: int| 0 <= k < base.len() implies base[k] == stem[k] by {
            assert((base + seq!['.'] + "json"@)[k] == base[k]);
            assert(json[k] == stem[k]);
        }
    }
    if s > 0 {
        assert(base[s - 1] == '/');
        assert(stem[s - 1] != '/');
    }
    assert(q.skip(0) =~= q);
    assert(own =~= stem);
    let piece = "_"@ + hash + "."@;
    let at = part.len() as int;
    assert(q[stem.len() as int] == '.');
    assert forall|k: int| 0 <= k < stem.len() implies f[k] == stem[k] by {
        assert(own[k] == q[k]);
    }
    assert(f[stem.len() as int] == '.');
    assert(f.subrange(at, at + piece.len()) =~= piece);
    assert(occurs_at(f, piece, at));
    if ends_with(f, ".json"@) {
        assert(f.last() == 'n') by {
            assert(f.subrange(f.len() - 5, f.len() as int)[4] == 'n');
        }
        assert(n == f.len());
        assert(q =~= f);
        lemma_after_last_bounds(name, '.');
        let tail = f.subrange(f.len() - 5, f.len() as int);
        assert(tail[0] == '.' && tail[1] == 'j' && tail[2] == 's' && tail[3] == 'o' && tail[4]
            == 'n');
        assert(f[f.len() - 5] == '.' && f[f.len() - 4] == 'j' && f[f.len() - 3] == 's' && f[f.len()
            - 2] == 'o');
        assert(i == f.len() - 4);
        assert(f =~= json);
    }
}

/// A name that ends in the extension of an image ends as no description does.
pub proof fn lemma_image_end(name: Seq<char>)
    requires
        extension_of(name) is Some,
        is_image_extension(extension_of(name)->0),
        free_of(name, '/'),
    ensures
        name.len() > 0,
        name.last() != 'n',
{
    reveal_strlit("jpg");
    reveal_strlit("jpeg");
    reveal_strlit("png");
    reveal_strlit("webp");
    reveal_strlit("avif");
    reveal_strlit("gif");
    reveal_strlit("tif");
    reveal_strlit("tiff");
    let e = extension_of(name)->0;
    if name.len() > 1 {
        assert(name[name.len() - 1] != '/' && name[name.len() - 2] != '/');
    }
    assert(settled(name) == name);
    lemma_after_last_none(name, '/');
    assert(name.skip(0) =~= name);
    let i = extension_at(name)->0;
    lemma_after_last_bounds(name, '.');
    assert(e == name.skip(i));
    assert(e.len() > 0);
    assert(name.last() == e.last());
}

/// The description of a file with an extension ends in `json`.
pub proof fn lemma_sidecar_end(name: Seq<char>)
    requires
        extension_of(name) is Some,
    ensures
        sidecar(name).len() > 0,
        sidecar(name).last() == 'n',
{
    reveal_strlit("json");
}

/// The images among the first files, once a new image and its description were
/// written, are those that were there before.
proof fn lemma_among_kept(
    dir: Seq<char>,
    files: Seq<FileView>,
    meta: MetaView,
    name: Seq<char>,
    n: int,
)
    requires
        0 <= n <= files.len(),
        ({
            let after = with_image(files, name, meta);
            let j = file_at(after, sidecar(name), 0);
            &&& files.len() < after.len() <= files.len() + 2
            &&& after[files.len() as int] == (FileView { name, meta: None })
            &&& 0 <= j < after.len() && j != files.len()
            &&& j < files.len() ==> after.len() == files.len() + 1
            &&& after[j] == (FileView { name: sidecar(name), meta: Some(meta) })
            &&& forall|i: int|
                0 <= i < files.len() ==> (#[trigger] after[i]).name == files[i].name && (i != j
                    ==> after[i] == files[i])
        }),
        extension_of(name) is Some,
        is_image_extension(extension_of(name)->0),
        free_of(name, '/'),
        forall|i: int|
            0 <= i < files.len() && image_for_name((#[trigger] files[i]).name) ==> sidecar(
                files[i].name,
            ) != sidecar(name),
    ensures
        images_among(dir, with_image(files, name, meta), n) == images_among(dir, files, n),
    decreases n,
{
    if n > 0 {
        lemma_among_kept(dir, files, meta, name, n - 1);
        let after = with_image(files, name, meta);
        let k = files.len() as int;
        let own = files[n - 1].name;
        assert(after[n - 1].name == own);
        if image_for_name(own) {
            let s = sidecar(own);
            lemma_sidecar_end(own);
            lemma_image_end(name);
            lemma_file_at(files, s, 0);
            lemma_file_at(after, s, 0);
            let a = file_at(files, s, 0);
            let b = file_at(after, s, 0);
            let j = file_at(after, sidecar(name), 0);
            if a < k {
                assert(after[a].name == s);
                if a < b {
                    assert(after[a].name != s);
                }
                if b < a {
                    assert(files[b].name != s);
                }
                assert(a == b);
            } else if b < after.len() {
                if b < k {
                    assert(files[b].name == s);
                } else if b == k {
                    assert(after[b].name == name);
                } else {
                    assert(b == k + 1 && j == k + 1);
                }
            }
        }
    }
}

/// A file that is an image by its name.
pub open spec fn image_for_name(name: Seq<char>) -> bool {
    extension_of(name) is Some && is_image_extension(extension_of(name)->0)
}

/// A new image joins the images that are listed, and changes none of them.
pub proof fn lemma_new_image_joins(
    dir: Seq<char>,
    files: Seq<FileView>,
    ext: Seq<char>,
    meta: MetaView,
    stamp: Seq<char>,
    name: Seq<char>,
)
    requires
        is_image_extension(ext),
        free_for(files, ext, meta, stamp, name),
        free_of(name, '/'),
        hash_at(files, meta.hash, 0) == files.len(),
    ensures
        listing(dir, with_image(files, name, meta)).to_multiset() == listing(
            dir,
            files,
        ).to_multiset().insert(new_image(dir, name, meta)),
        listing(dir, with_image(files, name, meta)).len() == listing(dir, files).len() + 1,
{
    broadcast use vstd::seq_lib::group_to_multiset_ensures;

    let n = lemma_with_image(files, ext, meta, stamp, name);
    let after = with_image(files, name, meta);
    let stem = stem_for(meta, stamp, n);
    let k = files.len() as int;
    lemma_image_extension_plain(ext);
    assert forall|i: int| 0 <= i < stem.len() implies #[trigger] stem[i] != '/' by {
        assert(name[i] == stem[i]);
    }
    lemma_plain_name(stem, ext);
    assert forall|i: int|
        0 <= i < files.len() && image_for_name((#[trigger] files[i]).name) implies sidecar(
        files[i].name,
    ) != sidecar(name) by {
        if sidecar(files[i].name) == sidecar(name) {
            let prefix = prefix_for(meta.date, stamp);
            let part = if n == 0 {
                prefix
            } else {
                prefix + "-"@ + decimal(n)
            };
            if files[i].name == sidecar(name) {
                reveal_strlit("json");
                lemma_plain_name(stem, "json"@);
                lemma_json_no_image();
            } else {
                lemma_sharing_carries(files[i].name, part, meta.hash);
            }
            lemma_hash_at(files, meta.hash, 0);
        }
    }
    lemma_among_kept(dir, files, meta, name, k);
    let image = new_image(dir, name, meta);
    let old = images_among(dir, files, k);
    assert(image_for(dir, after, after[k].name) == Some(image));
    assert(images_among(dir, after, k + 1) == old.push(image));
    let j = file_at(after, sidecar(name), 0);
    if after.len() == k + 2 {
        assert(j == k + 1);
        reveal_strlit("json");
        lemma_plain_name(stem, "json"@);
        lemma_json_no_image();
        assert(image_for(dir, after, after[k + 1].name) is None);
    }
    assert(images_among(dir, after, after.len() as int) == old.push(image));
    lemma_newest_first(old);
    lemma_newest_first(old.push(image));
}

proof fn lemma_json_no_image()
    ensures
        !is_image_extension("json"@),
{
    reveal_strlit("jpg");
    reveal_strlit("jpeg");
    reveal_strlit("png");
    reveal_strlit("webp");
    reveal_strlit("avif");
    reveal_strlit("gif");
    reveal_strlit("tif");
    reveal_strlit("tiff");
    reveal_strlit("json");
    assert("json"@[0] == 'j' && "json"@[1] == 's');
    assert("jpg"@[1] == 'p' && "jpeg"@[1] == 'p' && "png"@[0] == 'p' && "webp"@[0] == 'w'
        && "avif"@[0] == 'a' && "gif"@[0] == 'g' && "tif"@[0] == 't' && "tiff"@[0] == 't');
}

/// Deleting files removes them and no others.
pub proof fn lemma_deleted(files: Seq<FileView>, gone: Seq<Seq<char>>, name: Seq<char>)
    ensures
        has_file(without_names(files, gone), name) == (has_file(files, name) && !gone.contains(
            name,
        )),
    decreases files.len(),
{
    if files.len() > 0 {
        let init = files.drop_last();
        let before = without_names(init, gone);
        let after = without_names(files, gone);
        lemma_deleted(init, gone, name);
        if has_file(files, name) && !gone.contains(name) {
            let i = choose|i: int| 0 <= i < files.len() && (#[trigger] files[i]).name == name;
            if i < init.len() {
                assert(init[i].name == name);
                let k = choose|k: int| 0 <= k < before.len() && (#[trigger] before[k]).name == name;
                assert(after[k] == before[k]);
            } else {
                assert(after[after.len() - 1] == files.last());
            }
        }
        if has_file(after, name) {
            let k = choose|k: int| 0 <= k < after.len() && (#[trigger] after[k]).name == name;
            if k < before.len() {
                assert(before[k] == after[k]);
                let i = choose|i: int| 0 <= i < init.len() && (#[trigger] init[i]).name == name;
                assert(files[i] == init[i]);
            } else {
                assert(files[files.len() - 1].name == name);
            }
        }
    }
}

} // verus!
