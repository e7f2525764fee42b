//! What holds of whole stores: a reply is stored, and the size of the image is
//! recorded in its description.

use vstd::prelude::*;

use crate::http::{extension_for, is_image_extension, HttpResponse};
use crate::path::{extension_at, extension_of, joined, settled, stem_of_name};
use crate::source::{text_at, FetchView};
use crate::storage::{
    belongs_to, carries_hash, describes, description_at, entry_name, file_at, free_for, has_file,
    hash_at, hash_of, identity_at, identity_in, image_at, listing, measured, meta_for, new_image,
    prefix_for, repeated_at, sidecar, sized_meta, stores, stores_reply, with_file, with_image,
    FileView, ImageView, MetaView, Stored, HASH_LEN,
};
use crate::storage_laws::{
    lemma_after_last_bounds, lemma_after_last_is, lemma_after_last_none, lemma_bare_name,
    lemma_description_at, lemma_file_at, lemma_free_append, lemma_hash_at,
    lemma_identity_stored_once, lemma_image_at, lemma_image_extension_plain, lemma_meta_free,
    lemma_new_image_joins, lemma_plain_name, lemma_reply_extension, lemma_sharing_carries,
    lemma_stem_free, lemma_with_image, lemma_with_new_file, stem_for,
};
use crate::text::{decimal, ends_with, free_of, occurs_at, opt_text};

verus! {

/// A fetch and its reply: what was fetched, the reply, the time, the stamp, the
/// message for a reply that is no image, what the store came to, and the size
/// that was read of the image.
pub type Fetch = (
    FetchView,
    HttpResponse,
    i64,
    Seq<char>,
    Seq<char>,
    Result<Stored, String>,
    i32,
    i32,
);

/// The store of a reply from its begin to its end.
pub open spec fn stores_whole(
    dir: Seq<char>,
    files: Seq<FileView>,
    after: Seq<FileView>,
    source: Seq<char>,
    f: Fetch,
) -> bool {
    exists|mid: Seq<FileView>|
        #[trigger] stores_reply(dir, files, mid, source, f.0, f.1, f.2, f.3, f.4, f.5) && after == (
        if f.5 is Ok {
            measured(mid, f.5->Ok_0.image@, f.6, f.7)
        } else {
            mid
        })
}

/// The names in a directory, as they can be listed: none holds a separator, and
/// each has an extension.
pub open spec fn listed_names(files: Seq<FileView>) -> bool {
    forall|i: int|
        0 <= i < files.len() ==> free_of((#[trigger] files[i]).name, '/') && extension_of(
            files[i].name,
        ) is Some
}

/// Both directories have the same names, in the same order.
pub open spec fn same_names(a: Seq<FileView>, b: Seq<FileView>) -> bool {
    a.len() == b.len() && forall|i: int| 0 <= i < a.len() ==> (#[trigger] a[i]).name == b[i].name
}

/// The name of an entry is what was joined to the directory.
proof fn lemma_entry_name(dir: Seq<char>, name: Seq<char>)
    requires
        free_of(name, '/'),
        name.len() > 0,
        name.last() != '.',
    ensures
        entry_name(joined(dir, name)) == name,
{
    let p = joined(dir, name);
    assert(name[0] != '/' && name[name.len() - 1] != '/');
    assert(p.last() == name.last());
    assert(settled(p) == p);
    if dir.len() == 0 {
        assert(p =~= name);
        lemma_after_last_none(name, '/');
        assert(p.skip(0) =~= name);
    } else {
        let head = if dir.last() == '/' {
            dir.drop_last()
        } else {
            dir
        };
        assert(p =~= head + seq!['/'] + name);
        lemma_after_last_is(head, name, '/');
        assert(p.skip(head.len() as int + 1) =~= name);
    }
    assert(name != seq!['.'] && name != seq!['.', '.']);
}

/// The description of a listed file is a plain name, too.
proof fn lemma_sidecar_plain(name: Seq<char>)
    requires
        free_of(name, '/'),
        extension_of(name) is Some,
    ensures
        free_of(sidecar(name), '/'),
        sidecar(name).len() > 0,
        sidecar(name).last() == 'n',
        sidecar(name) == stem_of_name(name) + seq!['.'] + "json"@,
        stem_of_name(name).len() > 0,
        free_of(stem_of_name(name), '/'),
        extension_of(sidecar(name)) == Some("json"@),
{
    reveal_strlit("json");
    if name.len() > 1 {
        assert(name[name.len() - 1] != '/' && name[name.len() - 2] != '/');
    }
    assert(settled(name) == name);
    lemma_after_last_none(name, '/');
    assert(name.skip(0) =~= name);
    assert(name.take(0) =~= Seq::empty());
    let stem = stem_of_name(name);
    lemma_after_last_bounds(name, '.');
    let i = extension_at(name)->0;
    assert(stem == name.take(i - 1));
    let s = sidecar(name);
    assert(s =~= stem + seq!['.'] + "json"@);
    assert forall|k: int| 0 <= k < s.len() implies #[trigger] s[k] != '/' by {
        if k < stem.len() {
            assert(s[k] == name[k]);
        }
    }
    assert forall|k: int| 0 <= k < stem.len() implies #[trigger] stem[k] != '/' by {
        assert(stem[k] == name[k]);
    }
    lemma_plain_name(stem, "json"@);
}

proof fn lemma_hash_by_names(a: Seq<FileView>, b: Seq<FileView>, hash: Seq<char>, from: int)
    requires
        same_names(a, b),
        0 <= from <= a.len(),
    ensures
        hash_at(a, hash, from) == hash_at(b, hash, from),
    decreases a.len() - from,
{
    if from < a.len() {
        assert(a[from].name == b[from].name);
        lemma_hash_by_names(a, b, hash, from + 1);
    }
}

proof fn lemma_image_by_names(a: Seq<FileView>, b: Seq<FileView>, json: Seq<char>, from: int)
    requires
        same_names(a, b),
        0 <= from <= a.len(),
    ensures
        image_at(a, json, from) == image_at(b, json, from),
    decreases a.len() - from,
{
    if from < a.len() {
        assert(a[from].name == b[from].name);
        lemma_image_by_names(a, b, json, from + 1);
    }
}

/// Recording the size of an image whose description is there changes that
/// description alone.
proof fn lemma_measured(
    dir: Seq<char>,
    files: Seq<FileView>,
    name: Seq<char>,
    image: ImageView,
    w: i32,
    h: i32,
)
    requires
        free_of(name, '/'),
        extension_of(name) is Some,
        image.json_path == joined(dir, sidecar(name)),
        has_file(files, sidecar(name)),
    ensures
        ({
            let p = file_at(files, sidecar(name), 0);
            &&& 0 <= p < files.len()
            &&& files[p].name == sidecar(name)
            &&& measured(files, image, w, h) == (if w > 0 && h > 0 {
                files.update(
                    p,
                    FileView { name: sidecar(name), meta: Some(sized_meta(image.meta, w, h)) },
                )
            } else {
                files
            })
            &&& same_names(files, measured(files, image, w, h))
        }),
{
    lemma_sidecar_plain(name);
    lemma_entry_name(dir, sidecar(name));
    lemma_file_at(files, sidecar(name), 0);
    let i = choose|i: int| 0 <= i < files.len() && (#[trigger] files[i]).name == sidecar(name);
    let p = file_at(files, sidecar(name), 0);
    if p == files.len() {
        assert(files[i].name != sidecar(name));
    }
}

/// The identity of a reused image is found again once its size was recorded.
proof fn lemma_identity_measured(
    dir: Seq<char>,
    files: Seq<FileView>,
    image: ImageView,
    w: i32,
    h: i32,
    id: Seq<char>,
)
    requires
        listed_names(files),
        identity_at(files, id) < files.len(),
        image.json_path == joined(dir, sidecar(files[identity_at(files, id)].name)),
        text_at(image.meta.extra, "dedup-id"@) == Some(id),
    ensures
        0 <= identity_at(files, id),
        has_file(files, sidecar(files[identity_at(files, id)].name)),
        same_names(files, measured(files, image, w, h)),
        identity_at(measured(files, image, w, h), id) == identity_at(files, id),
{
    lemma_description_at(files, id, 0);
    let d = description_at(files, id, 0);
    lemma_image_at(files, files[d].name, 0);
    let i = identity_at(files, id);
    let json = files[d].name;
    assert(belongs_to(files[i].name, json));
    assert(sidecar(files[i].name) == json);
    assert(free_of(files[i].name, '/') && extension_of(files[i].name) is Some);
    lemma_measured(dir, files, files[i].name, image, w, h);
    let mid = measured(files, image, w, h);
    let p = file_at(files, json, 0);
    lemma_file_at(files, json, 0);
    assert(p <= d) by {
        if d < p {
            assert(files[d].name != json);
        }
    }
    if w > 0 && h > 0 {
        assert(extension_of(json) == Some("json"@));
        assert(describes(mid[p], id));
        lemma_description_at(mid, id, 0);
        let q = description_at(mid, id, 0);
        if q < p {
            assert(mid[q] == files[q]);
            assert(!describes(files[q], id));
        }
        if p < q {
            assert(!describes(mid[p], id));
        }
        assert(q == p);
        lemma_image_by_names(files, mid, json, 0);
    }
}

/// A new image whose size was recorded is a new image with that size.
proof fn lemma_new_measured(
    dir: Seq<char>,
    files: Seq<FileView>,
    ext: Seq<char>,
    meta: MetaView,
    stamp: Seq<char>,
    name: Seq<char>,
    w: i32,
    h: i32,
)
    requires
        is_image_extension(ext),
        free_for(files, ext, meta, stamp, name),
        free_of(name, '/'),
        extension_of(name) is Some,
    ensures
        measured(with_image(files, name, meta), new_image(dir, name, meta), w, h) == with_image(
            files,
            name,
            sized_meta(meta, w, h),
        ),
        free_for(files, ext, sized_meta(meta, w, h), stamp, name),
        has_file(with_image(files, name, meta), sidecar(name)),
        same_names(
            with_image(files, name, meta),
            with_image(files, name, sized_meta(meta, w, h)),
        ),
{
    let n = lemma_with_image(files, ext, meta, stamp, name);
    let all = with_image(files, name, meta);
    let image = new_image(dir, name, meta);
    let j = file_at(all, sidecar(name), 0);
    assert(all[j].name == sidecar(name));
    lemma_measured(dir, all, name, image, w, h);
    let sized = sized_meta(meta, w, h);
    assert(crate::storage::first_free(
        files,
        prefix_for(sized.date, stamp),
        sized.hash,
        ext,
        choose|n: nat|
            name == crate::storage::candidate(prefix_for(meta.date, stamp), meta.hash, ext, n)
                && #[trigger] crate::storage::first_free(
                files,
                prefix_for(meta.date, stamp),
                meta.hash,
                ext,
                n,
            ),
    ));
    assert(free_for(files, ext, sized, stamp, name));
    let base = with_file(files, FileView { name, meta: None });
    let f = FileView { name: sidecar(name), meta: Some(meta) };
    let g = FileView { name: sidecar(name), meta: Some(sized) };
    let p = file_at(base, sidecar(name), 0);
    lemma_file_at(base, sidecar(name), 0);
    lemma_file_at(all, sidecar(name), 0);
    assert(j == p) by {
        if j < p {
            assert(all[j] == base[j]);
            assert(base[j].name != sidecar(name));
        }
        if p < j {
            assert(all[p].name == sidecar(name));
            assert(all[p].name != sidecar(name));
        }
    }
    if p < base.len() {
        assert(all == base.update(p, f));
        assert(all.update(p, g) =~= base.update(p, g));
    } else {
        assert(all == base.push(f));
        assert(all.update(p, g) =~= base.push(g));
    }
    if !(w > 0 && h > 0) {
        assert(sized == meta);
    }
}

/// A stored image of a whole store: its name, and that its files are there.
proof fn lemma_whole(
    dir: Seq<char>,
    files: Seq<FileView>,
    after: Seq<FileView>,
    source: Seq<char>,
    f: Fetch,
) -> (r: (Seq<FileView>, Seq<char>))
    requires
        stores_whole(dir, files, after, source, f),
        f.5 is Ok,
        listed_names(files),
        free_of(f.3, '/'),
    ensures
        ({
            let meta = meta_for(source, f.0, f.2, hash_of(f.1.body@));
            let ext = extension_for(opt_text(f.1.content_type), f.0.image_url);
            let image = f.5->Ok_0.image@;
            let (mid, name) = r;
            &&& is_image_extension(ext)
            &&& stores(
                dir,
                files,
                mid,
                ext,
                meta,
                f.3,
                image,
                f.5->Ok_0.writes_image,
                f.5->Ok_0.writes_meta,
            )
            &&& after == measured(mid, image, f.6, f.7)
            &&& free_of(name, '/') && extension_of(name) is Some
            &&& image.path == joined(dir, name) && image.json_path == joined(dir, sidecar(name))
            &&& image.meta == meta
            &&& has_file(mid, sidecar(name))
            &&& same_names(mid, after)
            &&& mid == files || mid == with_file(
                files,
                FileView { name: sidecar(name), meta: Some(meta) },
            ) || mid == with_image(files, name, meta)
            &&& repeated_at(files, meta.hash, meta.extra) < files.len() ==> name
                == files[repeated_at(files, meta.hash, meta.extra)].name
            &&& repeated_at(files, meta.hash, meta.extra) >= files.len() ==> {
                &&& free_for(files, ext, meta, f.3, name)
                &&& image == new_image(dir, name, meta)
                &&& mid == with_image(files, name, meta)
                &&& after == with_image(files, name, sized_meta(meta, f.6, f.7))
                &&& free_for(files, ext, sized_meta(meta, f.6, f.7), f.3, name)
            }
        }),
{
    let mid = choose|mid: Seq<FileView>|
        #[trigger] stores_reply(dir, files, mid, source, f.0, f.1, f.2, f.3, f.4, f.5) && after == (
        if f.5 is Ok {
            measured(mid, f.5->Ok_0.image@, f.6, f.7)
        } else {
            mid
        });
    let meta = meta_for(source, f.0, f.2, hash_of(f.1.body@));
    let ext = extension_for(opt_text(f.1.content_type), f.0.image_url);
    let image = f.5->Ok_0.image@;
    lemma_reply_extension(opt_text(f.1.content_type), f.0.image_url);
    let i = repeated_at(files, meta.hash, meta.extra);
    lemma_hash_at(files, meta.hash, 0);
    if i < files.len() {
        let name = files[i].name;
        let hash = hash_at(files, meta.hash, 0);
        if hash == files.len() {
            let id = identity_in(meta.extra)->0;
            lemma_description_at(files, id, 0);
            let d = description_at(files, id, 0);
            lemma_image_at(files, files[d].name, 0);
            assert(belongs_to(name, files[d].name));
            assert(files[d].name == sidecar(name));
            assert(has_file(files, sidecar(name)));
            assert(mid == files);
        } else if f.5->Ok_0.writes_meta {
            lemma_with_new_file(files, FileView { name: sidecar(name), meta: Some(meta) });
            assert(mid[files.len() as int].name == sidecar(name));
        }
        assert(has_file(mid, sidecar(name)));
        assert(free_of(files[i].name, '/') && extension_of(files[i].name) is Some);
        lemma_measured(dir, mid, name, image, f.6, f.7);
        (mid, name)
    } else {
        let name = choose|name: Seq<char>|
            {
                &&& #[trigger] free_for(files, ext, meta, f.3, name)
                &&& image == new_image(dir, name, meta)
                &&& mid == with_image(files, name, meta)
            };
        lemma_new_name(files, source, f, ext, name);
        lemma_new_measured(dir, files, ext, meta, f.3, name, f.6, f.7);
        (mid, name)
    }
}

/// The name of a new image is plain.
proof fn lemma_new_name(
    files: Seq<FileView>,
    source: Seq<char>,
    f: Fetch,
    ext: Seq<char>,
    name: Seq<char>,
)
    requires
        is_image_extension(ext),
        free_of(f.3, '/'),
        free_for(files, ext, meta_for(source, f.0, f.2, hash_of(f.1.body@)), f.3, name),
    ensures
        free_of(name, '/'),
        extension_of(name) == Some(ext),
{
    let meta = meta_for(source, f.0, f.2, hash_of(f.1.body@));
    let n = lemma_with_image(files, ext, meta, f.3, name);
    let stem = stem_for(meta, f.3, n);
    lemma_image_extension_plain(ext);
    lemma_meta_free(source, f.0, f.2, f.1.body@, '/');
    lemma_stem_free(meta, f.3, n, '/');
    lemma_free_append(stem, seq!['.'], '/');
    lemma_free_append(stem + seq!['.'], ext, '/');
    lemma_plain_name(stem, ext);
}

/// The same image is stored once, however often it is downloaded: where two
/// replies have the same body and their fetches the same identity, storing the
/// second reuses the image of the first, writes no image file and adds none.
pub proof fn lemma_same_reply_stored_once(
    dir: Seq<char>,
    files: Seq<FileView>,
    mid: Seq<FileView>,
    after: Seq<FileView>,
    source: Seq<char>,
    first: Fetch,
    second: Fetch,
)
    requires
        stores_whole(dir, files, mid, source, first),
        stores_whole(dir, mid, after, source, second),
        first.5 is Ok,
        second.5 is Ok,
        first.1.body@ == second.1.body@,
        identity_in(first.0.extra) == identity_in(second.0.extra),
        listed_names(files),
        free_of(first.3, '/'),
        free_of(second.3, '/'),
    ensures
        second.5->Ok_0.image@.path == first.5->Ok_0.image@.path,
        second.5->Ok_0.image@.reused,
        !second.5->Ok_0.writes_image,
        same_names(mid, after),
{
    let (mid0, name) = lemma_whole(dir, files, mid, source, first);
    let hash = hash_of(first.1.body@);
    let meta = meta_for(source, first.0, first.2, hash);
    let ext = extension_for(opt_text(first.1.content_type), first.0.image_url);
    lemma_names_stay(files, mid0, mid, name, meta);
    let (after0, again) = lemma_whole(dir, mid, after, source, second);
    let i = repeated_at(files, hash, meta.extra);
    lemma_hash_at(files, hash, 0);
    lemma_hash_at(mid, hash, 0);
    lemma_hash_by_names(mid0, mid, hash, 0);
    if i < files.len() {
        let at = hash_at(files, hash, 0);
        if at < files.len() {
            if first.5->Ok_0.writes_meta {
                lemma_with_new_file(files, FileView { name: sidecar(name), meta: Some(meta) });
            }
            assert(mid0[at] == files[at]);
            lemma_hash_at(mid0, hash, 0);
            let k = hash_at(mid0, hash, 0);
            if k < at {
                assert(mid0[k] == files[k]);
                assert(!carries_hash(files[k].name, hash));
            }
            if at < k {
                assert(!carries_hash(mid0[at].name, hash));
            }
            assert(hash_at(mid, hash, 0) == at);
            assert(mid[at].name == mid0[at].name);
        } else {
            let id = identity_in(meta.extra)->0;
            lemma_identity_measured(
                dir,
                files,
                first.5->Ok_0.image@,
                first.6,
                first.7,
                id,
            );
            assert(mid0 == files);
            assert(identity_at(mid, id) == i);
            assert(mid[i].name == files[i].name);
        }
    } else {
        crate::storage_laws::lemma_content_stored_once(
            files,
            ext,
            meta,
            first.3,
            name,
            second.0.extra,
        );
        let k = files.len() as int;
        assert(hash_at(mid0, hash, 0) == k) by {
            assert(repeated_at(mid0, hash, second.0.extra) == k);
        }
        assert(mid[k].name == mid0[k].name);
    }
    assert(again == name);
    let at = choose|i: int| 0 <= i < mid0.len() && (#[trigger] mid0[i]).name == sidecar(name);
    assert(mid[at].name == sidecar(name));
    assert(has_file(mid, sidecar(name)));
    assert(after0 == mid);
}

/// One copy per source identity, however often it is downloaded: where two
/// fetches have the same identity and the content of the second is not stored,
/// storing the second reuses the image of the first, writes no image file and
/// adds none.
///
/// A description with the identity that has lost its image hides the image of
/// the first. Where the content of the first was stored before, its description
/// takes up the identity with the size of the image, so the size must be read;
/// and the name of that image must hold no dot but that of its extension.
pub proof fn lemma_same_identity_stored_once(
    dir: Seq<char>,
    files: Seq<FileView>,
    mid: Seq<FileView>,
    after: Seq<FileView>,
    source: Seq<char>,
    first: Fetch,
    second: Fetch,
    id: Seq<char>,
)
    requires
        stores_whole(dir, files, mid, source, first),
        stores_whole(dir, mid, after, source, second),
        first.5 is Ok,
        second.5 is Ok,
        identity_in(first.0.extra) == Some(id),
        identity_in(second.0.extra) == Some(id),
        hash_at(mid, hash_of(second.1.body@), 0) == mid.len(),
        listed_names(files),
        free_of(first.3, '/'),
        free_of(first.3, '.'),
        free_of(second.3, '/'),
        ({
            let at = hash_at(files, hash_of(first.1.body@), 0);
            if at < files.len() {
                &&& description_at(files, id, 0) == files.len()
                &&& first.6 > 0 && first.7 > 0
                &&& is_stored_name(files[at].name, hash_of(first.1.body@))
            } else {
                description_at(files, id, 0) == files.len() || identity_at(files, id) < files.len()
            }
        }),
    ensures
        second.5->Ok_0.image@.path == first.5->Ok_0.image@.path,
        second.5->Ok_0.image@.reused,
        !second.5->Ok_0.writes_image,
        same_names(mid, after),
{
    let (mid0, name) = lemma_whole(dir, files, mid, source, first);
    let hash = hash_of(first.1.body@);
    let meta = meta_for(source, first.0, first.2, hash);
    let ext = extension_for(opt_text(first.1.content_type), first.0.image_url);
    lemma_names_stay(files, mid0, mid, name, meta);
    let (after0, again) = lemma_whole(dir, mid, after, source, second);
    let at = hash_at(files, hash, 0);
    lemma_hash_at(files, hash, 0);
    if at < files.len() {
        lemma_identity_taken_up(dir, files, mid0, mid, source, first, name, id);
        assert(mid[at].name == name);
    } else if description_at(files, id, 0) == files.len() {
        lemma_new_identity(files, mid, source, first, ext, name, id);
    } else {
        lemma_identity_measured(dir, files, first.5->Ok_0.image@, first.6, first.7, id);
        assert(mid0 == files);
        let i = identity_at(files, id);
        assert(files[i].name == mid[i].name);
    }
    assert(again == name);
    assert(after0 == mid);
}

/// A name that a store gave: one dot, before the extension, and the hash in
/// front of it.
pub open spec fn is_stored_name(name: Seq<char>, hash: Seq<char>) -> bool {
    exists|part: Seq<char>, ext: Seq<char>|
        {
            &&& name == #[trigger] stored_as(part, hash, ext)
            &&& ext.len() > 0
            &&& free_of(part + "_"@ + hash, '.')
            &&& free_of(ext, '.')
            &&& ext != "json"@
        }
}

pub open spec fn stored_as(part: Seq<char>, hash: Seq<char>, ext: Seq<char>) -> Seq<char> {
    part + "_"@ + hash + seq!['.'] + ext
}

/// An image that was stored anew is found by its identity.
proof fn lemma_new_identity(
    files: Seq<FileView>,
    after: Seq<FileView>,
    source: Seq<char>,
    f: Fetch,
    ext: Seq<char>,
    name: Seq<char>,
    id: Seq<char>,
)
    requires
        is_image_extension(ext),
        listed_names(files),
        ({
            let meta = meta_for(source, f.0, f.2, hash_of(f.1.body@));
            &&& free_for(files, ext, sized_meta(meta, f.6, f.7), f.3, name)
            &&& after == with_image(files, name, sized_meta(meta, f.6, f.7))
        }),
        identity_in(f.0.extra) == Some(id),
        hash_at(files, hash_of(f.1.body@), 0) == files.len(),
        description_at(files, id, 0) == files.len(),
        free_of(f.3, '/'),
        free_of(f.3, '.'),
    ensures
        identity_at(after, id) == files.len(),
        files.len() < after.len(),
        after[files.len() as int].name == name,
{
    let hash = hash_of(f.1.body@);
    let meta = sized_meta(meta_for(source, f.0, f.2, hash), f.6, f.7);
    let n = lemma_with_image(files, ext, meta, f.3, name);
    let stem = stem_for(meta, f.3, n);
    lemma_image_extension_plain(ext);
    lemma_meta_free(source, f.0, f.2, f.1.body@, '/');
    lemma_meta_free(source, f.0, f.2, f.1.body@, '.');
    lemma_stem_free(meta, f.3, n, '/');
    lemma_stem_free(meta, f.3, n, '.');
    lemma_plain_name(stem, ext);
    lemma_free_append(stem, seq!['.'], '/');
    lemma_free_append(stem + seq!['.'], ext, '/');
    assert forall|i: int| 0 <= i < name.len() - ext.len() - 1 implies #[trigger] name[i]
        != '.' by {
        assert(name[i] == stem[i]);
    }
    assert forall|i: int| 0 <= i < files.len() implies !belongs_to(
        (#[trigger] files[i]).name,
        sidecar(name),
    ) by {
        if belongs_to(files[i].name, sidecar(name)) {
            let prefix = prefix_for(meta.date, f.3);
            let part = if n == 0 {
                prefix
            } else {
                prefix + "-"@ + decimal(n)
            };
            lemma_sharing_carries(files[i].name, part, hash);
            lemma_hash_at(files, hash, 0);
        }
    }
    lemma_identity_stored_once(files, ext, meta, f.3, name, id);
}

/// An image that was there already takes up the identity with its size.
proof fn lemma_identity_taken_up(
    dir: Seq<char>,
    files: Seq<FileView>,
    mid: Seq<FileView>,
    after: Seq<FileView>,
    source: Seq<char>,
    f: Fetch,
    name: Seq<char>,
    id: Seq<char>,
)
    requires
        listed_names(files),
        f.6 > 0,
        f.7 > 0,
        f.5 is Ok,
        ({
            let hash = hash_of(f.1.body@);
            let at = hash_at(files, hash, 0);
            let json = FileView {
                name: sidecar(name),
                meta: Some(meta_for(source, f.0, f.2, hash)),
            };
            &&& 0 <= at < files.len()
            &&& name == files[at].name
            &&& is_stored_name(name, hash)
            &&& has_file(mid, sidecar(name))
            &&& mid == files || (mid == with_file(files, json) && !has_file(files, sidecar(name)))
            &&& f.5->Ok_0.image@.json_path == joined(dir, sidecar(name))
            &&& f.5->Ok_0.image@.meta == meta_for(source, f.0, f.2, hash)
        }),
        after == measured(mid, f.5->Ok_0.image@, f.6, f.7),
        identity_in(f.0.extra) == Some(id),
        description_at(files, id, 0) == files.len(),
    ensures
        identity_at(after, id) == hash_at(files, hash_of(f.1.body@), 0),
        files.len() <= after.len(),
        after[hash_at(files, hash_of(f.1.body@), 0)].name == name,
{
    let hash = hash_of(f.1.body@);
    let at = hash_at(files, hash, 0);
    let meta = meta_for(source, f.0, f.2, hash);
    let image = f.5->Ok_0.image@;
    let json = sidecar(name);
    let (part, ext) = choose|part: Seq<char>, ext: Seq<char>|
        {
            &&& name == #[trigger] stored_as(part, hash, ext)
            &&& ext.len() > 0
            &&& free_of(part + "_"@ + hash, '.')
            &&& free_of(ext, '.')
            &&& ext != "json"@
        };
    let stem = part + "_"@ + hash;
    assert(free_of(files[at].name, '/') && extension_of(files[at].name) is Some);
    if mid != files {
        lemma_with_new_file(files, FileView { name: json, meta: Some(meta) });
    }
    lemma_measured(dir, mid, name, image, f.6, f.7);
    lemma_sidecar_plain(name);
    reveal_strlit("_");
    reveal_strlit("json");
    assert forall|i: int| 0 <= i < stem.len() implies #[trigger] stem[i] != '/' by {
        assert(name[i] == stem[i]);
    }
    assert forall|i: int| 0 <= i < ext.len() implies #[trigger] ext[i] != '/' by {
        assert(name[stem.len() + 1 + i] == ext[i]);
    }
    lemma_plain_name(stem, ext);
    lemma_plain_name(stem, "json"@);
    lemma_bare_name(stem);
    assert(json == stem + seq!['.'] + "json"@);
    assert(name != json) by {
        if name == json {
            assert(name.skip(stem.len() as int + 1) =~= ext);
            assert(json.skip(stem.len() as int + 1) =~= "json"@);
        }
    }
    let p = file_at(mid, json, 0);
    assert(describes(after[p], id));
    lemma_description_at(files, id, 0);
    lemma_description_at(after, id, 0);
    let d = description_at(after, id, 0);
    assert(d == p) by {
        if p < d {
            assert(!describes(after[p], id));
        }
        if d < p {
            assert(after[d] == mid[d]);
            if d < files.len() {
                assert(mid[d] == files[d]);
                assert(!describes(files[d], id));
            }
        }
    }
    assert(belongs_to(name, json));
    lemma_image_at(after, json, 0);
    let q = image_at(after, json, 0);
    assert(mid[at] == files[at]);
    assert(mid[at].name == after[at].name);
    if at < q {
        assert(!belongs_to(after[at].name, json));
    }
    if q < at {
        assert(mid[q].name == after[q].name);
        assert(mid[q] == files[q]);
        lemma_sharing_carries(files[q].name, part, hash);
        lemma_hash_at(files, hash, 0);
        assert(!carries_hash(files[q].name, hash));
    }
}

/// What was stored is listed with its size, beside what was listed before.
pub proof fn lemma_stored_reply_is_listed(
    dir: Seq<char>,
    files: Seq<FileView>,
    after: Seq<FileView>,
    source: Seq<char>,
    f: Fetch,
)
    requires
        stores_whole(dir, files, after, source, f),
        f.5 is Ok,
        f.5->Ok_0.writes_image,
        listed_names(files),
        free_of(f.3, '/'),
    ensures
        ({
            let image = f.5->Ok_0.image@;
            let sized = ImageView { meta: sized_meta(image.meta, f.6, f.7), ..image };
            &&& !image.reused
            &&& listing(dir, after).contains(sized)
            &&& listing(dir, after).to_multiset() == listing(dir, files).to_multiset().insert(sized)
            &&& listing(dir, after).len() == listing(dir, files).len() + 1
        }),
{
    broadcast use vstd::seq_lib::group_to_multiset_ensures;

    let (mid, name) = lemma_whole(dir, files, after, source, f);
    let meta = meta_for(source, f.0, f.2, hash_of(f.1.body@));
    let ext = extension_for(opt_text(f.1.content_type), f.0.image_url);
    lemma_hash_at(files, meta.hash, 0);
    lemma_new_image_joins(dir, files, ext, sized_meta(meta, f.6, f.7), f.3, name);
    let sized = new_image(dir, name, sized_meta(meta, f.6, f.7));
    assert(listing(dir, after).to_multiset().contains(sized));
}

/// An image of another identity is added: where neither its content nor its
/// identity is stored, it is stored beside the others, and listed with them.
pub proof fn lemma_other_identity_added(
    dir: Seq<char>,
    files: Seq<FileView>,
    mid: Seq<FileView>,
    after: Seq<FileView>,
    source: Seq<char>,
    first: Fetch,
    second: Fetch,
    id: Seq<char>,
)
    requires
        stores_whole(dir, files, mid, source, first),
        stores_whole(dir, mid, after, source, second),
        first.5 is Ok,
        second.5 is Ok,
        first.5->Ok_0.writes_image,
        text_at(first.0.extra, "dedup-id"@) != Some(id),
        identity_in(second.0.extra) == Some(id),
        description_at(files, id, 0) == files.len(),
        hash_at(mid, hash_of(second.1.body@), 0) == mid.len(),
        listed_names(files),
        free_of(first.3, '/'),
        free_of(second.3, '/'),
    ensures
        second.5->Ok_0.writes_image,
        !second.5->Ok_0.image@.reused,
        ({
            let a = first.5->Ok_0.image@;
            let b = second.5->Ok_0.image@;
            let one = ImageView { meta: sized_meta(a.meta, first.6, first.7), ..a };
            let two = ImageView { meta: sized_meta(b.meta, second.6, second.7), ..b };
            &&& listing(dir, after).contains(one)
            &&& listing(dir, after).contains(two)
            &&& listing(dir, after).len() == listing(dir, mid).len() + 1
        }),
{
    broadcast use vstd::seq_lib::group_to_multiset_ensures;

    let (mid0, name) = lemma_whole(dir, files, mid, source, first);
    let hash = hash_of(first.1.body@);
    let meta = meta_for(source, first.0, first.2, hash);
    let ext = extension_for(opt_text(first.1.content_type), first.0.image_url);
    lemma_names_stay(files, mid0, mid, name, meta);
    lemma_unknown_identity(
        files,
        ext,
        sized_meta(meta, first.6, first.7),
        first.3,
        name,
        id,
    );
    let (after0, other) = lemma_whole(dir, mid, after, source, second);
    lemma_stored_reply_is_listed(dir, files, mid, source, first);
    lemma_stored_reply_is_listed(dir, mid, after, source, second);
    let a = first.5->Ok_0.image@;
    let one = ImageView { meta: sized_meta(a.meta, first.6, first.7), ..a };
    assert(listing(dir, mid).to_multiset().contains(one));
    assert(listing(dir, after).to_multiset().contains(one));
}

/// A new image brings no identity but its own.
proof fn lemma_unknown_identity(
    files: Seq<FileView>,
    ext: Seq<char>,
    meta: MetaView,
    stamp: Seq<char>,
    name: Seq<char>,
    id: Seq<char>,
)
    requires
        is_image_extension(ext),
        free_for(files, ext, meta, stamp, name),
        text_at(meta.extra, "dedup-id"@) != Some(id),
        description_at(files, id, 0) == files.len(),
    ensures
        description_at(with_image(files, name, meta), id, 0) == with_image(files, name, meta).len(),
{
    let n = lemma_with_image(files, ext, meta, stamp, name);
    let all = with_image(files, name, meta);
    let j = file_at(all, sidecar(name), 0);
    lemma_description_at(files, id, 0);
    lemma_description_at(all, id, 0);
    let d = description_at(all, id, 0);
    if d < all.len() {
        if d == j {
            assert(all[d].meta == Some(meta));
        } else if d < files.len() {
            assert(all[d] == files[d]);
            assert(!describes(files[d], id));
        }
    }
}

/// What names the file of an image: no separator, no dot, and a content hash of
/// the usual length.
pub open spec fn names_plainly(meta: MetaView, stamp: Seq<char>) -> bool {
    &&& free_of(meta.date, '/') && free_of(meta.date, '.')
    &&& free_of(meta.hash, '/') && free_of(meta.hash, '.')
    &&& free_of(stamp, '/') && free_of(stamp, '.')
    &&& meta.hash.len() == HASH_LEN
}

/// Identities in a directory that was empty: an image is stored; other content
/// with the same identity reuses it, and the directory still lists one image;
/// an image of another identity is stored beside it, and two are listed.
pub proof fn lemma_identities_kept_apart(
    dir: Seq<char>,
    one: Seq<FileView>,
    two: Seq<FileView>,
    three: Seq<FileView>,
    first: (Seq<char>, MetaView, Seq<char>, ImageView, bool, bool),
    second: (Seq<char>, MetaView, Seq<char>, ImageView, bool, bool),
    third: (Seq<char>, MetaView, Seq<char>, ImageView, bool, bool),
    id: Seq<char>,
    other: Seq<char>,
)
    requires
        stores(
            dir,
            Seq::empty(),
            one,
            first.0,
            first.1,
            first.2,
            first.3,
            first.4,
            first.5,
        ),
        stores(dir, one, two, second.0, second.1, second.2, second.3, second.4, second.5),
        stores(dir, two, three, third.0, third.1, third.2, third.3, third.4, third.5),
        is_image_extension(first.0),
        is_image_extension(third.0),
        names_plainly(first.1, first.2),
        names_plainly(third.1, third.2),
        second.1.hash.len() == HASH_LEN,
        second.1.hash != first.1.hash,
        third.1.hash != first.1.hash,
        identity_in(first.1.extra) == Some(id),
        identity_in(second.1.extra) == Some(id),
        identity_in(third.1.extra) == Some(other),
        other != id,
    ensures
        !first.3.reused,
        second.3.reused,
        second.3.path == first.3.path,
        listing(dir, two).len() == 1,
        !third.3.reused,
        listing(dir, three).len() == 2,
        listing(dir, three).contains(first.3),
        listing(dir, three).contains(third.3),
{
    broadcast use vstd::seq_lib::group_to_multiset_ensures;

    let none = Seq::<FileView>::empty();
    let name = choose|name: Seq<char>|
        {
            &&& #[trigger] free_for(none, first.0, first.1, first.2, name)
            &&& first.3 == new_image(dir, name, first.1)
            &&& one == with_image(none, name, first.1)
        };
    lemma_plain_new(none, first.0, first.1, first.2, name);
    lemma_identity_stored_once(none, first.0, first.1, first.2, name, id);
    lemma_new_image_joins(dir, none, first.0, first.1, first.2, name);
    assert(crate::storage::images_among(dir, none, 0) =~= Seq::empty());
    assert(listing(dir, none).len() == 0);
    lemma_other_hash(none, first.0, first.1, first.2, name, second.1.hash);
    lemma_other_hash(none, first.0, first.1, first.2, name, third.1.hash);
    assert(two == one);
    lemma_unknown_identity(none, first.0, first.1, first.2, name, other);
    let third_name = choose|name: Seq<char>|
        {
            &&& #[trigger] free_for(two, third.0, third.1, third.2, name)
            &&& third.3 == new_image(dir, name, third.1)
            &&& three == with_image(two, name, third.1)
        };
    lemma_plain_new(two, third.0, third.1, third.2, third_name);
    lemma_new_image_joins(dir, two, third.0, third.1, third.2, third_name);
    assert(listing(dir, one).to_multiset().contains(first.3));
    assert(listing(dir, three).to_multiset().contains(first.3));
    assert(listing(dir, three).to_multiset().contains(third.3));
}

/// The name of a new image holds no separator, and one dot.
proof fn lemma_plain_new(
    files: Seq<FileView>,
    ext: Seq<char>,
    meta: MetaView,
    stamp: Seq<char>,
    name: Seq<char>,
)
    requires
        is_image_extension(ext),
        free_for(files, ext, meta, stamp, name),
        names_plainly(meta, stamp),
    ensures
        free_of(name, '/'),
        forall|i: int| 0 <= i < name.len() - ext.len() - 1 ==> #[trigger] name[i] != '.',
{
    let n = lemma_with_image(files, ext, meta, stamp, name);
    let stem = stem_for(meta, stamp, n);
    lemma_image_extension_plain(ext);
    lemma_stem_free(meta, stamp, n, '/');
    lemma_stem_free(meta, stamp, n, '.');
    lemma_free_append(stem, seq!['.'], '/');
    lemma_free_append(stem + seq!['.'], ext, '/');
    assert forall|i: int| 0 <= i < name.len() - ext.len() - 1 implies #[trigger] name[i]
        != '.' by {
        assert(name[i] == stem[i]);
    }
}

/// The first image of a directory carries no other hash of the same length.
proof fn lemma_other_hash(
    files: Seq<FileView>,
    ext: Seq<char>,
    meta: MetaView,
    stamp: Seq<char>,
    name: Seq<char>,
    hash: Seq<char>,
)
    requires
        files.len() == 0,
        is_image_extension(ext),
        free_for(files, ext, meta, stamp, name),
        names_plainly(meta, stamp),
        hash.len() == meta.hash.len(),
        hash != meta.hash,
    ensures
        hash_at(with_image(files, name, meta), hash, 0) == with_image(files, name, meta).len(),
{
    reveal_strlit("_");
    reveal_strlit(".");
    reveal_strlit("json");
    reveal_strlit(".json");
    let n = lemma_with_image(files, ext, meta, stamp, name);
    let all = with_image(files, name, meta);
    let stem = stem_for(meta, stamp, n);
    lemma_image_extension_plain(ext);
    lemma_stem_free(meta, stamp, n, '/');
    lemma_stem_free(meta, stamp, n, '.');
    lemma_plain_name(stem, ext);
    lemma_hash_at(all, hash, 0);
    let k = hash_at(all, hash, 0);
    let piece = "_"@ + hash + "."@;
    if k < all.len() {
        if k == 0 {
            let at = choose|at: int| occurs_at(name, piece, at);
            let end = at + piece.len() - 1;
            assert(name.subrange(at, at + piece.len())[piece.len() - 1] == '.');
            assert(name[end] == '.');
            assert(end == stem.len()) by {
                if end < stem.len() {
                    assert(name[end] == stem[end]);
                } else if end > stem.len() {
                    assert(name[end] == ext[end - stem.len() - 1]);
                }
            }
            assert forall|i: int| 0 <= i < hash.len() implies hash[i] == meta.hash[i] by {
                assert(name.subrange(at, at + piece.len())[i + 1] == piece[i + 1]);
                assert(piece[i + 1] == hash[i]);
                assert(name[at + 1 + i] == stem[at + 1 + i]);
                assert(stem[at + 1 + i] == meta.hash[i]);
            }
            assert(hash =~= meta.hash);
        } else {
            let s = all[k].name;
            assert(s == sidecar(name));
            assert(s.subrange(s.len() - 5, s.len() as int) =~= ".json"@);
            assert(ends_with(s, ".json"@));
        }
    }
}

proof fn lemma_put_listed(files: Seq<FileView>, f: FileView)
    requires
        listed_names(files),
        free_of(f.name, '/'),
        extension_of(f.name) is Some,
    ensures
        listed_names(with_file(files, f)),
{
    let out = with_file(files, f);
    lemma_file_at(files, f.name, 0);
    assert forall|i: int| 0 <= i < out.len() implies free_of((#[trigger] out[i]).name, '/')
        && extension_of(out[i].name) is Some by {
        if out[i] != f {
            assert(out[i] == files[i]);
        }
    }
}

/// A store keeps the names plain.
proof fn lemma_names_stay(
    files: Seq<FileView>,
    mid: Seq<FileView>,
    after: Seq<FileView>,
    name: Seq<char>,
    meta: MetaView,
)
    requires
        listed_names(files),
        free_of(name, '/'),
        extension_of(name) is Some,
        same_names(mid, after),
        mid == files || mid == with_file(
            files,
            FileView { name: sidecar(name), meta: Some(meta) },
        ) || mid == with_image(files, name, meta),
    ensures
        listed_names(after),
{
    lemma_sidecar_plain(name);
    let image = FileView { name, meta: None };
    let json = FileView { name: sidecar(name), meta: Some(meta) };
    lemma_put_listed(files, image);
    lemma_put_listed(with_file(files, image), json);
    lemma_put_listed(files, json);
    assert forall|i: int| 0 <= i < after.len() implies free_of((#[trigger] after[i]).name, '/')
        && extension_of(after[i].name) is Some by {
        assert(mid[i].name == after[i].name);
    }
}

} // verus!
