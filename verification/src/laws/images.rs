//! Stored images: what a store keeps of a fetch, and what is listed of it.

use vstd::prelude::*;

use crate::date::{day_number, iso, lemma_day_with_number, utc_day_number, valid, Date};
use crate::http::{extension_for, is_image_extension, media_type, type_extension};
use crate::laws::paths::lemma_ending_of_path;
use crate::laws::texts::{lemma_first_place, lemma_trim_takes_ends};
use crate::path::{joined, parent_of, settled};
use crate::source::FetchView;
use crate::storage::{
    candidate, file_at, files_of_image, first_free, free_for, has_file, hash_of, image_for,
    images_among, lemma_newest_first, listing, measured, meta_at, meta_for, new_image, newer,
    newest_first, prefix_for, reply_extension, sidecar, sized_meta, stores, stores_reply, with_image,
    without_names, FileView, ImageView, MetaView,
};
use crate::storage_laws::{
    image_for_name, lemma_after_last_none, lemma_among, lemma_deleted, lemma_file_at,
    lemma_image_extension_plain, lemma_plain_name, lemma_stem_free, stem_for,
};
use crate::store_laws::{lemma_stored_reply_is_listed, listed_names, stores_whole, Fetch};
use crate::text::{decimal, free_of, lower, precedes, starts_with, without_char};

verus! {

/// The description of a fetched image says what was fetched: its title, credit,
/// address, day and further texts are those of the fetch. Beside them stand the
/// source, the time and the hash.
pub proof fn lemma_description_of_fetch(
    source: Seq<char>,
    result: FetchView,
    now: i64,
    hash: Seq<char>,
)
    ensures
        meta_for(source, result, now, hash).title == result.title,
        meta_for(source, result, now, hash).copyright == result.copyright,
        meta_for(source, result, now, hash).url == result.image_url,
        meta_for(source, result, now, hash).extra == result.extra,
        meta_for(source, result, now, hash).source == source,
        meta_for(source, result, now, hash).downloaded_at == now,
        meta_for(source, result, now, hash).hash == hash,
        result.date is None ==> meta_for(source, result, now, hash).date.len() == 0,
        forall|d: Date|
            result.date == Some(d) ==> meta_for(source, result, now, hash).date == #[trigger] iso(d),
        meta_for(source, result, now, hash).width == 0,
        meta_for(source, result, now, hash).height == 0,
{
}

/// A size that was read is recorded; nothing else of a description changes.
pub proof fn lemma_size_recorded(meta: MetaView, width: i32, height: i32)
    ensures
        width > 0 && height > 0 ==> sized_meta(meta, width, height).width == width && sized_meta(
            meta,
            width,
            height,
        ).height == height,
        width <= 0 || height <= 0 ==> sized_meta(meta, width, height) == meta,
        sized_meta(meta, width, height).title == meta.title,
        sized_meta(meta, width, height).copyright == meta.copyright,
        sized_meta(meta, width, height).url == meta.url,
        sized_meta(meta, width, height).extra == meta.extra,
        sized_meta(meta, width, height).source == meta.source,
        sized_meta(meta, width, height).downloaded_at == meta.downloaded_at,
        sized_meta(meta, width, height).hash == meta.hash,
        sized_meta(meta, width, height).date == meta.date,
{
}

/// Once a fetched image is stored, listing the directory yields an image with
/// the title, the credit, the address and the further texts of the fetch, under
/// the source, the time, the hash of its content and its size.
pub proof fn lemma_listed_as_fetched(
    dir: Seq<char>,
    files: Seq<FileView>,
    after: Seq<FileView>,
    source: Seq<char>,
    f: Fetch,
)
    requires
        stores_whole(dir, files, after, source, f),
        f.5 is Ok,
        f.5->Ok_0.writes_image,
        listed_names(files),
        free_of(f.3, '/'),
    ensures
        exists|image: ImageView|
            {
                &&& #[trigger] listing(dir, after).contains(image)
                &&& image.meta.title == f.0.title
                &&& image.meta.copyright == f.0.copyright
                &&& image.meta.url == f.0.image_url
                &&& image.meta.extra == f.0.extra
                &&& image.meta.source == source
                &&& image.meta.downloaded_at == f.2
                &&& image.meta.hash == hash_of(f.1.body@)
                &&& image.path == f.5->Ok_0.image.path@
                &&& f.6 > 0 && f.7 > 0 ==> image.meta.width == f.6 && image.meta.height == f.7
                &&& f.0.date is None ==> image.meta.date.len() == 0
                &&& f.0.date is Some ==> image.meta.date == iso(f.0.date->0)
            },
        listing(dir, after).len() == listing(dir, files).len() + 1,
        forall|old_image: ImageView|
            listing(dir, files).contains(old_image) ==> #[trigger] listing(dir, after).contains(
                old_image,
            ),
{
    broadcast use vstd::seq_lib::group_to_multiset_ensures;

    lemma_stored_reply_is_listed(dir, files, after, source, f);
    let mid = choose|mid: Seq<FileView>|
        #[trigger] stores_reply(dir, files, mid, source, f.0, f.1, f.2, f.3, f.4, f.5) && after
            == measured(mid, f.5->Ok_0.image@, f.6, f.7);
    let image = f.5->Ok_0.image@;
    let sized = ImageView { meta: sized_meta(image.meta, f.6, f.7), ..image };
    lemma_description_of_fetch(source, f.0, f.2, hash_of(f.1.body@));
    assert(image.meta == meta_for(source, f.0, f.2, hash_of(f.1.body@)));
    lemma_size_recorded(image.meta, f.6, f.7);
    assert(listing(dir, after).contains(sized));
    assert forall|old_image: ImageView| listing(dir, files).contains(old_image) implies #[trigger]
        listing(dir, after).contains(old_image) by {
        assert(listing(dir, files).to_multiset().contains(old_image));
        assert(listing(dir, after).to_multiset().contains(old_image));
    }
}

/// A path below a directory: the directory, a slash and the name. A directory
/// that ends in a slash, or has no name, gets no other.
pub proof fn lemma_path_below(dir: Seq<char>, name: Seq<char>)
    requires
        name.len() > 0 ==> name[0] != '/',
    ensures
        dir.len() > 0 && dir.last() != '/' ==> joined(dir, name) == dir + seq!['/'] + name,
        dir.len() > 0 && dir.last() == '/' ==> joined(dir, name) == dir + name,
        joined(Seq::empty(), name) == name,
{
    assert(Seq::<char>::empty() + name =~= name);
}

/// An image that repeats nothing is stored under its day, else the time, and the
/// hash of its content, with its description beside it, where that name is free.
pub proof fn lemma_stored_name(
    dir: Seq<char>,
    files: Seq<FileView>,
    after: Seq<FileView>,
    ext: Seq<char>,
    meta: MetaView,
    stamp: Seq<char>,
    image: ImageView,
    writes_meta: bool,
)
    requires
        stores(dir, files, after, ext, meta, stamp, image, true, writes_meta),
        is_image_extension(ext),
        free_of(stamp, '/'),
        free_of(meta.date, '/'),
        free_of(meta.hash, '/'),
    ensures
        ({
            let day = if meta.date.len() == 0 {
                stamp
            } else {
                without_char(meta.date, '-')
            };
            let stem = day + seq!['_'] + meta.hash;
            let name = stem + seq!['.'] + ext;
            (forall|i: int| 0 <= i < files.len() ==> (#[trigger] files[i]).name != name) ==> {
                &&& image.path == joined(dir, name)
                &&& image.json_path == joined(dir, stem + seq!['.'] + "json"@)
                &&& image.meta == meta
                &&& !image.reused
                &&& writes_meta
            }
        }),
{
    let day = if meta.date.len() == 0 {
        stamp
    } else {
        without_char(meta.date, '-')
    };
    let stem = day + seq!['_'] + meta.hash;
    let name = stem + seq!['.'] + ext;
    let chosen = choose|name: Seq<char>|
        {
            &&& #[trigger] free_for(files, ext, meta, stamp, name)
            &&& image == new_image(dir, name, meta)
            &&& after == with_image(files, name, meta)
        };
    if forall|i: int| 0 <= i < files.len() ==> (#[trigger] files[i]).name != name {
        let n = choose|n: nat|
            chosen == candidate(prefix_for(meta.date, stamp), meta.hash, ext, n)
                && #[trigger] first_free(
                files,
                prefix_for(meta.date, stamp),
                meta.hash,
                ext,
                n,
            );
        reveal_strlit("_");
        reveal_strlit(".");
        assert(candidate(day, meta.hash, ext, 0) =~= name);
        if n > 0 {
            assert(has_file(files, candidate(day, meta.hash, ext, 0)));
        }
        assert(chosen == name);
        lemma_stem_free(meta, stamp, 0, '/');
        assert(stem_for(meta, stamp, 0) =~= stem);
        assert(stem.len() > 0);
        lemma_image_extension_plain(ext);
        lemma_plain_name(stem, ext);
    }
}

/// The same image under a taken name gets a number: `-1`, `-2` and so on.
pub proof fn lemma_numbered_names(prefix: Seq<char>, hash: Seq<char>, ext: Seq<char>, n: nat)
    ensures
        candidate(prefix, hash, ext, 0) == prefix + seq!['_'] + hash + seq!['.'] + ext,
        n > 0 ==> candidate(prefix, hash, ext, n) == prefix + seq!['-'] + decimal(n) + seq!['_']
            + hash + seq!['.'] + ext,
{
    reveal_strlit("_");
    reveal_strlit(".");
    reveal_strlit("-");
    assert(candidate(prefix, hash, ext, 0) =~= prefix + seq!['_'] + hash + seq!['.'] + ext);
    assert(candidate(prefix, hash, ext, n) =~= (if n == 0 {
        prefix
    } else {
        prefix + seq!['-'] + decimal(n)
    }) + seq!['_'] + hash + seq!['.'] + ext);
}

/// An image file with a description beside it is listed, under its path and with
/// that description.
pub proof fn lemma_described_is_listed(
    dir: Seq<char>,
    files: Seq<FileView>,
    stem: Seq<char>,
    ext: Seq<char>,
    meta: MetaView,
    i: int,
    j: int,
)
    requires
        0 <= i < files.len(),
        0 <= j < files.len(),
        files[i].name == stem + seq!['.'] + ext,
        files[j] == (FileView { name: stem + seq!['.'] + "json"@, meta: Some(meta) }),
        forall|k: int| 0 <= k < files.len() && k != j ==> (#[trigger] files[k]).name
            != files[j].name,
        stem.len() > 0,
        free_of(stem, '/'),
        ext == "jpg"@ || ext == "jpeg"@ || ext == "png"@ || ext == "webp"@ || ext == "avif"@ || ext
            == "gif"@ || ext == "tif"@ || ext == "tiff"@,
    ensures
        listing(dir, files).contains(
            ImageView {
                path: joined(dir, stem + seq!['.'] + ext),
                json_path: joined(dir, stem + seq!['.'] + "json"@),
                meta,
                reused: false,
            },
        ),
{
    broadcast use vstd::seq_lib::group_to_multiset_ensures;

    let name = files[i].name;
    lemma_image_extension_plain(ext);
    lemma_plain_name(stem, ext);
    lemma_file_at(files, sidecar(name), 0);
    assert(has_file(files, sidecar(name)));
    let image = new_image(dir, name, meta);
    assert(meta_at(files, name) == Some(meta));
    assert(image_for(dir, files, name) == Some(image));
    lemma_among(dir, files, files.len() as int, i, image);
    let all = images_among(dir, files, files.len() as int);
    lemma_newest_first(all);
    assert(all.to_multiset().contains(image));
    assert(newest_first(all).to_multiset().contains(image));
}

/// Only image files that have a description are listed: each listed image has
/// the path of a file with the ending of an image, and the description of a file
/// beside it.
pub proof fn lemma_listed_is_described(dir: Seq<char>, files: Seq<FileView>, image: ImageView)
    requires
        listing(dir, files).contains(image),
    ensures
        !image.reused,
        exists|i: int, j: int|
            {
                &&& 0 <= i < files.len() && 0 <= j < files.len()
                &&& #[trigger] image_for_name(files[i].name)
                &&& image.path == joined(dir, files[i].name)
                &&& image.json_path == joined(dir, (#[trigger] files[j]).name)
                &&& files[j].meta == Some(image.meta)
            },
{
    broadcast use vstd::seq_lib::group_to_multiset_ensures;

    let all = images_among(dir, files, files.len() as int);
    lemma_newest_first(all);
    assert(newest_first(all).to_multiset().contains(image));
    assert(all.to_multiset().contains(image));
    assert(all.contains(image));
    let i = lemma_among_from(dir, files, files.len() as int, image);
    let name = files[i].name;
    lemma_file_at(files, sidecar(name), 0);
    let j = file_at(files, sidecar(name), 0);
    assert(image_for_name(files[i].name));
    assert(files[j].name == sidecar(name));
}

proof fn lemma_among_from(dir: Seq<char>, files: Seq<FileView>, n: int, image: ImageView) -> (i:
    int)
    requires
        0 <= n <= files.len(),
        images_among(dir, files, n).contains(image),
    ensures
        0 <= i < n,
        image_for(dir, files, files[i].name) == Some(image),
    decreases n,
{
    let all = images_among(dir, files, n);
    let k = choose|k: int| 0 <= k < all.len() && all[k] == image;
    let before = images_among(dir, files, n - 1);
    if k < before.len() {
        assert(before[k] == image);
        lemma_among_from(dir, files, n - 1, image)
    } else {
        n - 1
    }
}

/// The endings of images, in small letters; a description's is none of them.
pub proof fn lemma_image_endings(ext: Seq<char>)
    ensures
        is_image_extension("jpg"@) && is_image_extension("jpeg"@) && is_image_extension("png"@)
            && is_image_extension("webp"@) && is_image_extension("avif"@) && is_image_extension(
            "gif"@,
        ) && is_image_extension("tif"@) && is_image_extension("tiff"@),
        is_image_extension(ext) ==> 3 <= ext.len() <= 4,
        !is_image_extension("json"@) && !is_image_extension("txt"@) && !is_image_extension("svg"@),
{
    reveal_strlit("jpg");
    reveal_strlit("jpeg");
    reveal_strlit("png");
    reveal_strlit("webp");
    reveal_strlit("avif");
    reveal_strlit("gif");
    reveal_strlit("tif");
    reveal_strlit("tiff");
    reveal_strlit("json");
    reveal_strlit("txt");
    reveal_strlit("svg");
    assert("json"@[0] != "jpeg"@[0] || "json"@[1] != "jpeg"@[1]);
    assert("json"@[0] != "webp"@[0] && "json"@[0] != "avif"@[0] && "json"@[0] != "tiff"@[0]);
    assert("txt"@[0] != "jpg"@[0] && "txt"@[0] != "png"@[0] && "txt"@[0] != "gif"@[0] && "txt"@[1]
        != "tif"@[1]);
    assert("svg"@[0] != "jpg"@[0] && "svg"@[0] != "png"@[0] && "svg"@[0] != "gif"@[0] && "svg"@[0]
        != "tif"@[0]);
}

/// In a listing no image stands before one of a later day, and none of the same
/// day before one that was downloaded later. The day of an image without one is
/// that of its download.
pub proof fn lemma_listed_by_day(dir: Seq<char>, files: Seq<FileView>, i: int, j: int)
    requires
        0 <= i < j < listing(dir, files).len(),
    ensures
        ({
            let a = listing(dir, files)[i].meta;
            let b = listing(dir, files)[j].meta;
            a.date.len() > 0 && b.date.len() > 0 ==> {
                &&& !precedes(a.date, b.date)
                &&& a.date == b.date ==> a.downloaded_at >= b.downloaded_at
            }
        }),
        ({
            let a = listing(dir, files)[i].meta;
            let b = listing(dir, files)[j].meta;
            forall|d: Date|
                valid(d) && a.date.len() == 0 && b.date.len() > 0 && #[trigger] day_number(d)
                    == utc_day_number(a.downloaded_at as int) ==> !precedes(iso(d), b.date)
        }),
        ({
            let a = listing(dir, files)[i].meta;
            let b = listing(dir, files)[j].meta;
            forall|d: Date|
                valid(d) && a.date.len() > 0 && b.date.len() == 0 && #[trigger] day_number(d)
                    == utc_day_number(b.downloaded_at as int) ==> !precedes(a.date, iso(d))
        }),
{
    lemma_newest_first(images_among(dir, files, files.len() as int));
    let a = listing(dir, files)[i];
    let b = listing(dir, files)[j];
    assert(!newer(b, a));
    assert forall|d: Date|
        valid(d) && a.meta.date.len() == 0 && b.meta.date.len() > 0 && #[trigger] day_number(d)
            == utc_day_number(a.meta.downloaded_at as int) implies !precedes(iso(d), b.meta.date) by {
        lemma_day_with_number(d);
    }
    assert forall|d: Date|
        valid(d) && a.meta.date.len() > 0 && b.meta.date.len() == 0 && #[trigger] day_number(d)
            == utc_day_number(b.meta.downloaded_at as int) implies !precedes(a.meta.date, iso(d)) by {
        lemma_day_with_number(d);
    }
}

/// The files of an image: the image itself, the description of the same name and
/// the thumbnail `_thumb.jpg`.
pub proof fn lemma_files_of_image(stem: Seq<char>, ext: Seq<char>)
    requires
        stem.len() > 0,
        free_of(stem, '/'),
        ext.len() > 0,
        free_of(ext, '/'),
        free_of(ext, '.'),
    ensures
        ({
            let name = stem + seq!['.'] + ext;
            &&& files_of_image(name).len() == 3
            &&& files_of_image(name)[0] == name
            &&& files_of_image(name)[1] == stem + seq!['.'] + "json"@
            &&& files_of_image(name)[2] == stem + "_thumb.jpg"@
        }),
{
    let name = stem + seq!['.'] + ext;
    lemma_plain_name(stem, ext);
    assert(name.last() == ext.last());
    assert(free_of(name, '/')) by {
        assert forall|k: int| 0 <= k < name.len() implies #[trigger] name[k] != '/' by {
            if k < stem.len() {
                assert(name[k] == stem[k]);
            } else if k > stem.len() {
                assert(name[k] == ext[k - stem.len() - 1]);
            }
        }
    }
    assert(ext.last() != '.' && ext.last() != '/');
    assert(settled(name) == name);
    lemma_after_last_none(name, '/');
    assert(parent_of(name) == Some(Seq::<char>::empty()));
    let thumb = stem + "_thumb.jpg"@;
    assert(thumb[0] == stem[0]);
    assert(Seq::<char>::empty() + thumb =~= thumb);
}

/// Deleting an image takes its own files and leaves every other.
pub proof fn lemma_delete_takes_own_files(
    files: Seq<FileView>,
    stem: Seq<char>,
    ext: Seq<char>,
    other: Seq<char>,
)
    requires
        stem.len() > 0,
        free_of(stem, '/'),
        ext.len() > 0,
        free_of(ext, '/'),
        free_of(ext, '.'),
    ensures
        ({
            let name = stem + seq!['.'] + ext;
            let left = without_names(files, files_of_image(name));
            has_file(left, other) <==> has_file(files, other) && other != name && other != stem
                + seq!['.'] + "json"@ && other != stem + "_thumb.jpg"@
        }),
{
    let name = stem + seq!['.'] + ext;
    lemma_files_of_image(stem, ext);
    lemma_deleted(files, files_of_image(name), other);
    let gone = files_of_image(name);
    assert(gone[0] == name && gone[1] == stem + seq!['.'] + "json"@ && gone[2] == stem
        + "_thumb.jpg"@);
    if gone.contains(other) {
        let k = choose|k: int| 0 <= k < gone.len() && gone[k] == other;
        assert(k == 0 || k == 1 || k == 2);
    }
}

/// A reply that is an image is stored under the ending of its media type.
pub proof fn lemma_ending_of_media_type(
    media: Seq<char>,
    ext: Seq<char>,
    name: Seq<char>,
    url: Seq<char>,
    not_image: Seq<char>,
)
    requires
        (media == "image/jpeg"@ && ext == "jpg"@) || (media == "image/jpg"@ && ext == "jpg"@) || (
        media == "image/png"@ && ext == "png"@) || (media == "image/webp"@ && ext == "webp"@) || (
        media == "image/avif"@ && ext == "avif"@) || (media == "image/gif"@ && ext == "gif"@) || (
        media == "image/tiff"@ && ext == "tiff"@),
    ensures
        reply_extension(200, name, Some(media), url, not_image) == Ok::<Seq<char>, Seq<char>>(ext),
{
    lemma_media_plain(media);
    lemma_media_extension(media, ext);
}

proof fn lemma_media_plain(media: Seq<char>)
    requires
        media == "image/jpeg"@ || media == "image/jpg"@ || media == "image/png"@ || media
            == "image/webp"@ || media == "image/avif"@ || media == "image/gif"@ || media
            == "image/tiff"@,
    ensures
        media_type(media) == media,
        starts_with(media, "image/"@),
{
    reveal_strlit("image/jpeg");
    reveal_strlit("image/jpg");
    reveal_strlit("image/png");
    reveal_strlit("image/webp");
    reveal_strlit("image/avif");
    reveal_strlit("image/gif");
    reveal_strlit("image/tiff");
    reveal_strlit("image/");
    assert(media.subrange(0, 6) =~= "image/"@);
    lemma_first_place(media, ';', Seq::empty(), 0);
    assert(media.take(media.len() as int) =~= media);
    lemma_trim_takes_ends(Seq::empty(), media, Seq::empty());
    assert(Seq::<char>::empty() + media + Seq::<char>::empty() =~= media);
    assert(lower(media) =~= media);
}

proof fn lemma_media_extension(media: Seq<char>, ext: Seq<char>)
    requires
        (media == "image/jpeg"@ && ext == "jpg"@) || (media == "image/jpg"@ && ext == "jpg"@) || (
        media == "image/png"@ && ext == "png"@) || (media == "image/webp"@ && ext == "webp"@) || (
        media == "image/avif"@ && ext == "avif"@) || (media == "image/gif"@ && ext == "gif"@) || (
        media == "image/tiff"@ && ext == "tiff"@),
    ensures
        type_extension(media) == Some(ext),
{
    reveal_strlit("image/jpeg");
    reveal_strlit("image/jpg");
    reveal_strlit("image/png");
    reveal_strlit("image/webp");
    reveal_strlit("image/avif");
    reveal_strlit("image/gif");
    reveal_strlit("image/tiff");
    let c = media[6];
    let d = media[7];
    assert(media.len() >= 9);
}

/// A reply of another status is not stored, whatever it holds; nor is one of a
/// media type that is no image.
pub proof fn lemma_refused_replies(
    status: u32,
    name: Seq<char>,
    content_type: Option<Seq<char>>,
    url: Seq<char>,
    not_image: Seq<char>,
)
    ensures
        status != 200 ==> reply_extension(status, name, content_type, url, not_image) == Err::<
            Seq<char>,
            Seq<char>,
        >("HTTP "@ + name + ": "@ + url),
        reply_extension(200, name, Some("text/html"@), url, not_image) == Err::<
            Seq<char>,
            Seq<char>,
        >(not_image + " ("@ + "text/html"@ + "): "@ + url),
        reply_extension(200, name, None, url, not_image) is Ok,
{
    reveal_strlit("text/html");
    reveal_strlit("image/");
    let media = "text/html"@;
    lemma_first_place(media, ';', Seq::empty(), 0);
    assert(media.take(media.len() as int) =~= media);
    lemma_trim_takes_ends(Seq::empty(), media, Seq::empty());
    assert(Seq::<char>::empty() + media + Seq::<char>::empty() =~= media);
    assert(lower(media) =~= media);
    if starts_with(media, "image/"@) {
        assert(media.subrange(0, 6)[0] == 't');
        assert("image/"@[0] == 'i');
    }
}

/// Without a media type that says more, the ending is that of the address, up
/// to its query; `jpg` where it has none of an image.
pub proof fn lemma_ending_of_address(
    base: Seq<char>,
    stem: Seq<char>,
    ext: Seq<char>,
    query: Seq<char>,
)
    requires
        stem.len() > 0,
        free_of(stem, '/'),
        free_of(stem, '?'),
        free_of(base, '?'),
        free_of(ext, '/'),
        free_of(ext, '.'),
        free_of(ext, '?'),
        ext.len() > 0,
    ensures
        ({
            let url = base + seq!['/'] + stem + seq!['.'] + ext + seq!['?'] + query;
            &&& is_image_extension(lower(ext)) ==> extension_for(None, url) == lower(ext)
            &&& !is_image_extension(lower(ext)) ==> extension_for(None, url) == "jpg"@
        }),
{
    let name = stem + seq!['.'] + ext;
    let path = base + seq!['/'] + name;
    let url = base + seq!['/'] + stem + seq!['.'] + ext + seq!['?'] + query;
    assert(url =~= path + seq!['?'] + query);
    lemma_no_query(base, stem, ext);
    lemma_first_place(path, '?', query, 0);
    assert(url.take(path.len() as int) =~= path);
    lemma_ending_of_path(base, stem, ext);
}

proof fn lemma_no_query(base: Seq<char>, stem: Seq<char>, ext: Seq<char>)
    requires
        free_of(stem, '?'),
        free_of(base, '?'),
        free_of(ext, '?'),
    ensures
        free_of(base + seq!['/'] + (stem + seq!['.'] + ext), '?'),
{
    let path = base + seq!['/'] + (stem + seq!['.'] + ext);
    assert forall|k: int| 0 <= k < path.len() implies #[trigger] path[k] != '?' by {
        if k < base.len() {
            assert(path[k] == base[k]);
        } else if base.len() < k < base.len() + 1 + stem.len() {
            assert(path[k] == stem[k - base.len() - 1]);
        } else if k > base.len() + 1 + stem.len() {
            assert(path[k] == ext[k - base.len() - stem.len() - 2]);
        }
    }
}

} // verus!
