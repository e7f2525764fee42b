//! What trimming a directory of images leaves.

use vstd::prelude::*;

use crate::path::joined;
use crate::storage::{
    file_at, files_of_image, has_file, image_for, images_among, in_order,
    lemma_newest_first, lemma_not_newer_trans, listing, meta_at, newer, newest_first, placed,
    sidecar, thumbnail_of, without_names, FileView, ImageView,
};
use crate::storage_laws::{
    image_for_name, lemma_deleted, lemma_file_at, lemma_image_end, lemma_sidecar_end,
};
use crate::text::free_of;

verus! {

/// The images without the one at a path.
pub open spec fn without_path(images: Seq<ImageView>, path: Seq<char>) -> Seq<ImageView>
    decreases images.len(),
{
    if images.len() == 0 {
        images
    } else if images.last().path == path {
        without_path(images.drop_last(), path)
    } else {
        without_path(images.drop_last(), path).push(images.last())
    }
}

pub open spec fn distinct_paths(images: Seq<ImageView>) -> bool {
    forall|i: int, j: int|
        0 <= i < j < images.len() ==> (#[trigger] images[i]).path != (#[trigger] images[j]).path
}

proof fn lemma_without_path_within(images: Seq<ImageView>, path: Seq<char>, k: int)
    requires
        0 <= k < without_path(images, path).len(),
    ensures
        images.contains(without_path(images, path)[k]),
    decreases images.len(),
{
    let init = images.drop_last();
    let rest = without_path(init, path);
    let y = without_path(images, path)[k];
    if k < rest.len() {
        lemma_without_path_within(init, path, k);
        let m = choose|m: int| 0 <= m < init.len() && init[m] == rest[k];
        assert(images[m] == y);
    } else {
        assert(images[images.len() - 1] == y);
    }
}

proof fn lemma_placed_without(images: Seq<ImageView>, x: ImageView, path: Seq<char>)
    requires
        in_order(images),
    ensures
        without_path(placed(images, x), path) == (if x.path == path {
            without_path(images, path)
        } else {
            placed(without_path(images, path), x)
        }),
    decreases images.len(),
{
    if images.len() == 0 {
        assert(placed(images, x).drop_last() =~= images);
        assert(without_path(placed(images, x), path) =~= if x.path == path {
            without_path(images, path)
        } else {
            placed(without_path(images, path), x)
        });
    } else {
        let init = images.drop_last();
        let last = images.last();
        if newer(x, last) {
            assert forall|i: int, j: int| 0 <= i < j < init.len() implies !newer(
                #[trigger] init[j],
                #[trigger] init[i],
            ) by {
                assert(!newer(images[j], images[i]));
            }
            lemma_placed_without(init, x, path);
            let out = placed(images, x);
            assert(out.drop_last() =~= placed(init, x));
            assert(out.last() == last);
            let kept = without_path(init, path);
            if x.path != path && last.path != path {
                assert(kept.push(last).drop_last() =~= kept);
            }
        } else {
            let out = placed(images, x);
            let kept = without_path(images, path);
            assert(out.drop_last() =~= images);
            if x.path != path && kept.len() > 0 {
                lemma_without_path_within(images, path, kept.len() - 1);
                let m = choose|m: int| 0 <= m < images.len() && images[m] == kept.last();
                if m < images.len() - 1 {
                    assert(!newer(images[images.len() - 1], images[m]));
                    lemma_not_newer_trans(images[m], last, x);
                }
            }
        }
    }
}

proof fn lemma_sorted_without(images: Seq<ImageView>, path: Seq<char>)
    ensures
        newest_first(without_path(images, path)) == without_path(newest_first(images), path),
    decreases images.len(),
{
    if images.len() > 0 {
        let init = images.drop_last();
        lemma_sorted_without(init, path);
        lemma_newest_first(init);
        lemma_placed_without(newest_first(init), images.last(), path);
        let kept = without_path(init, path);
        if images.last().path != path {
            assert(kept.push(images.last()).drop_last() =~= kept);
        }
    }
}

proof fn lemma_placed_distinct(images: Seq<ImageView>, x: ImageView)
    requires
        distinct_paths(images),
        forall|i: int| 0 <= i < images.len() ==> (#[trigger] images[i]).path != x.path,
    ensures
        distinct_paths(placed(images, x)),
        forall|i: int|
            0 <= i < placed(images, x).len() ==> (#[trigger] placed(images, x)[i]) == x
                || images.contains(placed(images, x)[i]),
    decreases images.len(),
{
    let out = placed(images, x);
    if images.len() > 0 && newer(x, images.last()) {
        let init = images.drop_last();
        let last = images.last();
        assert forall|i: int, j: int| 0 <= i < j < init.len() implies (
        #[trigger] init[i]).path != (#[trigger] init[j]).path by {
            assert(images[i].path != images[j].path);
        }
        assert forall|i: int| 0 <= i < init.len() implies (#[trigger] init[i]).path != x.path by {
            assert(images[i].path != x.path);
        }
        lemma_placed_distinct(init, x);
        let most = placed(init, x);
        assert(images[images.len() - 1] == last);
        assert forall|i: int| 0 <= i < most.len() implies (#[trigger] most[i]).path != last.path
            && (most[i] == x || images.contains(most[i])) by {
            if most[i] != x {
                let m = choose|m: int| 0 <= m < init.len() && init[m] == most[i];
                assert(images[m] == most[i]);
                assert(images[m].path != images[images.len() - 1].path);
            }
        }
        assert forall|i: int| 0 <= i < out.len() implies (#[trigger] out[i]) == x
            || images.contains(out[i]) by {
            if i < most.len() {
                assert(out[i] == most[i]);
            }
        }
        assert forall|i: int, j: int| 0 <= i < j < out.len() implies (
        #[trigger] out[i]).path != (#[trigger] out[j]).path by {
            assert(out[i] == most[i]);
            if j < most.len() {
                assert(out[j] == most[j]);
            }
        }
    } else {
        assert forall|i: int| 0 <= i < out.len() implies (#[trigger] out[i]) == x
            || images.contains(out[i]) by {
            if i < images.len() {
                assert(out[i] == images[i]);
            }
        }
        assert forall|i: int, j: int| 0 <= i < j < out.len() implies (
        #[trigger] out[i]).path != (#[trigger] out[j]).path by {
            assert(out[i] == images[i]);
            if j < images.len() {
                assert(out[j] == images[j]);
            }
        }
    }
}

proof fn lemma_sorted_distinct(images: Seq<ImageView>)
    requires
        distinct_paths(images),
    ensures
        distinct_paths(newest_first(images)),
        forall|i: int|
            0 <= i < newest_first(images).len() ==> images.contains(
                #[trigger] newest_first(images)[i],
            ),
    decreases images.len(),
{
    if images.len() > 0 {
        let init = images.drop_last();
        let x = images.last();
        assert forall|i: int, j: int| 0 <= i < j < init.len() implies (
        #[trigger] init[i]).path != (#[trigger] init[j]).path by {
            assert(images[i].path != images[j].path);
        }
        lemma_sorted_distinct(init);
        let most = newest_first(init);
        assert forall|i: int| 0 <= i < most.len() implies (#[trigger] most[i]).path != x.path
            && images.contains(most[i]) by {
            let m = choose|m: int| 0 <= m < init.len() && init[m] == most[i];
            assert(images[m] == most[i]);
            assert(images[m].path != images[images.len() - 1].path);
        }
        lemma_placed_distinct(most, x);
        let out = placed(most, x);
        assert forall|i: int| 0 <= i < out.len() implies images.contains(#[trigger] out[i]) by {
            if out[i] == x {
                assert(images[images.len() - 1] == x);
            } else {
                let m = choose|m: int| 0 <= m < most.len() && most[m] == out[i];
                assert(images.contains(most[m]));
            }
        }
    }
}

/// Taking out the only image at a path removes its position.
proof fn lemma_without_is_remove(images: Seq<ImageView>, at: int)
    requires
        distinct_paths(images),
        0 <= at < images.len(),
    ensures
        without_path(images, images[at].path) == images.remove(at),
    decreases images.len(),
{
    let init = images.drop_last();
    let path = images[at].path;
    assert forall|i: int, j: int| 0 <= i < j < init.len() implies (
    #[trigger] init[i]).path != (#[trigger] init[j]).path by {
        assert(images[i].path != images[j].path);
    }
    if at == images.len() - 1 {
        assert forall|i: int| 0 <= i < init.len() implies (#[trigger] init[i]).path != path by {
            assert(images[i].path != images[at].path);
        }
        lemma_without_none(init, path);
        assert(images.remove(at) =~= init);
    } else {
        assert(images[at].path != images[images.len() - 1].path);
        assert(init[at] == images[at]);
        lemma_without_is_remove(init, at);
        assert(images.remove(at) =~= init.remove(at).push(images.last()));
    }
}

proof fn lemma_without_none(images: Seq<ImageView>, path: Seq<char>)
    requires
        forall|i: int| 0 <= i < images.len() ==> (#[trigger] images[i]).path != path,
    ensures
        without_path(images, path) == images,
    decreases images.len(),
{
    if images.len() > 0 {
        let init = images.drop_last();
        assert forall|i: int| 0 <= i < init.len() implies (#[trigger] init[i]).path != path by {
            assert(images[i].path != path);
        }
        assert(images[images.len() - 1].path != path);
        lemma_without_none(init, path);
        assert(init.push(images.last()) =~= images);
    }
}

/// A directory as it can be listed, whose images do not share their files: no
/// two images have the same stem, and none is the thumbnail of another.
pub open spec fn separate(dir: Seq<char>, files: Seq<FileView>) -> bool {
    &&& forall|i: int| 0 <= i < files.len() ==> free_of((#[trigger] files[i]).name, '/')
    &&& forall|i: int, j: int|
        0 <= i < j < files.len() ==> (#[trigger] files[i]).name != (#[trigger] files[j]).name
    &&& forall|i: int, j: int|
        0 <= i < files.len() && 0 <= j < files.len() && i != j && image_for(
            dir,
            files,
            (#[trigger] files[i]).name,
        ) is Some && image_for(dir, files, (#[trigger] files[j]).name) is Some ==> {
            &&& sidecar(files[i].name) != sidecar(files[j].name)
            &&& thumbnail_of(files[i].name) != files[j].name
        }
}

/// The directory once images were deleted one by one, as far as they are there.
pub open spec fn after_deletes(files: Seq<FileView>, names: Seq<Seq<char>>) -> Seq<FileView>
    decreases names.len(),
{
    if names.len() == 0 {
        files
    } else {
        let before = after_deletes(files, names.drop_last());
        if has_file(before, names.last()) {
            without_names(before, files_of_image(names.last()))
        } else {
            before
        }
    }
}

/// What is left are files that were there, in their order.
proof fn lemma_left(files: Seq<FileView>, gone: Seq<Seq<char>>, k: int) -> (m: int)
    requires
        0 <= k < without_names(files, gone).len(),
    ensures
        0 <= m < files.len(),
        files[m] == without_names(files, gone)[k],
        !gone.contains(files[m].name),
    decreases files.len(),
{
    let init = files.drop_last();
    let rest = without_names(init, gone);
    if k < rest.len() {
        let m = lemma_left(init, gone, k);
        assert(files[m] == init[m]);
        m
    } else {
        files.len() - 1
    }
}

/// Names stay apart where files are taken out.
proof fn lemma_left_apart(files: Seq<FileView>, gone: Seq<Seq<char>>)
    requires
        forall|i: int, j: int|
            0 <= i < j < files.len() ==> (#[trigger] files[i]).name != (#[trigger] files[j]).name,
    ensures
        ({
            let left = without_names(files, gone);
            forall|i: int, j: int|
                0 <= i < j < left.len() ==> (#[trigger] left[i]).name != (#[trigger] left[j]).name
        }),
    decreases files.len(),
{
    if files.len() > 0 {
        let init = files.drop_last();
        assert forall|i: int, j: int| 0 <= i < j < init.len() implies (
        #[trigger] init[i]).name != (#[trigger] init[j]).name by {
            assert(files[i].name != files[j].name);
        }
        lemma_left_apart(init, gone);
        let rest = without_names(init, gone);
        let left = without_names(files, gone);
        assert forall|i: int, j: int| 0 <= i < j < left.len() implies (
        #[trigger] left[i]).name != (#[trigger] left[j]).name by {
            assert(i < rest.len());
            assert(left[i] == rest[i]);
            if j < rest.len() {
                assert(left[j] == rest[j]);
            } else {
                let m = lemma_left(init, gone, i);
                assert(files[m].name != files[files.len() - 1].name);
            }
        }
    }
}

/// What a file holds is kept, unless the file is taken out.
proof fn lemma_meta_kept(files: Seq<FileView>, gone: Seq<Seq<char>>, name: Seq<char>)
    requires
        forall|i: int, j: int|
            0 <= i < j < files.len() ==> (#[trigger] files[i]).name != (#[trigger] files[j]).name,
        !gone.contains(sidecar(name)),
    ensures
        meta_at(without_names(files, gone), name) == meta_at(files, name),
{
    let left = without_names(files, gone);
    let s = sidecar(name);
    lemma_file_at(files, s, 0);
    lemma_file_at(left, s, 0);
    lemma_deleted(files, gone, s);
    let a = file_at(files, s, 0);
    let b = file_at(left, s, 0);
    if a < files.len() {
        assert(files[a].name == s);
        assert(has_file(files, s));
        let k = choose|k: int| 0 <= k < left.len() && (#[trigger] left[k]).name == s;
        if b == left.len() {
            assert(left[k].name != s);
        }
        let m = lemma_left(files, gone, b);
        if m < a {
            assert(files[m].name != s);
        } else if a < m {
            assert(files[a].name != files[m].name);
        }
    } else if b < left.len() {
        assert(left[b].name == s);
        assert(has_file(left, s));
        let k = choose|k: int| 0 <= k < files.len() && (#[trigger] files[k]).name == s;
        assert(files[k].name != s);
    }
}

proof fn lemma_without_names_prefix(files: Seq<FileView>, gone: Seq<Seq<char>>, n: int)
    requires
        0 <= n <= files.len(),
    ensures
        ({
            let part = without_names(files.take(n), gone);
            let all = without_names(files, gone);
            part.len() <= all.len() && all.take(part.len() as int) == part
        }),
    decreases files.len() - n,
{
    let all = without_names(files, gone);
    if n == files.len() {
        assert(files.take(n) =~= files);
        assert(all.take(all.len() as int) =~= all);
    } else {
        lemma_without_names_prefix(files, gone, n + 1);
        let part = without_names(files.take(n), gone);
        let more = without_names(files.take(n + 1), gone);
        assert(files.take(n + 1).drop_last() =~= files.take(n));
        assert(more.take(part.len() as int) =~= part);
        assert(all.take(part.len() as int) =~= all.take(more.len() as int).take(part.len() as int));
    }
}

/// Of the files that go with an image, only the image is listed.
proof fn lemma_gone_unlisted(dir: Seq<char>, files: Seq<FileView>, at: int, k: int)
    requires
        separate(dir, files),
        0 <= at < files.len(),
        0 <= k < files.len(),
        image_for(dir, files, files[at].name) is Some,
        k != at,
        files_of_image(files[at].name).contains(files[k].name),
    ensures
        image_for(dir, files, files[k].name) is None,
{
    let name = files[at].name;
    let own = files[k].name;
    let gone = files_of_image(name);
    assert(gone[0] == name && gone[1] == sidecar(name) && gone[2] == thumbnail_of(name));
    assert(own != name) by {
        if k < at {
            assert(files[k].name != files[at].name);
        } else {
            assert(files[at].name != files[k].name);
        }
    }
    lemma_sidecar_end(name);
    if image_for(dir, files, own) is Some {
        lemma_image_end(own);
        assert(own == thumbnail_of(name));
        assert(thumbnail_of(files[at].name) != files[k].name);
    }
}

/// An image that does not go is listed as before.
proof fn lemma_kept_listed(dir: Seq<char>, files: Seq<FileView>, at: int, k: int)
    requires
        separate(dir, files),
        0 <= at < files.len(),
        0 <= k < files.len(),
        image_for(dir, files, files[at].name) is Some,
        !files_of_image(files[at].name).contains(files[k].name),
    ensures
        image_for(dir, without_names(files, files_of_image(files[at].name)), files[k].name)
            == image_for(dir, files, files[k].name),
        files[k].name != files[at].name,
{
    let name = files[at].name;
    let own = files[k].name;
    let gone = files_of_image(name);
    assert(gone[0] == name && gone[1] == sidecar(name) && gone[2] == thumbnail_of(name));
    assert(own != name);
    if image_for_name(own) {
        lemma_image_end(name);
        lemma_thumbnail_end(name);
        lemma_sidecar_end(own);
        if gone.contains(sidecar(own)) {
            assert(sidecar(own) == sidecar(name));
            assert(meta_at(files, own) == meta_at(files, name));
            assert(image_for(dir, files, own) is Some);
            assert(sidecar(files[k].name) != sidecar(files[at].name));
        }
        lemma_meta_kept(files, gone, own);
    }
}

/// Deleting an image takes it out of the images, and changes no other.
proof fn lemma_delete_among(dir: Seq<char>, files: Seq<FileView>, at: int, n: int)
    requires
        separate(dir, files),
        0 <= at < files.len(),
        image_for(dir, files, files[at].name) is Some,
        0 <= n <= files.len(),
    ensures
        ({
            let name = files[at].name;
            let gone = files_of_image(name);
            images_among(
                dir,
                without_names(files, gone),
                without_names(files.take(n), gone).len() as int,
            ) == without_path(images_among(dir, files, n), joined(dir, name))
        }),
    decreases n,
{
    if n > 0 {
        lemma_delete_among(dir, files, at, n - 1);
        lemma_delete_one_more(dir, files, at, n);
    } else {
        assert(files.take(0) =~= Seq::empty());
    }
}

proof fn lemma_delete_one_more(dir: Seq<char>, files: Seq<FileView>, at: int, n: int)
    requires
        separate(dir, files),
        0 <= at < files.len(),
        image_for(dir, files, files[at].name) is Some,
        0 < n <= files.len(),
        ({
            let gone = files_of_image(files[at].name);
            images_among(
                dir,
                without_names(files, gone),
                without_names(files.take(n - 1), gone).len() as int,
            ) == without_path(images_among(dir, files, n - 1), joined(dir, files[at].name))
        }),
    ensures
        ({
            let gone = files_of_image(files[at].name);
            images_among(
                dir,
                without_names(files, gone),
                without_names(files.take(n), gone).len() as int,
            ) == without_path(images_among(dir, files, n), joined(dir, files[at].name))
        }),
{
    let name = files[at].name;
    let gone = files_of_image(name);
    let left = without_names(files, gone);
    let own = files[n - 1].name;
    let path = joined(dir, name);
    let before = images_among(dir, files, n - 1);
    let part = without_names(files.take(n - 1), gone);
    let more = without_names(files.take(n), gone);
    assert(files.take(n).drop_last() =~= files.take(n - 1));
    assert(files.take(n).last() == files[n - 1]);
    if gone.contains(own) {
        assert(more == part);
        if n - 1 == at {
            let image = image_for(dir, files, own)->0;
            assert(image.path == path);
            assert(before.push(image).drop_last() =~= before);
        } else {
            lemma_gone_unlisted(dir, files, at, n - 1);
        }
    } else {
        lemma_without_names_prefix(files, gone, n);
        assert(more == part.push(files[n - 1]));
        assert(left[part.len() as int] == files[n - 1]) by {
            assert(left.take(more.len() as int)[part.len() as int] == more[part.len() as int]);
        }
        lemma_kept_listed(dir, files, at, n - 1);
        match image_for(dir, files, own) {
            Some(image) => {
                lemma_joined_apart(dir, own, name);
                assert(image.path == joined(dir, own));
                assert(before.push(image).drop_last() =~= before);
            },
            None => {},
        }
    }
}

/// A thumbnail ends as no description does.
proof fn lemma_thumbnail_end(name: Seq<char>)
    ensures
        thumbnail_of(name).len() > 0,
        thumbnail_of(name).last() != 'n',
{
    reveal_strlit("_thumb.jpg");
}

/// Different names below a directory are different paths.
proof fn lemma_joined_apart(dir: Seq<char>, a: Seq<char>, b: Seq<char>)
    requires
        free_of(a, '/'),
        free_of(b, '/'),
        a != b,
    ensures
        joined(dir, a) != joined(dir, b),
{
    let p = joined(dir, a);
    let q = joined(dir, b);
    let head = if dir.len() == 0 || dir.last() == '/' {
        dir
    } else {
        dir + seq!['/']
    };
    if a.len() > 0 {
        assert(a[0] != '/');
    }
    if b.len() > 0 {
        assert(b[0] != '/');
    }
    assert(p =~= head + a);
    assert(q =~= head + b);
    assert(p.skip(head.len() as int) =~= a);
    assert(q.skip(head.len() as int) =~= b);
}

/// The images of a directory lie at different paths.
proof fn lemma_among_distinct(dir: Seq<char>, files: Seq<FileView>, n: int)
    requires
        separate(dir, files),
        0 <= n <= files.len(),
    ensures
        distinct_paths(images_among(dir, files, n)),
        forall|k: int|
            0 <= k < images_among(dir, files, n).len() ==> exists|i: int|
                0 <= i < n && image_for(dir, files, (#[trigger] files[i]).name) == Some(
                    #[trigger] images_among(dir, files, n)[k],
                ),
    decreases n,
{
    if n > 0 {
        lemma_among_distinct(dir, files, n - 1);
        let most = images_among(dir, files, n - 1);
        let all = images_among(dir, files, n);
        let own = files[n - 1].name;
        assert forall|k: int| 0 <= k < all.len() implies exists|i: int|
            0 <= i < n && image_for(dir, files, (#[trigger] files[i]).name) == Some(
                #[trigger] all[k],
            ) by {
            if k < most.len() {
                assert(all[k] == most[k]);
                let i = choose|i: int|
                    0 <= i < n - 1 && image_for(dir, files, (#[trigger] files[i]).name) == Some(
                        most[k],
                    );
                assert(image_for(dir, files, files[i].name) == Some(all[k]));
            } else {
                assert(image_for(dir, files, files[n - 1].name) == Some(all[k]));
            }
        }
        if image_for(dir, files, own) is Some {
            assert forall|i: int, j: int| 0 <= i < j < all.len() implies (
            #[trigger] all[i]).path != (#[trigger] all[j]).path by {
                assert(all[i] == most[i]);
                if j < most.len() {
                    assert(all[j] == most[j]);
                } else {
                    let m = choose|m: int|
                        0 <= m < n - 1 && image_for(dir, files, (#[trigger] files[m]).name) == Some(
                            most[i],
                        );
                    assert(files[m].name != files[n - 1].name);
                    lemma_joined_apart(dir, files[m].name, own);
                }
            }
        }
    }
}

/// Deleting the image at a position of the listing takes out that position, and
/// its files are gone. What is left does not share its files either.
proof fn lemma_delete_listed(dir: Seq<char>, files: Seq<FileView>, name: Seq<char>, p: int)
    requires
        separate(dir, files),
        0 <= p < listing(dir, files).len(),
        free_of(name, '/'),
        listing(dir, files)[p].path == joined(dir, name),
    ensures
        has_file(files, name),
        listing(dir, without_names(files, files_of_image(name))) == listing(dir, files).remove(p),
        separate(dir, without_names(files, files_of_image(name))),
{
    let n = files.len() as int;
    let images = images_among(dir, files, n);
    let gone = files_of_image(name);
    let left = without_names(files, gone);
    lemma_among_distinct(dir, files, n);
    lemma_sorted_distinct(images);
    let image = newest_first(images)[p];
    let k = choose|k: int| 0 <= k < images.len() && images[k] == image;
    assert(images[k] == image);
    let at = choose|i: int|
        0 <= i < n && image_for(dir, files, (#[trigger] files[i]).name) == Some(images[k]);
    assert(files[at].name == name) by {
        if files[at].name != name {
            lemma_joined_apart(dir, files[at].name, name);
        }
    }
    lemma_delete_among(dir, files, at, n);
    assert(files.take(n) =~= files);
    lemma_sorted_without(images, joined(dir, name));
    lemma_without_is_remove(newest_first(images), p);
    lemma_left_apart(files, gone);
    assert forall|i: int| 0 <= i < left.len() implies free_of((#[trigger] left[i]).name, '/') by {
        let m = lemma_left(files, gone, i);
        assert(free_of(files[m].name, '/'));
    }
    assert forall|i: int, j: int|
        0 <= i < left.len() && 0 <= j < left.len() && i != j && image_for(
            dir,
            left,
            (#[trigger] left[i]).name,
        ) is Some && image_for(dir, left, (#[trigger] left[j]).name) is Some implies {
        &&& sidecar(left[i].name) != sidecar(left[j].name)
        &&& thumbnail_of(left[i].name) != left[j].name
    } by {
        let a = lemma_left(files, gone, i);
        let b = lemma_left(files, gone, j);
        assert(a != b) by {
            if i < j {
                assert(left[i].name != left[j].name);
            } else {
                assert(left[j].name != left[i].name);
            }
        }
        lemma_listed_before(dir, files, gone, left[i].name);
        lemma_listed_before(dir, files, gone, left[j].name);
        assert(image_for(dir, files, files[a].name) is Some);
        assert(image_for(dir, files, files[b].name) is Some);
    }
}

/// What is listed after files were taken out was listed before.
proof fn lemma_listed_before(
    dir: Seq<char>,
    files: Seq<FileView>,
    gone: Seq<Seq<char>>,
    name: Seq<char>,
)
    requires
        forall|i: int, j: int|
            0 <= i < j < files.len() ==> (#[trigger] files[i]).name != (#[trigger] files[j]).name,
        image_for(dir, without_names(files, gone), name) is Some,
    ensures
        image_for(dir, files, name) is Some,
{
    let left = without_names(files, gone);
    lemma_file_at(left, sidecar(name), 0);
    let k = file_at(left, sidecar(name), 0);
    assert(left[k].name == sidecar(name));
    let m = lemma_left(files, gone, k);
    lemma_meta_kept(files, gone, name);
}

/// Trimming keeps the newest images: once the images beyond the first `max` of
/// the listing are deleted, the listing is what its first `max` were, each of
/// them was there to be deleted, and their descriptions and thumbnails are gone.
///
/// `names` are the file names of the images beyond the first `max`.
pub proof fn lemma_trim_keeps_newest(
    dir: Seq<char>,
    files: Seq<FileView>,
    max: int,
    names: Seq<Seq<char>>,
)
    requires
        separate(dir, files),
        0 <= max <= listing(dir, files).len(),
        names.len() == listing(dir, files).len() - max,
        forall|i: int|
            0 <= i < names.len() ==> free_of(#[trigger] names[i], '/') && joined(dir, names[i])
                == listing(dir, files)[max + i].path,
    ensures
        listing(dir, after_deletes(files, names)) == listing(dir, files).take(max),
        forall|i: int|
            0 <= i < names.len() ==> has_file(
                after_deletes(files, names.take(i)),
                #[trigger] names[i],
            ),
        forall|i: int, f: Seq<char>|
            0 <= i < names.len() && #[trigger] files_of_image(names[i]).contains(f) ==> !has_file(
                after_deletes(files, names),
                f,
            ),
{
    let all = listing(dir, files);
    assert(names.take(names.len() as int) =~= names);
    assert forall|i: int| 0 <= i < names.len() implies has_file(
        after_deletes(files, names.take(i)),
        #[trigger] names[i],
    ) by {
        lemma_trim_step(dir, files, max, names, i);
    }
    lemma_trim_through(dir, files, max, names, names.len() as int);
    assert(all.take(max) + all.skip(max + names.len()) =~= all.take(max));
}

/// The listing in the middle of trimming, and the files that are gone by then.
proof fn lemma_trim_through(
    dir: Seq<char>,
    files: Seq<FileView>,
    max: int,
    names: Seq<Seq<char>>,
    n: int,
)
    requires
        separate(dir, files),
        0 <= max <= listing(dir, files).len(),
        names.len() == listing(dir, files).len() - max,
        forall|i: int|
            0 <= i < names.len() ==> free_of(#[trigger] names[i], '/') && joined(dir, names[i])
                == listing(dir, files)[max + i].path,
        0 <= n <= names.len(),
    ensures
        separate(dir, after_deletes(files, names.take(n))),
        listing(dir, after_deletes(files, names.take(n))) == listing(dir, files).take(max)
            + listing(dir, files).skip(max + n),
        forall|i: int, f: Seq<char>|
            0 <= i < n && #[trigger] files_of_image(names[i]).contains(f) ==> !has_file(
                after_deletes(files, names.take(n)),
                f,
            ),
    decreases n,
{
    let all = listing(dir, files);
    if n == 0 {
        assert(names.take(0) =~= Seq::empty());
        assert(all.take(max) + all.skip(max) =~= all);
    } else {
        lemma_trim_through(dir, files, max, names, n - 1);
        let before = after_deletes(files, names.take(n - 1));
        let name = names[n - 1];
        let gone = files_of_image(name);
        assert(names.take(n).drop_last() =~= names.take(n - 1));
        assert(names.take(n).last() == name);
        let now = listing(dir, before);
        assert(now[max] == all[max + n - 1]);
        lemma_delete_listed(dir, before, name, max);
        assert(now.remove(max) =~= all.take(max) + all.skip(max + n));
        assert forall|i: int, f: Seq<char>|
            0 <= i < n && #[trigger] files_of_image(names[i]).contains(f) implies !has_file(
            after_deletes(files, names.take(n)),
            f,
        ) by {
            lemma_deleted(before, gone, f);
            if i < n - 1 {
                assert(!has_file(before, f));
            }
        }
    }
}

proof fn lemma_trim_step(
    dir: Seq<char>,
    files: Seq<FileView>,
    max: int,
    names: Seq<Seq<char>>,
    n: int,
)
    requires
        separate(dir, files),
        0 <= max <= listing(dir, files).len(),
        names.len() == listing(dir, files).len() - max,
        forall|i: int|
            0 <= i < names.len() ==> free_of(#[trigger] names[i], '/') && joined(dir, names[i])
                == listing(dir, files)[max + i].path,
        0 <= n < names.len(),
    ensures
        has_file(after_deletes(files, names.take(n)), names[n]),
{
    let all = listing(dir, files);
    lemma_trim_through(dir, files, max, names, n);
    let before = after_deletes(files, names.take(n));
    assert(listing(dir, before)[max] == all[max + n]);
    lemma_delete_listed(dir, before, names[n], max);
}

} // verus!
