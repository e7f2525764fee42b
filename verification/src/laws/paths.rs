//! Paths and lines.

use vstd::prelude::*;

use crate::path::{
    extension_of, file_name_of, file_stem_of, parent_of, settled, with_extension_of,
};
use crate::storage::thumbnail_of;
use crate::storage_laws::{lemma_after_last_is, lemma_after_last_none};
use crate::text::{free_of, join_texts, lemma_split_render, lines, render, split, without_return};

verus! {

/// A name with an ending: neither part holds a slash, and the ending no dot.
pub open spec fn plain_parts(stem: Seq<char>, ext: Seq<char>) -> bool {
    stem.len() > 0 && ext.len() > 0 && free_of(stem, '/') && free_of(ext, '/') && free_of(ext, '.')
}

/// The parts of a path: its name is what stands behind the last slash, its parent
/// what stands before it, and the last dot parts the name from its ending.
pub proof fn lemma_parts_of_path(dir: Seq<char>, stem: Seq<char>, ext: Seq<char>)
    requires
        plain_parts(stem, ext),
        dir.len() > 0,
        dir.last() != '/' && dir.last() != '.',
    ensures
        ({
            let name = stem + seq!['.'] + ext;
            let path = dir + seq!['/'] + name;
            &&& file_name_of(path) == Some(name)
            &&& extension_of(path) == Some(ext)
            &&& file_stem_of(path) == Some(stem)
            &&& parent_of(path) == Some(dir)
        }),
{
    let name = stem + seq!['.'] + ext;
    let path = dir + seq!['/'] + name;
    lemma_name_is_plain(stem, ext);
    assert(path.last() == ext.last());
    assert(settled(path) == path);
    lemma_after_last_is(dir, name, '/');
    assert(path.skip((dir.len() + 1) as int) =~= name);
    lemma_after_last_is(stem, ext, '.');
    assert(name.skip((stem.len() + 1) as int) =~= ext);
    assert(name.take(stem.len() as int) =~= stem);
    let head = path.take((dir.len() + 1) as int);
    assert(head =~= dir + seq!['/']);
    assert(head.drop_last() =~= dir);
    reveal_with_fuel(settled, 2);
    assert(settled(head) == dir);
    assert(path.len() > 1);
}

proof fn lemma_name_is_plain(stem: Seq<char>, ext: Seq<char>)
    requires
        plain_parts(stem, ext),
    ensures
        free_of(stem + seq!['.'] + ext, '/'),
        (stem + seq!['.'] + ext).len() > 2,
        ext.last() != '.' && ext.last() != '/',
{
    let name = stem + seq!['.'] + ext;
    assert forall|k: int| 0 <= k < name.len() implies #[trigger] name[k] != '/' by {
        if k < stem.len() {
            assert(name[k] == stem[k]);
        } else if k > stem.len() {
            assert(name[k] == ext[k - stem.len() - 1]);
        }
    }
}

/// The ending of a path is that of its name, whatever stands before.
pub proof fn lemma_ending_of_path(base: Seq<char>, stem: Seq<char>, ext: Seq<char>)
    requires
        plain_parts(stem, ext),
    ensures
        extension_of(base + seq!['/'] + (stem + seq!['.'] + ext)) == Some(ext),
{
    let name = stem + seq!['.'] + ext;
    let path = base + seq!['/'] + name;
    lemma_name_is_plain(stem, ext);
    assert(path.last() == ext.last());
    assert(settled(path) == path);
    lemma_after_last_is(base, name, '/');
    assert(path.skip((base.len() + 1) as int) =~= name);
    lemma_after_last_is(stem, ext, '.');
    assert(name.skip((stem.len() + 1) as int) =~= ext);
}

/// Another ending takes the place of the old one, in the same directory.
pub proof fn lemma_ending_changed(
    dir: Seq<char>,
    stem: Seq<char>,
    ext: Seq<char>,
    other: Seq<char>,
)
    requires
        plain_parts(stem, ext),
        dir.len() > 0,
        dir.last() != '/' && dir.last() != '.',
        other.len() > 0,
    ensures
        with_extension_of(dir + seq!['/'] + (stem + seq!['.'] + ext), other) == dir + seq!['/'] + (
        stem + seq!['.'] + other),
        with_extension_of(dir + seq!['/'] + (stem + seq!['.'] + ext), Seq::empty()) == dir
            + seq!['/'] + stem,
{
    let name = stem + seq!['.'] + ext;
    let path = dir + seq!['/'] + name;
    lemma_parts_of_path(dir, stem, ext);
    lemma_name_is_plain(stem, ext);
    assert(path.last() == ext.last());
    assert(settled(path) == path);
    lemma_after_last_is(dir, name, '/');
    let head = path.take((dir.len() + 1) as int);
    assert(head =~= dir + seq!['/']);
    assert(head + stem + seq!['.'] + other =~= dir + seq!['/'] + (stem + seq!['.'] + other));
}

/// The thumbnail of an image stands beside it.
pub proof fn lemma_thumbnail_beside(dir: Seq<char>, stem: Seq<char>, ext: Seq<char>)
    requires
        plain_parts(stem, ext),
        dir.len() > 0,
        dir.last() != '/' && dir.last() != '.',
    ensures
        thumbnail_of(dir + seq!['/'] + (stem + seq!['.'] + ext)) == dir + seq!['/'] + stem
            + "_thumb.jpg"@,
{
    lemma_parts_of_path(dir, stem, ext);
    let thumb = stem + "_thumb.jpg"@;
    assert(thumb[0] == stem[0]);
    assert(dir + seq!['/'] + thumb =~= dir + seq!['/'] + stem + "_thumb.jpg"@);
}

/// A name without a dot has no ending, and a leading dot begins none.
pub proof fn lemma_names_without_ending(name: Seq<char>)
    requires
        name.len() > 0,
        free_of(name, '/'),
        free_of(name, '.'),
    ensures
        extension_of(name) is None,
        file_stem_of(name) == Some(name),
        extension_of(seq!['.'] + name) is None,
{
    assert(name[name.len() - 1] != '/' && name[name.len() - 1] != '.');
    assert(settled(name) == name);
    lemma_after_last_none(name, '/');
    lemma_after_last_none(name, '.');
    assert(name.skip(0) =~= name);
    assert(name[0] != '.');
    let hidden = seq!['.'] + name;
    assert(hidden.last() == name.last());
    assert(settled(hidden) == hidden);
    assert(free_of(hidden, '/')) by {
        assert forall|k: int| 0 <= k < hidden.len() implies #[trigger] hidden[k] != '/' by {
            if k > 0 {
                assert(hidden[k] == name[k - 1]);
            }
        }
    }
    lemma_after_last_none(hidden, '/');
    assert(hidden.skip(0) =~= hidden);
    let e = Seq::<char>::empty();
    lemma_after_last_is(e, name, '.');
    assert(e + seq!['.'] + name =~= hidden);
}

/// Lines that are written are read back.
pub proof fn lemma_lines_read_back(all: Seq<Seq<char>>)
    requires
        forall|i: int|
            0 <= i < all.len() ==> free_of(#[trigger] all[i], '\n') && (all[i].len() == 0
                || all[i].last() != '\r'),
    ensures
        lines(render(all)) == all,
{
    assert forall|i: int| 0 <= i < all.len() implies free_of(#[trigger] all[i], '\n') by {}
    lemma_split_render(all);
    let pieces = split(render(all), '\n');
    assert(pieces.drop_last() =~= all);
    assert(pieces.last().len() == 0);
    let ended = pieces.drop_last().map_values(|l: Seq<char>| without_return(l));
    assert(ended =~= all);
}

/// Texts are joined with the separator between each two of them.
pub proof fn lemma_joined_in_order(v: Seq<Seq<char>>, sep: Seq<char>, last: Seq<char>)
    ensures
        join_texts(Seq::empty(), sep).len() == 0,
        v.len() > 0 ==> join_texts(v.push(last), sep) == join_texts(v, sep) + sep + last,
        join_texts(seq![last], sep) == last,
{
    if v.len() > 0 {
        assert(v.push(last).drop_last() =~= v);
    }
}

} // verus!
