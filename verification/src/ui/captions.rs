//! Titles and captions of images.

use vstd::prelude::*;

use crate::path::{file_stem, file_stem_of};
use crate::source::text_at;
use crate::storage::{thumbnail_of, ImageMeta, MetaView, Storage};
use crate::text::concat;

verus! {

/// The title of an image by its file name.
pub open spec fn name_title(file: Seq<char>, untitled: Seq<char>) -> Seq<char> {
    match file_stem_of(file) {
        Some(s) => s,
        None => untitled,
    }
}

/// The title of an image: that of its description, else its file name.
pub open spec fn title_for(file: Seq<char>, meta: Option<MetaView>, untitled: Seq<char>) -> Seq<
    char,
> {
    match meta {
        Some(m) => if m.title.len() > 0 {
            m.title
        } else {
            name_title(file, untitled)
        },
        None => name_title(file, untitled),
    }
}

/// The text about an image, under either name.
pub open spec fn about(m: MetaView) -> Option<Seq<char>> {
    match text_at(m.extra, "description"@) {
        Some(d) => Some(d),
        None => text_at(m.extra, "summary"@),
    }
}

pub open spec fn or_empty(o: Option<Seq<char>>) -> Seq<char> {
    match o {
        Some(s) => s,
        None => Seq::empty(),
    }
}

/// The caption in the viewer: the text about the image, else the copyright.
pub open spec fn viewer_caption(meta: Option<MetaView>) -> Seq<char> {
    match meta {
        Some(m) => {
            let d = or_empty(about(m));
            if d.len() > 0 {
                d
            } else {
                or_empty(m.copyright)
            }
        },
        None => Seq::empty(),
    }
}

/// The caption in the grid: the text about the image, even an empty one, else
/// the copyright.
pub open spec fn grid_caption(meta: Option<MetaView>) -> Seq<char> {
    match meta {
        Some(m) => match about(m) {
            Some(d) => d,
            None => or_empty(m.copyright),
        },
        None => Seq::empty(),
    }
}

/// The caption on the wallpaper page: the text about the image and the
/// copyright, each on a line of its own.
pub open spec fn page_caption(meta: Option<MetaView>) -> Seq<char> {
    match meta {
        Some(m) => {
            let d = or_empty(about(m));
            let c = or_empty(m.copyright);
            if d.len() > 0 && c.len() > 0 {
                d + "\n"@ + c
            } else if d.len() > 0 {
                d
            } else {
                c
            }
        },
        None => Seq::empty(),
    }
}

pub open spec fn opt_view(m: Option<&ImageMeta>) -> Option<MetaView> {
    match m {
        Some(m) => Some(m@),
        None => None,
    }
}

fn nothing() -> (r: String)
    ensures
        r@ == Seq::<char>::empty(),
{
    let r = String::new();
    assert(r@ =~= Seq::<char>::empty());
    r
}

/// The title of an image; `untitled` names a path without a file name.
pub fn image_title(file: &str, meta: Option<&ImageMeta>, untitled: &str) -> (r: String)
    ensures
        r@ == title_for(file@, opt_view(meta), untitled@),
{
    if let Some(m) = meta {
        if !m.title.as_str().is_empty() {
            return m.title.clone();
        }
    }
    match file_stem(file) {
        Some(s) => s,
        None => untitled.to_owned(),
    }
}

fn about_text(m: &ImageMeta) -> (r: Option<String>)
    ensures
        crate::text::opt_text(r) == about(m@),
{
    match m.extra.get("description") {
        Some(d) => Some(d.clone()),
        None => match m.extra.get("summary") {
            Some(s) => Some(s.clone()),
            None => None,
        },
    }
}

fn copyright_text(m: &ImageMeta) -> (r: String)
    ensures
        r@ == or_empty(m@.copyright),
{
    match &m.copyright {
        Some(c) => c.clone(),
        None => nothing(),
    }
}

/// The title and the caption in the viewer.
pub fn caption_for(file: &str, meta: Option<&ImageMeta>, untitled: &str) -> (r: (String, String))
    ensures
        r.0@ == title_for(file@, opt_view(meta), untitled@),
        r.1@ == viewer_caption(opt_view(meta)),
{
    let title = image_title(file, meta, untitled);
    let caption = match meta {
        Some(m) => match about_text(m) {
            Some(d) => if d.as_str().is_empty() {
                copyright_text(m)
            } else {
                d
            },
            None => copyright_text(m),
        },
        None => nothing(),
    };
    (title, caption)
}

/// The caption in the grid.
pub fn grid_description(meta: Option<&ImageMeta>) -> (r: String)
    ensures
        r@ == grid_caption(opt_view(meta)),
{
    match meta {
        Some(m) => match about_text(m) {
            Some(d) => d,
            None => copyright_text(m),
        },
        None => nothing(),
    }
}

/// The title, the caption and the day on the wallpaper page.
pub fn caption(file: &str, meta: Option<&ImageMeta>, untitled: &str) -> (r: (
    String,
    String,
    String,
))
    ensures
        r.0@ == title_for(file@, opt_view(meta), untitled@),
        r.1@ == page_caption(opt_view(meta)),
        r.2@ == (match opt_view(meta) {
            Some(m) => m.date,
            None => Seq::empty(),
        }),
{
    let title = image_title(file, meta, untitled);
    match meta {
        Some(m) => {
            let d = match about_text(m) {
                Some(d) => d,
                None => nothing(),
            };
            let c = copyright_text(m);
            let text = if d.as_str().is_empty() {
                c
            } else if c.as_str().is_empty() {
                d
            } else {
                concat(concat(d.as_str(), "\n").as_str(), c.as_str())
            };
            (title, text, m.date.clone())
        },
        None => (title, nothing(), nothing()),
    }
}

/// The file that is shown for an image: its thumbnail, where there is one.
pub fn display_path(path: &str, has_thumbnail: bool) -> (r: String)
    ensures
        r@ == (if has_thumbnail {
            thumbnail_of(path@)
        } else {
            path@
        }),
{
    if has_thumbnail {
        Storage::thumbnail_path(path)
    } else {
        path.to_owned()
    }
}

} // verus!
