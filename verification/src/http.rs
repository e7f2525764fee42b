//! Reading of HTTP replies.

use vstd::prelude::*;

use crate::path::{extension, extension_of};
use crate::text::{
    char_from, chars, concat, find_char, lower, lowered, same, slice, starts_with, trim, trimmed,
};

verus! {

/// The user agent of every request but Spotlight's.
pub const USER_AGENT: &'static str = "Equinox/0.1.2";

/// A reply: its status with the name of it, the body and the `Content-Type`.
#[derive(Debug)]
pub struct HttpResponse {
    pub status: u32,
    pub status_name: String,
    pub body: Vec<u8>,
    pub content_type: Option<String>,
}

/// The part of `s` before the first `c`.
pub open spec fn before_char(s: Seq<char>, c: char) -> Seq<char> {
    s.take(find_char(s, c, 0))
}

pub fn cut_at(s: &str, c: char) -> (r: String)
    ensures
        r@ == before_char(s@, c),
{
    let v = chars(s);
    let end = char_from(&v, c, 0);
    assert(v@.subrange(0, end as int) =~= v@.take(end as int));
    slice(&v, 0, end)
}

/// The type of a `Content-Type` header, without its parameters.
pub open spec fn media_type(header: Seq<char>) -> Seq<char> {
    lower(trim(before_char(header, ';')))
}

fn media_type_of(header: &str) -> (r: String)
    ensures
        r@ == media_type(header@),
{
    lowered(trimmed(cut_at(header, ';').as_str()).as_str())
}

/// The file extension of an image type.
pub open spec fn type_extension(media: Seq<char>) -> Option<Seq<char>> {
    if media == "image/jpeg"@ || media == "image/jpg"@ {
        Some("jpg"@)
    } else if media == "image/png"@ {
        Some("png"@)
    } else if media == "image/webp"@ {
        Some("webp"@)
    } else if media == "image/avif"@ {
        Some("avif"@)
    } else if media == "image/gif"@ {
        Some("gif"@)
    } else if media == "image/tiff"@ {
        Some("tiff"@)
    } else {
        None
    }
}

/// The extensions of image files.
pub open spec fn is_image_extension(ext: Seq<char>) -> bool {
    ext == "jpg"@ || ext == "jpeg"@ || ext == "png"@ || ext == "webp"@ || ext == "avif"@ || ext
        == "gif"@ || ext == "tif"@ || ext == "tiff"@
}

pub fn image_file_extension(ext: &str) -> (r: bool)
    ensures
        r == is_image_extension(ext@),
{
    same(ext, "jpg") || same(ext, "jpeg") || same(ext, "png") || same(ext, "webp") || same(
        ext,
        "avif",
    ) || same(ext, "gif") || same(ext, "tif") || same(ext, "tiff")
}

/// The image extension of a URL; `jpg` where it has none.
pub open spec fn url_extension(url: Seq<char>) -> Seq<char> {
    match extension_of(before_char(url, '?')) {
        Some(e) => if is_image_extension(lower(e)) {
            lower(e)
        } else {
            "jpg"@
        },
        None => "jpg"@,
    }
}

pub open spec fn extension_for(content_type: Option<Seq<char>>, url: Seq<char>) -> Seq<char> {
    match content_type {
        Some(ct) => match type_extension(media_type(ct)) {
            Some(e) => e,
            None => url_extension(url),
        },
        None => url_extension(url),
    }
}

/// The extension for a downloaded image: by its type, else by its URL.
pub fn image_extension(content_type: Option<&str>, url: &str) -> (r: String)
    ensures
        r@ == extension_for(crate::i18n::opt_str(content_type), url@),
        is_image_extension(r@),
{
    if let Some(header) = content_type {
        let media = media_type_of(header);
        let m = media.as_str();
        if same(m, "image/jpeg") || same(m, "image/jpg") {
            return "jpg".to_owned();
        }
        if same(m, "image/png") {
            return "png".to_owned();
        }
        if same(m, "image/webp") {
            return "webp".to_owned();
        }
        if same(m, "image/avif") {
            return "avif".to_owned();
        }
        if same(m, "image/gif") {
            return "gif".to_owned();
        }
        if same(m, "image/tiff") {
            return "tiff".to_owned();
        }
    }
    let path = cut_at(url, '?');
    if let Some(e) = extension(path.as_str()) {
        let low = lowered(e.as_str());
        if image_file_extension(low.as_str()) {
            return low;
        }
    }
    "jpg".to_owned()
}

/// The header is missing or names an image type.
pub open spec fn may_be_image(content_type: Option<Seq<char>>) -> bool {
    match content_type {
        None => true,
        Some(ct) => starts_with(media_type(ct), "image/"@),
    }
}

/// Whether a reply may be an image. A missing header is accepted, any other
/// type is not.
pub fn is_image_content_type(content_type: Option<&str>) -> (r: bool)
    ensures
        r == may_be_image(crate::i18n::opt_str(content_type)),
{
    match content_type {
        None => true,
        Some(header) => crate::text::has_prefix(media_type_of(header).as_str(), "image/"),
    }
}

/// The message for a reply with another status than 200.
pub open spec fn status_text(name: Seq<char>, url: Seq<char>) -> Seq<char> {
    "HTTP "@ + name + ": "@ + url
}

/// A reply has to have status 200; any other is an error that gives the name
/// of the status and the URL.
pub fn ensure_ok(status: u32, name: &str, url: &str) -> (r: Result<(), String>)
    ensures
        match r {
            Ok(_) => status == 200,
            Err(message) => status != 200 && message@ == status_text(name@, url@),
        },
{
    if status == 200 {
        Ok(())
    } else {
        let mut s = concat("HTTP ", name);
        s.append(": ");
        s.append(url);
        Err(s)
    }
}

} // verus!
