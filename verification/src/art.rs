//! Cover art: where it is found, and its palette.
//!
//! Decoding and down-scaling are done by the `image` crate; the library
//! chooses the format to decode with and turns the down-scaled pixels into
//! a palette (`crate::palette`).

use vstd::prelude::*;
use crate::color::Rgb;
use crate::palette::{dominant_colors, palette};
use crate::text::{chars_of, has_prefix, skip_chars, starts_with_chars, string_of};

verus! {

#[verifier::external_type_specification]
#[verifier::external_body]
pub struct ExImageFormat(image::ImageFormat);

#[verifier::external_type_specification]
#[verifier::external_body]
pub struct ExDynamicImage(image::DynamicImage);

/// The side, in pixels, of the square that cover art is scaled down into
/// before its colours are counted.
pub const THUMBNAIL_SIZE: u32 = 64;

/// Where the cover art of a track is to be read from.
pub enum ArtSource {
    /// An `http(s)` URL: the art is downloaded first.
    Download,
    /// A file on this machine, by its path.
    Local(String),
}

/// The path of the cover art at `url`: a `file://` URL without that
/// protocol prefix, any other text as it is.
pub open spec fn local_path_of(url: Seq<char>) -> Seq<char> {
    if has_prefix(url, "file://"@) {
        url.skip(7)
    } else {
        url
    }
}

/// Resolves where the cover art of a track is: URLs that start with
/// `http` are downloaded, anything else is a local path (see
/// `local_path_of`).
pub fn art_source(art_url: &str) -> (src: ArtSource)
    ensures
        has_prefix(art_url@, "http"@) <==> src is Download,
        match src {
            ArtSource::Local(p) => p@ == local_path_of(art_url@),
            ArtSource::Download => true,
        },
{
    let url = chars_of(art_url);
    let http = chars_of("http");
    if starts_with_chars(&url, &http) {
        return ArtSource::Download;
    }
    let file = chars_of("file://");
    if starts_with_chars(&url, &file) {
        proof {
            reveal_strlit("file://");
        }
        ArtSource::Local(string_of(&skip_chars(&url, 7)))
    } else {
        ArtSource::Local(string_of(&url))
    }
}

/// How an encoded image was decoded: in the format that its content
/// announces, or in the format that a file name's extension names.
pub enum ImageSource {
    Content(Seq<u8>),
    WithFormat(Seq<u8>, Seq<char>),
}

/// How an image was obtained from plain values: decoded, or decoded and
/// then scaled down into a box of the given width and height.
pub enum ImageOrigin {
    Decoded(ImageSource),
    Thumbnail(ImageSource, u32, u32),
}

/// A decoded image, with how it was obtained.
pub struct CoverImage {
    image: image::DynamicImage,
    origin: Ghost<ImageOrigin>,
}

impl View for CoverImage {
    type V = ImageOrigin;

    closed spec fn view(&self) -> ImageOrigin {
        self.origin@
    }
}

/// An image format found from a file name, with that file name.
pub struct FileFormat {
    format: image::ImageFormat,
    file_name: Ghost<Seq<char>>,
}

impl View for FileFormat {
    type V = Seq<char>;

    closed spec fn view(&self) -> Seq<char> {
        self.file_name@
    }
}

/// Whether `image::guess_format` recognizes a format from the leading
/// bytes of an encoded image.
pub uninterp spec fn content_names_format(bytes: Seq<u8>) -> bool;

/// Whether `image::ImageFormat::from_path` finds a format in a file name.
pub uninterp spec fn file_name_names_format(file_name: Seq<char>) -> bool;

/// Whether `image::load_from_memory` decodes an encoded image.
pub uninterp spec fn decodes_by_content(bytes: Seq<u8>) -> bool;

/// Whether `image::load_from_memory_with_format` decodes an encoded image
/// in the format named by the extension of `file_name`.
pub uninterp spec fn decodes_with_format(bytes: Seq<u8>, file_name: Seq<char>) -> bool;

/// The pixels of an image as `image::GenericImageView::pixels` yields them:
/// RGBA, row by row, four bytes each.
pub uninterp spec fn rgba_of(img: ImageOrigin) -> Seq<u8>;

/// `image::guess_format`: whether the leading bytes announce a format.
#[verifier::external_body]
fn content_has_format(bytes: &[u8]) -> (found: bool)
    ensures
        found == content_names_format(bytes@),
{
    image::guess_format(bytes).is_ok()
}

/// `image::load_from_memory`: decodes an image in the format that its
/// leading bytes announce. It succeeds exactly when `decodes_by_content`
/// holds, and, as it guesses the format first, only where a format is
/// announced.
#[verifier::external_body]
fn decode_by_content(bytes: &[u8]) -> (img: Option<CoverImage>)
    ensures
        img is Some <==> decodes_by_content(bytes@),
        img is Some ==> content_names_format(bytes@),
        img matches Some(i) ==> i@ == ImageOrigin::Decoded(ImageSource::Content(bytes@)),
{
    match image::load_from_memory(bytes) {
        Ok(image) => Some(CoverImage { image, origin: Ghost(ImageOrigin::Decoded(ImageSource::Content(bytes@))) }),
        Err(_) => None,
    }
}

/// `image::ImageFormat::from_path`: the format that a file name's
/// extension names, kept with the file name. Its contract states when one
/// is found, not which.
#[verifier::external_body]
fn format_from_file_name(file_name: &str) -> (format: Option<FileFormat>)
    ensures
        format is Some <==> file_name_names_format(file_name@),
        format matches Some(f) ==> f@ == file_name@,
{
    match image::ImageFormat::from_path(file_name) {
        Ok(format) => Some(FileFormat { format, file_name: Ghost(file_name@) }),
        Err(_) => None,
    }
}

/// `image::load_from_memory_with_format`: decodes an image in the format
/// found from a file name. It succeeds exactly when `decodes_with_format`
/// holds.
#[verifier::external_body]
fn decode_image(bytes: &[u8], format: &FileFormat) -> (img: Option<CoverImage>)
    ensures
        img is Some <==> decodes_with_format(bytes@, format@),
        img matches Some(i) ==> i@ == ImageOrigin::Decoded(ImageSource::WithFormat(bytes@, format@)),
{
    match image::load_from_memory_with_format(bytes, format.format) {
        Ok(image) => Some(CoverImage { image, origin: Ghost(ImageOrigin::Decoded(ImageSource::WithFormat(bytes@, format@))) }),
        Err(_) => None,
    }
}

/// `image::DynamicImage::thumbnail`: scales a decoded image down to fit in
/// the given box, keeping its aspect ratio.
#[verifier::external_body]
fn thumbnail(img: &CoverImage, width: u32, height: u32) -> (small: CoverImage)
    requires
        img@ is Decoded,
    ensures
        small@ == ImageOrigin::Thumbnail(img@->Decoded_0, width, height),
{
    CoverImage { image: img.image.thumbnail(width, height), origin: Ghost(ImageOrigin::Thumbnail(img@->Decoded_0, width, height)) }
}

/// `image::GenericImageView::pixels` on a `DynamicImage`: every pixel as
/// RGBA, row by row, four bytes each (`rgba_of`).
#[verifier::external_body]
fn rgba_pixels(img: &CoverImage) -> (bytes: Vec<u8>)
    ensures
        bytes@ == rgba_of(img@),
        bytes@.len() % 4 == 0,
{
    let mut bytes = Vec::new();
    for (_, _, p) in image::GenericImageView::pixels(&img.image) {
        bytes.extend_from_slice(&p.0);
    }
    bytes
}

/// How the cover art is decoded: by its content where that names a format,
/// else by the extension of its file name.
pub open spec fn cover_source(bytes: Seq<u8>, file_name: Seq<char>) -> ImageSource {
    if content_names_format(bytes) {
        ImageSource::Content(bytes)
    } else {
        ImageSource::WithFormat(bytes, file_name)
    }
}

/// Whether the cover art decodes.
pub open spec fn cover_decodes(bytes: Seq<u8>, file_name: Seq<char>) -> bool {
    if content_names_format(bytes) {
        decodes_by_content(bytes)
    } else {
        file_name_names_format(file_name) && decodes_with_format(bytes, file_name)
    }
}

/// The palette of the cover art: that of its thumbnail.
pub open spec fn cover_palette(bytes: Seq<u8>, file_name: Seq<char>) -> Seq<Rgb> {
    palette(
        rgba_of(ImageOrigin::Thumbnail(cover_source(bytes, file_name), THUMBNAIL_SIZE, THUMBNAIL_SIZE)),
    )
}

/// Extracts the palette of `PALETTE_SIZE` dominant colours from an encoded
/// image: its format is guessed from its content, or else taken from the
/// extension of `file_name`; it is decoded, scaled down into a
/// `THUMBNAIL_SIZE` square, and its pixels are counted by
/// `dominant_colors`. `None` when no format is found or decoding fails.
pub fn extract_colors(image_bytes: &[u8], file_name: &str) -> (colors: Option<Vec<Rgb>>)
    ensures
        colors is Some <==> cover_decodes(image_bytes@, file_name@),
        colors matches Some(c) ==> c@ == cover_palette(image_bytes@, file_name@),
        content_names_format(image_bytes@) ==> {
            &&& (colors is Some <==> decodes_by_content(image_bytes@))
            &&& colors matches Some(c) ==> c@ == palette(
                rgba_of(
                    ImageOrigin::Thumbnail(
                        ImageSource::Content(image_bytes@),
                        THUMBNAIL_SIZE,
                        THUMBNAIL_SIZE,
                    ),
                ),
            )
        },
        !content_names_format(image_bytes@) ==> {
            &&& (colors is Some <==> file_name_names_format(file_name@) && decodes_with_format(
                image_bytes@,
                file_name@,
            ))
            &&& colors matches Some(c) ==> c@ == palette(
                rgba_of(
                    ImageOrigin::Thumbnail(
                        ImageSource::WithFormat(image_bytes@, file_name@),
                        THUMBNAIL_SIZE,
                        THUMBNAIL_SIZE,
                    ),
                ),
            )
        },
{
    let img = if content_has_format(image_bytes) {
        decode_by_content(image_bytes)
    } else {
        match format_from_file_name(file_name) {
            Some(f) => decode_image(image_bytes, &f),
            None => None,
        }
    };
    let img = match img {
        Some(i) => i,
        None => return None,
    };
    let small = thumbnail(&img, THUMBNAIL_SIZE, THUMBNAIL_SIZE);
    let px = rgba_pixels(&small);
    let colors = dominant_colors(&px);
    Some(colors)
}

/// The content decides the format: where the leading bytes name a format,
/// the cover art decodes exactly when it decodes by its content, and its
/// palette is that of the content-decoded image, whatever the file name
/// (two file names give the same result); the file name's extension is
/// used only where the content names no format.
pub proof fn lemma_content_format_wins(bytes: Seq<u8>, name: Seq<char>, other: Seq<char>)
    ensures
        content_names_format(bytes) ==> {
            &&& cover_decodes(bytes, name) == decodes_by_content(bytes)
            &&& cover_palette(bytes, name) == palette(
                rgba_of(ImageOrigin::Thumbnail(ImageSource::Content(bytes), THUMBNAIL_SIZE, THUMBNAIL_SIZE)),
            )
            &&& cover_decodes(bytes, name) == cover_decodes(bytes, other)
            &&& cover_palette(bytes, name) == cover_palette(bytes, other)
        },
        !content_names_format(bytes) ==> {
            &&& cover_decodes(bytes, name) == (file_name_names_format(name) && decodes_with_format(
                bytes,
                name,
            ))
            &&& cover_palette(bytes, name) == palette(
                rgba_of(
                    ImageOrigin::Thumbnail(
                        ImageSource::WithFormat(bytes, name),
                        THUMBNAIL_SIZE,
                        THUMBNAIL_SIZE,
                    ),
                ),
            )
        },
{
}

} // verus!
