use vstd::prelude::*;
use crate::naming::{extension_spec, file_extension};
use image::ImageFormat as F;

verus! {

/// The image formats that the image crate tells apart.
#[derive(PartialEq, Eq, Structural, Debug, Clone, Copy)]
pub enum ImageKind {
    Avif,
    Jpeg,
    Png,
    Gif,
    WebP,
    Tiff,
    Tga,
    Dds,
    Bmp,
    Ico,
    Hdr,
    OpenExr,
    Pnm,
    Farbfeld,
    Qoi,
}

/// `c` with ASCII upper case letters made lower case.
pub open spec fn ascii_lower_char(c: char) -> char {
    if 'A' <= c && c <= 'Z' {
        ((c as u32) + 32) as u32 as char
    } else {
        c
    }
}

pub open spec fn ascii_lower(s: Seq<char>) -> Seq<char> {
    s.map_values(|c: char| ascii_lower_char(c))
}

/// The format that a lower-case extension names.
pub open spec fn format_of_extension(e: Seq<char>) -> Option<ImageKind> {
    if e == seq!['a', 'v', 'i', 'f'] {
        Some(ImageKind::Avif)
    } else if e == seq!['j', 'p', 'g'] || e == seq!['j', 'p', 'e', 'g'] {
        Some(ImageKind::Jpeg)
    } else if e == seq!['p', 'n', 'g'] {
        Some(ImageKind::Png)
    } else if e == seq!['g', 'i', 'f'] {
        Some(ImageKind::Gif)
    } else if e == seq!['w', 'e', 'b', 'p'] {
        Some(ImageKind::WebP)
    } else if e == seq!['t', 'i', 'f'] || e == seq!['t', 'i', 'f', 'f'] {
        Some(ImageKind::Tiff)
    } else if e == seq!['t', 'g', 'a'] {
        Some(ImageKind::Tga)
    } else if e == seq!['d', 'd', 's'] {
        Some(ImageKind::Dds)
    } else if e == seq!['b', 'm', 'p'] {
        Some(ImageKind::Bmp)
    } else if e == seq!['i', 'c', 'o'] {
        Some(ImageKind::Ico)
    } else if e == seq!['h', 'd', 'r'] {
        Some(ImageKind::Hdr)
    } else if e == seq!['e', 'x', 'r'] {
        Some(ImageKind::OpenExr)
    } else if e == seq!['p', 'b', 'm'] || e == seq!['p', 'a', 'm'] || e == seq!['p', 'p', 'm'] || e
        == seq!['p', 'g', 'm'] {
        Some(ImageKind::Pnm)
    } else if e == seq!['f', 'f'] || e == seq!['f', 'a', 'r', 'b', 'f', 'e', 'l', 'd'] {
        Some(ImageKind::Farbfeld)
    } else if e == seq!['q', 'o', 'i'] {
        Some(ImageKind::Qoi)
    } else {
        None
    }
}

/// The MIME type of a format.
pub open spec fn mime_spec(k: ImageKind) -> Seq<char> {
    match k {
        ImageKind::Avif => "image/avif"@,
        ImageKind::Jpeg => "image/jpeg"@,
        ImageKind::Png => "image/png"@,
        ImageKind::Gif => "image/gif"@,
        ImageKind::WebP => "image/webp"@,
        ImageKind::Tiff => "image/tiff"@,
        ImageKind::Tga => "image/x-targa"@,
        ImageKind::Dds => "image/vnd-ms.dds"@,
        ImageKind::Bmp => "image/bmp"@,
        ImageKind::Ico => "image/x-icon"@,
        ImageKind::Hdr => "image/vnd.radiance"@,
        ImageKind::OpenExr => "image/x-exr"@,
        ImageKind::Pnm => "image/x-portable-anymap"@,
        ImageKind::Qoi => "image/x-qoi"@,
        ImageKind::Farbfeld => "application/octet-stream"@,
    }
}

/// The MIME type that a stored file's extension implies, if it names a format.
pub open spec fn mime_of_file(file_name: Seq<char>) -> Option<Seq<char>> {
    match extension_spec(file_name) {
        Some(e) => match format_of_extension(ascii_lower(e)) {
            Some(k) => Some(mime_spec(k)),
            None => None,
        },
        None => None,
    }
}

/// Relies on image::ImageFormat::from_extension: the format that an extension
/// names, its ASCII letters read in lower case; `None` for any other.
#[verifier::external_body]
fn format_from_extension(ext: &str) -> (r: Option<ImageKind>)
    ensures
        r == format_of_extension(ascii_lower(ext@)),
{
    Some(match F::from_extension(ext)? {
        F::Avif => ImageKind::Avif, F::Jpeg => ImageKind::Jpeg, F::Png => ImageKind::Png,
        F::Gif => ImageKind::Gif, F::WebP => ImageKind::WebP, F::Tiff => ImageKind::Tiff,
        F::Tga => ImageKind::Tga, F::Dds => ImageKind::Dds, F::Bmp => ImageKind::Bmp,
        F::Ico => ImageKind::Ico, F::Hdr => ImageKind::Hdr, F::OpenExr => ImageKind::OpenExr,
        F::Pnm => ImageKind::Pnm, F::Farbfeld => ImageKind::Farbfeld, F::Qoi => ImageKind::Qoi,
        _ => return None,
    })
}

/// Relies on image::ImageFormat::to_mime_type: the MIME type of a format.
#[verifier::external_body]
fn mime_type_of(kind: ImageKind) -> (r: String)
    ensures
        r@ == mime_spec(kind),
{
    let f = match kind {
        ImageKind::Avif => F::Avif, ImageKind::Jpeg => F::Jpeg, ImageKind::Png => F::Png,
        ImageKind::Gif => F::Gif, ImageKind::WebP => F::WebP, ImageKind::Tiff => F::Tiff,
        ImageKind::Tga => F::Tga, ImageKind::Dds => F::Dds, ImageKind::Bmp => F::Bmp,
        ImageKind::Ico => F::Ico, ImageKind::Hdr => F::Hdr, ImageKind::OpenExr => F::OpenExr,
        ImageKind::Pnm => F::Pnm, ImageKind::Farbfeld => F::Farbfeld, ImageKind::Qoi => F::Qoi,
    };
    f.to_mime_type().to_string()
}

/// Why a stored variant cannot be served.
#[derive(PartialEq, Eq, Structural, Debug, Clone, Copy)]
pub enum PictureError {
    /// No file is stored for the image or for the variant.
    NotFound,
    /// The stored file's extension names no known image format.
    UnknownFormat,
}

/// The MIME type of a stored file, as its extension implies.
pub fn picture_mime(file_name: &str) -> (r: Result<String, PictureError>)
    ensures
        match r {
            Ok(m) => mime_of_file(file_name@) == Some(m@),
            Err(e) => e == PictureError::UnknownFormat && mime_of_file(file_name@) is None,
        },
{
    match file_extension(file_name) {
        None => Err(PictureError::UnknownFormat),
        Some(ext) => match format_from_extension(ext) {
            None => Err(PictureError::UnknownFormat),
            Some(kind) => Ok(mime_type_of(kind)),
        },
    }
}

/// File name `f` is a file of variant `v`: it reads `v`, a '.', then anything.
pub open spec fn is_variant_file(f: Seq<char>, v: Seq<char>) -> bool {
    &&& f.len() > v.len()
    &&& f.take(v.len() as int) == v
    &&& f[v.len() as int] == '.'
}

/// `i` is the first file of the listing that belongs to variant `v`.
pub open spec fn is_first_variant_file(files: Seq<String>, v: Seq<char>, i: int) -> bool {
    &&& 0 <= i < files.len()
    &&& is_variant_file(files[i]@, v)
    &&& forall|j: int| 0 <= j < i ==> !is_variant_file(#[trigger] files[j]@, v)
}

/// The first file of the listing that belongs to variant `v`.
pub open spec fn variant_file_spec(files: Seq<String>, v: Seq<char>) -> Option<int> {
    if exists|i: int| 0 <= i < files.len() && is_variant_file(files[i]@, v) {
        Some(choose|i: int| is_first_variant_file(files, v, i))
    } else {
        None
    }
}

proof fn lemma_first_variant_file_unique(files: Seq<String>, v: Seq<char>, i: int, j: int)
    requires
        is_first_variant_file(files, v, i),
        is_first_variant_file(files, v, j),
    ensures
        i == j,
{
}

fn is_variant_file_exec(f: &str, v: &str) -> (r: bool)
    ensures
        r == is_variant_file(f@, v@),
{
    let n = f.unicode_len();
    let m = v.unicode_len();
    if n <= m {
        return false;
    }
    let mut i: usize = 0;
    while i < m
        invariant
            n == f@.len(),
            m == v@.len(),
            m < n,
            i <= m,
            forall|j: int| 0 <= j < i ==> f@[j] == v@[j],
        decreases m - i,
    {
        if f.get_char(i) != v.get_char(i) {
            assert(f@.take(m as int)[i as int] != v@[i as int]);
            return false;
        }
        i += 1;
    }
    assert(f@.take(m as int) =~= v@);
    f.get_char(m) == '.'
}

/// The index of the first file in `files` that belongs to variant `variant`.
pub fn find_variant(files: &Vec<String>, variant: &str) -> (r: Option<usize>)
    ensures
        match r {
            None => variant_file_spec(files@, variant@) is None,
            Some(i) => i < files@.len() && variant_file_spec(files@, variant@) == Some(i as int),
        },
{
    let mut i: usize = 0;
    while i < files.len()
        invariant
            i <= files@.len(),
            forall|j: int| 0 <= j < i ==> !is_variant_file(#[trigger] files@[j]@, variant@),
        decreases files@.len() - i,
    {
        if is_variant_file_exec(files[i].as_str(), variant) {
            proof {
                assert(is_first_variant_file(files@, variant@, i as int));
                let k = choose|k: int| is_first_variant_file(files@, variant@, k);
                lemma_first_variant_file_unique(files@, variant@, k, i as int);
            }
            return Some(i);
        }
        i += 1;
    }
    None
}

/// Picks the file that serves variant `variant` of an image, from the listing
/// of the image's directory (`None` where the directory is missing), and the
/// MIME type that its extension implies.
pub fn locate_picture(listing: Option<&Vec<String>>, variant: &str) -> (r: Result<
    (usize, String),
    PictureError,
>)
    ensures
        match listing {
            None => r == Err::<(usize, String), PictureError>(PictureError::NotFound),
            Some(files) => match variant_file_spec(files@, variant@) {
                None => r == Err::<(usize, String), PictureError>(PictureError::NotFound),
                Some(i) => match r {
                    Ok((k, m)) => k == i && mime_of_file(files@[i]@) == Some(m@),
                    Err(e) => e == PictureError::UnknownFormat && mime_of_file(files@[i]@) is None,
                },
            },
        },
{
    match listing {
        None => Err(PictureError::NotFound),
        Some(files) => match find_variant(files, variant) {
            None => Err(PictureError::NotFound),
            Some(i) => match picture_mime(files[i].as_str()) {
                Ok(m) => Ok((i, m)),
                Err(e) => Err(e),
            },
        },
    }
}

} // verus!
