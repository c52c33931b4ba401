//! Decoded source images.

use crate::codec::{decode_rgba8, decoding, dimension_mismatch};
use crate::error::Error;
use vstd::prelude::*;

verus! {

/// A source as it is handed in: its path, by which failures name it, and its
/// contents, still encoded.
#[derive(Debug)]
pub struct SourceFile {
    pub path: String,
    pub contents: Vec<u8>,
}

/// What a [`SourceImage`] stands for: where it came from, the length of its
/// edge in pixels, and its samples, four for each pixel, row by row.
pub struct SourceImageView {
    pub path: Seq<char>,
    pub width: u32,
    pub pixels: Seq<u8>,
}

impl SourceImageView {
    /// The buffer holds exactly the samples of a square of this width.
    pub open spec fn wf(self) -> bool {
        self.pixels.len() == 4 * self.width * self.width
    }
}

/// A decoded source: a square 8-bit RGBA image at its native resolution.
#[derive(Debug)]
pub struct SourceImage {
    path: String,
    width: u32,
    pixels: Vec<u8>,
}

impl View for SourceImage {
    type V = SourceImageView;

    closed spec fn view(&self) -> SourceImageView {
        SourceImageView { path: self.path@, width: self.width, pixels: self.pixels@ }
    }
}

/// The widths of the sources, in their order.
pub open spec fn widths(icons: Seq<SourceImage>) -> Seq<u32> {
    Seq::new(icons.len(), |i: int| icons[i]@.width)
}

/// Whether an image of this width and height is a square.
pub fn is_square(width: u32, height: u32) -> (r: bool)
    ensures
        r == (width == height),
{
    width == height
}

impl SourceImage {
    #[verifier::type_invariant]
    closed spec fn holds_its_square(self) -> bool {
        self@.wf()
    }

    /// Takes a decoded image into the catalog.
    ///
    /// An image that is not a square is refused, with its path and its
    /// measured width and height. A square whose buffer holds fewer than
    /// `4 * width * width` samples is refused with the codec's error for
    /// mismatched dimensions. Of any other square the first
    /// `4 * width * width` samples are kept.
    pub fn new(path: String, width: u32, height: u32, pixels: Vec<u8>) -> (r: Result<
        SourceImage,
        Error,
    >)
        ensures
            match r {
                Ok(image) => width == height && pixels@.len() >= 4 * width * width && image@.wf()
                    && image@ == (SourceImageView {
                    path: path@,
                    width,
                    pixels: pixels@.take(4 * width * width),
                }),
                Err(Error::NonSquareImage { path: p, width: w, height: h }) => width != height
                    && p@ == path@ && w == width && h == height,
                Err(Error::Image(_)) => width == height && pixels@.len() < 4 * width * width,
                Err(_) => false,
            },
    {
        if !is_square(width, height) {
            return Err(Error::NonSquareImage { path, width, height });
        }
        let mut pixels = pixels;
        let available: usize = pixels.len();
        let side: u128 = width as u128;
        assert(4 * (side * side) <= u128::MAX) by (nonlinear_arith)
            requires
                side <= u32::MAX,
        ;
        let samples: u128 = 4 * (side * side);
        assert(samples == 4 * width * width) by (nonlinear_arith)
            requires
                samples == 4 * (side * side),
                side == width,
        ;
        if (available as u128) < samples {
            return Err(Error::Image(dimension_mismatch()));
        }
        pixels.truncate(samples as usize);
        Ok(SourceImage { path, width, pixels })
    }

    /// Where the image came from.
    pub fn path(&self) -> (r: &str)
        ensures
            r@ == self@.path,
    {
        self.path.as_str()
    }

    /// The length of the image's edge in pixels.
    pub fn width(&self) -> (r: u32)
        ensures
            r == self@.width,
    {
        self.width
    }

    /// The samples of the image, four for each pixel, row by row: exactly
    /// those of its square.
    pub fn pixels(&self) -> (r: &[u8])
        ensures
            r@ == self@.pixels,
            self@.wf(),
    {
        proof {
            use_type_invariant(self);
        }
        self.pixels.as_slice()
    }
}

/// What decoding a file gives: the codec's failure to decode under the
/// file's path; for an image that is not a square, its path and its measured
/// width and height; for a square, the image with the samples of its square.
pub open spec fn icon_result(path: Seq<char>, bytes: Seq<u8>, r: Result<SourceImage, Error>) -> bool {
    match decoding(path, bytes) {
        None => r matches Err(Error::Decode { path: p, error: _ }) && p@ == path,
        Some((w, h, px)) => if w != h {
            r matches Err(Error::NonSquareImage { path: p, width, height }) && p@ == path && width
                == w && height == h
        } else {
            r matches Ok(image) && image@ == (SourceImageView {
                path,
                width: w,
                pixels: px.take(4 * w * w),
            })
        },
    }
}

/// The file decodes to a square.
pub open spec fn decodes_square(file: SourceFile) -> bool {
    decoding(file.path@, file.contents@) matches Some((w, h, _)) && w == h
}

/// The image that a file decodes to, where it decodes to a square: the
/// samples of the square under the file's path.
pub open spec fn icon_of(file: SourceFile) -> SourceImageView {
    let decoded = decoding(file.path@, file.contents@)->Some_0;
    SourceImageView {
        path: file.path@,
        width: decoded.0,
        pixels: decoded.2.take(4 * decoded.0 * decoded.0),
    }
}

/// Decodes one source and takes it into the catalog. The format is that of
/// the path's extension.
///
/// The result is [`icon_result`] of the path and the bytes, and a source that
/// is returned holds exactly the samples of its square.
pub fn decode_icon(path: &str, bytes: &[u8]) -> (r: Result<SourceImage, Error>)
    ensures
        icon_result(path@, bytes@, r),
        r matches Ok(image) ==> image@.wf(),
{
    match decode_rgba8(path, bytes) {
        Ok((width, height, pixels)) => {
            assert(width == height ==> pixels@.len() >= 4 * width * width);
            SourceImage::new(path.to_owned(), width, height, pixels)
        },
        Err(error) => Err(Error::Decode { path: path.to_owned(), error }),
    }
}

/// `icons` is the catalog of `source_files`: every source decodes to a
/// square, and the catalog holds these squares, in the order of the sources.
pub open spec fn catalog_of(source_files: Seq<SourceFile>, icons: Seq<SourceImage>) -> bool {
    &&& icons.len() == source_files.len()
    &&& forall|i: int|
        0 <= i < icons.len() ==> {
            &&& decodes_square(#[trigger] source_files[i])
            &&& icons[i]@ == icon_of(source_files[i])
            &&& icons[i]@.wf()
        }
}

/// The sources have one catalog: two catalogs of the same sources hold the
/// same images, so what is built from one is built from the other.
pub proof fn lemma_catalog_unique(
    source_files: Seq<SourceFile>,
    one: Seq<SourceImage>,
    other: Seq<SourceImage>,
)
    requires
        catalog_of(source_files, one),
        catalog_of(source_files, other),
    ensures
        one.len() == other.len(),
        forall|i: int| 0 <= i < one.len() ==> (#[trigger] one[i])@ == other[i]@,
        widths(one) == widths(other),
{
    assert forall|i: int| 0 <= i < one.len() implies (#[trigger] one[i])@ == other[i]@ by {
        assert(decodes_square(source_files[i]));
    }
    assert(widths(one) =~= widths(other));
}

/// The catalog fails at the source at index `i` with `e`: every earlier
/// source decodes to a square, this one does not, and `e` is what decoding it
/// gives.
pub open spec fn catalog_fails_at(source_files: Seq<SourceFile>, i: int, e: Error) -> bool {
    &&& 0 <= i < source_files.len()
    &&& forall|j: int| 0 <= j < i ==> decodes_square(#[trigger] source_files[j])
    &&& !decodes_square(source_files[i])
    &&& icon_result(
        source_files[i].path@,
        source_files[i].contents@,
        Err::<SourceImage, Error>(e),
    )
}

/// The catalog fails with `e` at one of the sources.
pub open spec fn catalog_fails(source_files: Seq<SourceFile>, e: Error) -> bool {
    exists|i: int| catalog_fails_at(source_files, i, e)
}

/// Decodes every source, in their order. The first failure ends the work, and
/// no catalog is returned.
///
/// A catalog is returned exactly where every source decodes to a square, and
/// it is then [`catalog_of`] the sources. Otherwise the error is that of the
/// first source that does not: see [`catalog_fails_at`].
pub fn decode_icons(source_files: &[SourceFile]) -> (r: Result<Vec<SourceImage>, Error>)
    ensures
        match r {
            Ok(icons) => catalog_of(source_files@, icons@),
            Err(e) => catalog_fails(source_files@, e),
        },
{
    let mut icons: Vec<SourceImage> = Vec::new();
    let mut i: usize = 0;
    while i < source_files.len()
        invariant
            i <= source_files.len(),
            catalog_of(source_files@.take(i as int), icons@),
        decreases source_files.len() - i,
    {
        let source_file = &source_files[i];
        match decode_icon(source_file.path.as_str(), source_file.contents.as_slice()) {
            Ok(icon) => {
                icons.push(icon);
            },
            Err(e) => {
                assert(catalog_fails_at(source_files@, i as int, e)) by {
                    assert forall|j: int| 0 <= j < i implies decodes_square(
                        #[trigger] source_files@[j],
                    ) by {
                        assert(source_files@.take(i as int)[j] == source_files@[j]);
                    }
                }
                return Err(e);
            },
        }
        i += 1;
    }
    assert(source_files@.take(i as int) == source_files@);
    Ok(icons)
}

} // verus!
