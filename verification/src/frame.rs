//! Making frames: a source scaled down to a requested size and compressed.

use crate::codec::{
    check_frame_size, dimension_mismatch, encode_png, png_encoding, resample, FilterType,
};
use crate::error::Error;
use crate::select::{
    find_next_bigger_icon, has_source, lemma_exact_size_is_selected, lemma_selection_exists,
    selected_index,
};
use crate::sizes::IconSizes;
use crate::source::{widths, SourceImage, SourceImageView};
use vstd::prelude::*;

verus! {

/// The largest size that a directory entry can hold.
pub const MAX_ICON_SIZE: u32 = 256;

/// A frame can have this size: a directory entry has one byte for it, and
/// writes 256 as 0.
pub open spec fn valid_size(size: u32) -> bool {
    1 <= size <= MAX_ICON_SIZE
}

/// What an [`IcoFrame`] stands for: the length of its edge in pixels and its
/// compressed image.
pub struct IcoFrameView {
    pub size: u32,
    pub encoded: Seq<u8>,
}

/// One frame of a container: a square image of a valid size, compressed.
#[derive(Debug)]
pub struct IcoFrame {
    size: u32,
    encoded: Vec<u8>,
}

impl View for IcoFrame {
    type V = IcoFrameView;

    closed spec fn view(&self) -> IcoFrameView {
        IcoFrameView { size: self.size, encoded: self.encoded@ }
    }
}

/// What the frames stand for, in their order.
pub open spec fn frame_views(frames: Seq<IcoFrame>) -> Seq<IcoFrameView> {
    Seq::new(frames.len(), |i: int| frames[i]@)
}

/// Every frame has a valid size.
pub open spec fn all_valid(frames: Seq<IcoFrameView>) -> bool {
    forall|i: int| 0 <= i < frames.len() ==> valid_size((#[trigger] frames[i]).size)
}

impl IcoFrame {
    /// A frame of the given size around an image that is already compressed.
    /// A size that is not between 1 and 256 is refused, with the codec's
    /// error for it.
    pub fn with_encoded(encoded: Vec<u8>, size: u32) -> (r: Result<IcoFrame, Error>)
        ensures
            match r {
                Ok(frame) => valid_size(size) && frame@ == (IcoFrameView { size, encoded: encoded@ }),
                Err(e) => !valid_size(size) && e is Image,
            },
    {
        match check_frame_size(encoded.as_slice(), size, size) {
            Ok(()) => Ok(IcoFrame { size, encoded }),
            Err(e) => Err(Error::Image(e)),
        }
    }

    /// The length of the frame's edge in pixels.
    pub fn size(&self) -> (r: u32)
        ensures
            r == self@.size,
    {
        self.size
    }

    /// The compressed image.
    pub fn encoded(&self) -> (r: &[u8])
        ensures
            r@ == self@.encoded,
    {
        self.encoded.as_slice()
    }
}

/// `buffer` can come out of scaling `source` down to `size`: it holds four
/// samples for each pixel of the new size, and where the source already has
/// that size it is the source's own samples.
pub open spec fn resampled(source: SourceImageView, size: u32, buffer: Seq<u8>) -> bool {
    &&& buffer.len() == 4 * size * size
    &&& source.width == size ==> buffer == source.pixels
}

/// The frame that is made of a buffer: `None` where the buffer does not hold
/// the samples of a square of this size, where the PNG encoder refuses it,
/// or where no frame has this size.
pub open spec fn frame_of(buffer: Seq<u8>, size: u32) -> Option<IcoFrameView> {
    if buffer.len() == 4 * size * size && valid_size(size) {
        match png_encoding(buffer, size, size) {
            Some(encoded) => Some(IcoFrameView { size, encoded }),
            None => None,
        }
    } else {
        None
    }
}

/// The source that the frame of `size` is made from.
pub open spec fn chosen(icons: Seq<SourceImage>, size: u32) -> SourceImageView {
    icons[selected_index(widths(icons), size)]@
}

/// `frame` is a frame of `size` made from `icons`: a source is wide enough,
/// and the frame is made of some buffer that can come out of scaling the
/// chosen source down.
pub open spec fn framed(icons: Seq<SourceImage>, size: u32, frame: IcoFrameView) -> bool {
    &&& has_source(widths(icons), size)
    &&& exists|buffer: Seq<u8>|
        resampled(chosen(icons, size), size, buffer) && #[trigger] frame_of(buffer, size) == Some(
            frame,
        )
}

/// Some buffer that can come out of scaling the chosen source down to `size`
/// makes no frame.
pub open spec fn unframed(icons: Seq<SourceImage>, size: u32) -> bool {
    exists|buffer: Seq<u8>|
        resampled(chosen(icons, size), size, buffer) && #[trigger] frame_of(buffer, size) is None
}

/// Making the frame of `size` from `icons` can fail with `e`: no source is
/// wide enough and the size is missing, or some buffer that can come out of
/// scaling makes no frame and the error is the codec's.
pub open spec fn frame_failure(icons: Seq<SourceImage>, size: u32, e: Error) -> bool {
    if has_source(widths(icons), size) {
        e is Image && unframed(icons, size)
    } else {
        e == Error::MissingIconSize(size)
    }
}

/// A frame of a size that some source has is the compressed image of the
/// chosen source's own samples, which has that size: no sample is changed on
/// the way.
pub proof fn lemma_identity_scale(icons: Seq<SourceImage>, size: u32, frame: IcoFrameView, j: int)
    requires
        framed(icons, size, frame),
        0 <= j < icons.len(),
        icons[j]@.width == size,
    ensures
        chosen(icons, size).width == size,
        png_encoding(chosen(icons, size).pixels, size, size) == Some(frame.encoded),
{
    assert(widths(icons)[j] == size);
    lemma_exact_size_is_selected(widths(icons), size, j);
}

/// For a valid size that a source has exactly, a frame is owed wherever the
/// PNG encoder accepts that source's samples: nothing else can fail.
pub proof fn lemma_identity_frame_is_owed(icons: Seq<SourceImage>, size: u32, j: int)
    requires
        valid_size(size),
        0 <= j < icons.len(),
        icons[j]@.width == size,
        icons[selected_index(widths(icons), size)]@.wf(),
        png_encoding(chosen(icons, size).pixels, size, size) is Some,
    ensures
        !unframed(icons, size),
{
    assert(widths(icons)[j] == size);
    lemma_exact_size_is_selected(widths(icons), size, j);
}

/// Compresses a square 8-bit RGBA buffer and makes a frame of it.
///
/// The frame is [`frame_of`] the buffer. Where that is `None` the error is
/// the codec's: for a buffer that does not match the size, for an image that
/// the PNG encoder refuses, or for a size that no frame has.
pub fn encode_ico_frame(buffer: &[u8], size: u32) -> (r: Result<IcoFrame, Error>)
    ensures
        match r {
            Ok(frame) => frame_of(buffer@, size) == Some(frame@),
            Err(e) => frame_of(buffer@, size) is None && e is Image,
        },
{
    let side: u128 = size as u128;
    assert(4 * (side * side) <= u128::MAX) by (nonlinear_arith)
        requires
            side <= u32::MAX,
    ;
    let samples: u128 = 4 * (side * side);
    assert(samples == 4 * size * size) by (nonlinear_arith)
        requires
            samples == 4 * (side * side),
            side == size,
    ;
    if buffer.len() as u128 != samples {
        return Err(Error::Image(dimension_mismatch()));
    }
    match encode_png(buffer, size, size) {
        Ok(encoded) => IcoFrame::with_encoded(encoded, size),
        Err(e) => Err(Error::Image(e)),
    }
}

/// Makes the frame of one size: chooses the source, scales it down and
/// compresses the result.
///
/// Without a source that is wide enough the size is missing. Otherwise the
/// scaling is the codec's: the result is what [`encode_ico_frame`] makes of
/// a buffer that can come out of scaling the chosen source down, a frame or
/// the codec's error.
pub fn create_ico_frame(icons: &[SourceImage], size: u32, filter_type: FilterType) -> (r: Result<
    IcoFrame,
    Error,
>)
    ensures
        match r {
            Ok(frame) => framed(icons@, size, frame@),
            Err(e) => frame_failure(icons@, size, e),
        },
{
    let next_bigger_icon = match find_next_bigger_icon(icons, size) {
        Ok(icon) => icon,
        Err(e) => { return Err(e); },
    };
    proof {
        lemma_selection_exists(widths(icons@), size);
    }
    let width = next_bigger_icon.width();
    let resized = resample(next_bigger_icon.pixels(), width, width, size, size, filter_type);
    assert(resampled(chosen(icons@, size), size, resized@));
    encode_ico_frame(resized.as_slice(), size)
}

/// `frames` are the frames of `sizes` made from `icons`: each size has its
/// frame, in the order of the sizes.
pub open spec fn frames_for(icons: Seq<SourceImage>, sizes: Seq<u32>, frames: Seq<IcoFrameView>) -> bool {
    &&& frames.len() == sizes.len()
    &&& forall|i: int| 0 <= i < sizes.len() ==> framed(icons, sizes[i], #[trigger] frames[i])
}

/// The build can fail at the size at index `i` with `e`: every earlier size
/// has its frame, and making the frame of this one can fail with `e`.
pub open spec fn fails_at(icons: Seq<SourceImage>, sizes: Seq<u32>, i: int, e: Error) -> bool {
    &&& 0 <= i < sizes.len()
    &&& exists|frames: Seq<IcoFrameView>| #[trigger] frames_for(icons, sizes.take(i), frames)
    &&& frame_failure(icons, sizes[i], e)
}

/// The build can fail with `e` at one of the sizes.
pub open spec fn fails(icons: Seq<SourceImage>, sizes: Seq<u32>, e: Error) -> bool {
    exists|i: int| fails_at(icons, sizes, i, e)
}

/// Makes one frame for each size, in the order of the sizes. A size that
/// occurs twice gets two frames. The first failure ends the work, and no
/// frames are returned.
///
/// Frames that are returned are [`frames_for`] the sizes. A failure is that
/// of the first size whose frame is not made: see [`frame_failure`].
pub fn create_ico_frames(sizes: &IconSizes, icons: &[SourceImage], filter_type: FilterType) -> (r:
    Result<Vec<IcoFrame>, Error>)
    ensures
        match r {
            Ok(frames) => frames_for(icons@, sizes@, frame_views(frames@)),
            Err(e) => fails(icons@, sizes@, e),
        },
{
    let requested = sizes.as_slice();
    let mut frames: Vec<IcoFrame> = Vec::new();
    let mut i: usize = 0;
    while i < requested.len()
        invariant
            i <= requested.len(),
            requested@ == sizes@,
            frames_for(icons@, sizes@.take(i as int), frame_views(frames@)),
        decreases requested.len() - i,
    {
        let ghost before = frame_views(frames@);
        match create_ico_frame(icons, requested[i], filter_type) {
            Ok(frame) => {
                frames.push(frame);
                proof {
                    let after = frame_views(frames@);
                    let served = sizes@.take(i + 1);
                    assert forall|j: int| 0 <= j < served.len() implies framed(
                        icons@,
                        served[j],
                        #[trigger] after[j],
                    ) by {
                        if j < i {
                            assert(after[j] == before[j]);
                            assert(served[j] == sizes@.take(i as int)[j]);
                        }
                    }
                }
            },
            Err(e) => {
                assert(fails_at(icons@, sizes@, i as int, e));
                return Err(e);
            },
        }
        i += 1;
    }
    assert(sizes@.take(i as int) == sizes@);
    Ok(frames)
}

} // verus!
