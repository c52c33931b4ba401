//! The builder: sizes, sources and filter are set, then the container is
//! built in one step.

use crate::codec::FilterType;
use crate::container::{
    assemble, container_bytes, fits, lemma_concat_push, lemma_round_trip, listing,
    parse_directory, payload_offset, payloads, DirEntry, ENTRY_LEN, HEADER_LEN,
};
use crate::error::Error;
use crate::frame::{
    all_valid, create_ico_frames, fails, fails_at, frame_of, frame_views, frames_for, unframed,
    valid_size, IcoFrameView,
};
use crate::select::has_source;
use crate::sizes::{minimal_sizes, IconSizes};
use crate::source::{catalog_fails, catalog_of, decode_icons, widths, SourceFile, SourceImage};
use vstd::prelude::*;

verus! {

/// What an [`IcoBuilder`] stands for.
pub struct IcoBuilderView {
    pub sizes: Seq<u32>,
    pub source_files: Seq<SourceFile>,
    pub filter_type: FilterType,
}

/// Builds a container from individual images. For each size the closest
/// source that is large enough is scaled down to it.
#[derive(Debug)]
pub struct IcoBuilder {
    sizes: IconSizes,
    source_files: Vec<SourceFile>,
    filter_type: FilterType,
}

impl View for IcoBuilder {
    type V = IcoBuilderView;

    closed spec fn view(&self) -> IcoBuilderView {
        IcoBuilderView {
            sizes: self.sizes@,
            source_files: self.source_files@,
            filter_type: self.filter_type,
        }
    }
}

impl Default for IcoBuilder {
    /// A builder for the minimal sizes, without sources, that scales with
    /// Lanczos3.
    fn default() -> (r: IcoBuilder)
        ensures
            r@ == (IcoBuilderView {
                sizes: minimal_sizes(),
                source_files: Seq::empty(),
                filter_type: FilterType::Lanczos3,
            }),
    {
        IcoBuilder {
            sizes: IconSizes::default(),
            source_files: Vec::new(),
            filter_type: FilterType::Lanczos3,
        }
    }
}

impl IcoBuilder {
    /// Replaces the sizes that the container is built for.
    pub fn sizes(&mut self, sizes: IconSizes) -> (r: &mut IcoBuilder)
        ensures
            *final(self) == *final(r),
            r@ == (IcoBuilderView { sizes: sizes@, ..old(self)@ }),
    {
        self.sizes = sizes;
        self
    }

    /// Adds a source: its path and its encoded contents. The image must be a
    /// square; it is decoded when the container is built.
    pub fn add_source_file(&mut self, path: String, contents: Vec<u8>) -> (r: &mut IcoBuilder)
        ensures
            *final(self) == *final(r),
            r@ == (IcoBuilderView {
                source_files: old(self)@.source_files.push(SourceFile { path, contents }),
                ..old(self)@
            }),
    {
        self.source_files.push(SourceFile { path, contents });
        self
    }

    /// Adds sources, in their order, behind those that are there.
    pub fn add_source_files(&mut self, source_files: Vec<SourceFile>) -> (r: &mut IcoBuilder)
        ensures
            *final(self) == *final(r),
            r@ == (IcoBuilderView {
                source_files: old(self)@.source_files + source_files@,
                ..old(self)@
            }),
    {
        let mut source_files = source_files;
        self.source_files.append(&mut source_files);
        self
    }

    /// Sets the filter with which sources are scaled down.
    pub fn filter_type(&mut self, filter_type: FilterType) -> (r: &mut IcoBuilder)
        ensures
            *final(self) == *final(r),
            r@ == (IcoBuilderView { filter_type, ..old(self)@ }),
    {
        self.filter_type = filter_type;
        self
    }
}

/// The directory has one entry for each size, in the order of the sizes.
/// Each entry has its size as width and height, no planes and no bit depth,
/// and the payloads lie one behind the other, the first directly behind the
/// directory.
pub open spec fn lists_sizes(entries: Seq<DirEntry>, sizes: Seq<u32>) -> bool {
    &&& entries.len() == sizes.len()
    &&& forall|i: int|
        0 <= i < sizes.len() ==> {
            &&& (#[trigger] entries[i]).width == sizes[i]
            &&& entries[i].height == sizes[i]
            &&& entries[i].planes == 0
            &&& entries[i].bits_per_pixel == 0
            &&& entries[i].offset == if i == 0 {
                HEADER_LEN + ENTRY_LEN * sizes.len()
            } else {
                entries[i - 1].offset + entries[i - 1].length
            }
        }
}

/// `bytes` is a container built for `sizes` from `icons`: the container of
/// the frames of the sizes.
pub open spec fn built_from(icons: Seq<SourceImage>, sizes: Seq<u32>, bytes: Seq<u8>) -> bool {
    exists|frames: Seq<IcoFrameView>|
        frames_for(icons, sizes, frames) && fits(frames) && bytes == #[trigger] container_bytes(
            frames,
        )
}

/// Every size has its frame, but the frames do not fit into one container.
pub open spec fn overflows(icons: Seq<SourceImage>, sizes: Seq<u32>) -> bool {
    exists|frames: Seq<IcoFrameView>| frames_for(icons, sizes, frames) && !#[trigger] fits(frames)
}

/// Where every size has its frame and the frames fit, the directory of
/// their container has one entry for each size, in the order of the sizes, with the
/// size as width and height, and each entry points to the payload of its
/// frame.
pub proof fn lemma_container_lists_sizes(
    icons: Seq<SourceImage>,
    sizes: Seq<u32>,
    frames: Seq<IcoFrameView>,
)
    requires
        frames_for(icons, sizes, frames),
        fits(frames),
    ensures
        all_valid(frames),
        parse_directory(container_bytes(frames)) == Some(listing(frames)),
        lists_sizes(listing(frames), sizes),
{
    assert forall|i: int| 0 <= i < frames.len() implies valid_size((#[trigger] frames[i]).size)
        && frames[i].size == sizes[i] by {
        let buffer = choose|buffer: Seq<u8>| #[trigger]
            frame_of(buffer, sizes[i]) == Some(frames[i]);
    }
    lemma_round_trip(frames);
    let entries = listing(frames);
    assert forall|i: int| 0 < i < sizes.len() implies (#[trigger] entries[i]).offset == entries[i
        - 1].offset + entries[i - 1].length by {
        lemma_concat_push(payloads(frames), i - 1);
        assert(entries[i - 1].offset == payload_offset(frames, i - 1));
        assert(entries[i - 1].length == frames[i - 1].encoded.len());
    }
    if sizes.len() > 0 {
        assert(payloads(frames).take(0) =~= Seq::<Seq<u8>>::empty());
        assert(entries[0].offset == payload_offset(frames, 0));
    }
}

/// When frames are owed: where every size has a source that is wide enough,
/// and no buffer that can come out of scaling makes no frame, making the
/// frames cannot fail.
pub proof fn lemma_frames_are_owed(icons: Seq<SourceImage>, sizes: Seq<u32>, e: Error)
    requires
        forall|i: int|
            0 <= i < sizes.len() ==> has_source(widths(icons), #[trigger] sizes[i]) && !unframed(
                icons,
                sizes[i],
            ),
    ensures
        !fails(icons, sizes, e),
{
    assert forall|i: int| !fails_at(icons, sizes, i, e) by {
        if 0 <= i < sizes.len() {
            assert(has_source(widths(icons), sizes[i]));
        }
    }
}

/// Building from the catalog can fail with `e`: making the frames can fail
/// with it, or every size has its frame and the frames do not fit.
pub open spec fn build_fails(icons: Seq<SourceImage>, sizes: Seq<u32>, e: Error) -> bool {
    match e {
        Error::ContainerTooLarge => overflows(icons, sizes),
        _ => fails(icons, sizes, e),
    }
}

/// Builds the container for `sizes` from a catalog: one frame for each size,
/// in the order of the sizes, packed into one container.
///
/// The first size whose frame is not made ends the build: see [`fails`].
/// The scaling is the codec's: a container that is returned is
/// [`built_from`] the catalog, and its directory lists the sizes.
pub fn build_container(sizes: &IconSizes, icons: &[SourceImage], filter_type: FilterType) -> (r:
    Result<Vec<u8>, Error>)
    ensures
        match r {
            Ok(bytes) => {
                &&& built_from(icons@, sizes@, bytes@)
                &&& parse_directory(bytes@) matches Some(entries) && lists_sizes(entries, sizes@)
            },
            Err(e) => build_fails(icons@, sizes@, e),
        },
{
    let frames = match create_ico_frames(sizes, icons, filter_type) {
        Ok(frames) => frames,
        Err(e) => { return Err(e); },
    };
    match assemble(frames.as_slice()) {
        Ok(bytes) => {
            proof {
                lemma_container_lists_sizes(icons@, sizes@, frame_views(frames@));
            }
            Ok(bytes)
        },
        Err(e) => Err(e),
    }
}

impl IcoBuilder {
    /// Builds the container: decodes the sources, makes one frame for each
    /// size and packs the frames.
    ///
    /// Where a source does not decode to a square, the build fails as
    /// [`decode_icons`] does. Otherwise the catalog is that of the sources: a
    /// container that is returned is [`built_from`] it and its directory
    /// lists the sizes, and a failure is as [`build_container`] says.
    pub fn build(&self) -> (r: Result<Vec<u8>, Error>)
        ensures
            match r {
                Ok(bytes) => {
                    &&& exists|icons: Seq<SourceImage>| #[trigger]
                        catalog_of(self@.source_files, icons) && built_from(
                            icons,
                            self@.sizes,
                            bytes@,
                        )
                    &&& parse_directory(bytes@) matches Some(entries) && lists_sizes(
                        entries,
                        self@.sizes,
                    )
                },
                Err(e) => catalog_fails(self@.source_files, e) || exists|icons: Seq<SourceImage>| #[trigger]
                    catalog_of(self@.source_files, icons) && build_fails(icons, self@.sizes, e),
            },
    {
        assert(self.source_files@ == self@.source_files);
        let icons = match decode_icons(self.source_files.as_slice()) {
            Ok(icons) => icons,
            Err(e) => { return Err(e); },
        };
        assert(catalog_of(self@.source_files, icons@));
        build_container(&self.sizes, icons.as_slice(), self.filter_type)
    }
}

} // verus!
