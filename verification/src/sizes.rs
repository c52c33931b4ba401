//! The list of icon sizes that a container is built for.

use vstd::prelude::*;
use vstd::slice::slice_to_vec;

verus! {

/// A list of icon sizes, in the order in which the frames are written.
///
/// The list is kept as given: duplicates stay, and a size that no frame can
/// have is only refused when the container is built.
#[derive(Debug)]
pub struct IconSizes {
    sizes: Vec<u32>,
}

impl View for IconSizes {
    type V = Seq<u32>;

    closed spec fn view(&self) -> Seq<u32> {
        self.sizes@
    }
}

/// The bare minimum of recommended icon sizes: 16, 24, 32, 48 and 256 pixels.
pub open spec fn minimal_sizes() -> Seq<u32> {
    seq![16u32, 24u32, 32u32, 48u32, 256u32]
}

impl IconSizes {
    /// The sizes of `sizes`, in the same order.
    pub fn new(sizes: &'static [u32]) -> (r: IconSizes)
        ensures
            r@ == sizes@,
    {
        IconSizes { sizes: slice_to_vec(sizes) }
    }

    /// The bare minimum of recommended icon sizes; see [`minimal_sizes`].
    pub fn minimal() -> (r: IconSizes)
        ensures
            r@ == minimal_sizes(),
    {
        let mut sizes: Vec<u32> = Vec::new();
        sizes.push(16);
        sizes.push(24);
        sizes.push(32);
        sizes.push(48);
        sizes.push(256);
        assert(sizes@ =~= minimal_sizes());
        IconSizes { sizes }
    }

    /// The sizes as a slice.
    pub fn as_slice(&self) -> (r: &[u32])
        ensures
            r@ == self@,
    {
        self.sizes.as_slice()
    }
}

impl Default for IconSizes {
    /// The list [`minimal_sizes`].
    fn default() -> (r: IconSizes)
        ensures
            r@ == minimal_sizes(),
    {
        IconSizes::minimal()
    }
}

impl AsRef<[u32]> for IconSizes {
    fn as_ref(&self) -> (r: &[u32])
        ensures
            r@ == self@,
    {
        self.sizes.as_slice()
    }
}

impl From<Vec<u32>> for IconSizes {
    /// The sizes of `sizes`, in the same order.
    fn from(sizes: Vec<u32>) -> (r: IconSizes)
        ensures
            r@ == sizes@,
    {
        IconSizes { sizes }
    }
}

impl vstd::std_specs::convert::FromSpecImpl<Vec<u32>> for IconSizes {
    open spec fn obeys_from_spec() -> bool {
        true
    }

    closed spec fn from_spec(sizes: Vec<u32>) -> IconSizes {
        IconSizes { sizes }
    }
}

impl std::ops::Deref for IconSizes {
    type Target = [u32];

    fn deref(&self) -> (r: &[u32])
        ensures
            r@ == self@,
    {
        self.sizes.as_slice()
    }
}

} // verus!
