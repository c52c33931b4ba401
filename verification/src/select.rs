//! Choosing the source that a frame is made from.

use crate::error::Error;
use crate::source::{widths, SourceImage};
use vstd::prelude::*;

verus! {

/// Some source is at least `size` pixels wide.
pub open spec fn has_source(widths: Seq<u32>, size: u32) -> bool {
    exists|j: int| 0 <= j < widths.len() && #[trigger] widths[j] >= size
}

/// The source at index `i` is the one chosen for `size`: it is wide enough, no
/// source that is wide enough is narrower, and among those of its width it
/// comes first.
pub open spec fn is_selected(widths: Seq<u32>, size: u32, i: int) -> bool {
    &&& 0 <= i < widths.len()
    &&& widths[i] >= size
    &&& forall|j: int| 0 <= j < widths.len() && #[trigger] widths[j] >= size ==> widths[i] <= widths[j]
    &&& forall|j: int| 0 <= j < i && #[trigger] widths[j] >= size ==> widths[i] < widths[j]
}

/// The index of the source chosen for `size`, where there is one.
pub open spec fn selected_index(widths: Seq<u32>, size: u32) -> int {
    choose|i: int| is_selected(widths, size, i)
}

/// At most one source is chosen for a size.
pub proof fn lemma_selection_unique(widths: Seq<u32>, size: u32, i: int, j: int)
    requires
        is_selected(widths, size, i),
        is_selected(widths, size, j),
    ensures
        i == j,
{
    if i < j {
        assert(widths[i] >= size);
    } else if j < i {
        assert(widths[j] >= size);
    }
}

/// A source that meets [`is_selected`] is the one that [`selected_index`]
/// names.
pub proof fn lemma_selected_index(widths: Seq<u32>, size: u32, i: int)
    requires
        is_selected(widths, size, i),
    ensures
        has_source(widths, size),
        selected_index(widths, size) == i,
{
    lemma_selection_unique(widths, size, i, selected_index(widths, size));
}

/// Among the first `n` sources, of which one is wide enough, one is chosen.
proof fn lemma_select_among(widths: Seq<u32>, size: u32, n: int) -> (b: int)
    requires
        0 <= n <= widths.len(),
        exists|j: int| 0 <= j < n && #[trigger] widths[j] >= size,
    ensures
        0 <= b < n,
        widths[b] >= size,
        forall|j: int| 0 <= j < n && #[trigger] widths[j] >= size ==> widths[b] <= widths[j],
        forall|j: int| 0 <= j < b && #[trigger] widths[j] >= size ==> widths[b] < widths[j],
    decreases n,
{
    if exists|j: int| 0 <= j < n - 1 && #[trigger] widths[j] >= size {
        let earlier = lemma_select_among(widths, size, n - 1);
        if widths[n - 1] >= size && widths[n - 1] < widths[earlier] {
            n - 1
        } else {
            earlier
        }
    } else {
        n - 1
    }
}

/// Where some source is wide enough, exactly one is chosen: the one that
/// [`selected_index`] names.
pub proof fn lemma_selection_exists(widths: Seq<u32>, size: u32)
    requires
        has_source(widths, size),
    ensures
        is_selected(widths, size, selected_index(widths, size)),
{
    let b = lemma_select_among(widths, size, widths.len() as int);
    assert(is_selected(widths, size, b));
}

/// Where a source has exactly the requested size, the source chosen has that
/// size too: nothing is scaled where nothing needs to be.
pub proof fn lemma_exact_size_is_selected(widths: Seq<u32>, size: u32, j: int)
    requires
        0 <= j < widths.len(),
        widths[j] == size,
    ensures
        has_source(widths, size),
        is_selected(widths, size, selected_index(widths, size)),
        widths[selected_index(widths, size)] == size,
{
    assert(widths[j] >= size);
    lemma_selection_exists(widths, size);
}

/// The index of the smallest source that is at least `size` pixels wide, the
/// first of them where several are equally wide; `None` where every source is
/// narrower than `size`.
pub fn select_index(icons: &[SourceImage], size: u32) -> (r: Option<usize>)
    ensures
        match r {
            Some(i) => is_selected(widths(icons@), size, i as int),
            None => !has_source(widths(icons@), size),
        },
{
    let ghost ws = widths(icons@);
    let mut best: Option<usize> = None;
    let mut i: usize = 0;
    while i < icons.len()
        invariant
            i <= icons.len(),
            ws == widths(icons@),
            match best {
                Some(b) => {
                    &&& b < i
                    &&& ws[b as int] >= size
                    &&& forall|j: int| 0 <= j < i && #[trigger] ws[j] >= size ==> ws[b as int] <= ws[j]
                    &&& forall|j: int| 0 <= j < b && #[trigger] ws[j] >= size ==> ws[b as int] < ws[j]
                },
                None => forall|j: int| 0 <= j < i ==> #[trigger] ws[j] < size,
            },
        decreases icons.len() - i,
    {
        let width = icons[i].width();
        assert(width == ws[i as int]);
        if width >= size {
            match best {
                Some(b) => {
                    if width < icons[b].width() {
                        assert(icons[b as int]@.width == ws[b as int]);
                        best = Some(i);
                    }
                },
                None => {
                    best = Some(i);
                },
            }
        }
        i += 1;
    }
    best
}

/// The smallest source that is at least `size` pixels wide, the first of them
/// where several are equally wide. Where every source is narrower the size is
/// missing: a source is never scaled up.
pub fn find_next_bigger_icon(icons: &[SourceImage], size: u32) -> (r: Result<&SourceImage, Error>)
    ensures
        has_source(widths(icons@), size) ==> r == Ok::<&SourceImage, Error>(
            &icons@[selected_index(widths(icons@), size)],
        ),
        !has_source(widths(icons@), size) ==> r == Err::<&SourceImage, Error>(
            Error::MissingIconSize(size),
        ),
{
    match select_index(icons, size) {
        Some(i) => {
            proof {
                lemma_selected_index(widths(icons@), size, i as int);
            }
            Ok(&icons[i])
        },
        None => Err(Error::MissingIconSize(size)),
    }
}

} // verus!
