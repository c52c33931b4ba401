//! The container: a header, a directory with one entry for each frame, and
//! the frames' compressed images, in the order of the directory.
//!
//! All numbers are little-endian. The header is three 2-byte fields: 0, the
//! type 1 (icons), and the number of frames. An entry is 16 bytes: width and
//! height (one byte each, 256 written as 0), the palette size 0, a reserved 0,
//! the color planes (2 bytes, 0), the bits per pixel (2 bytes, 0: the payload
//! describes itself), the payload's length (4 bytes) and its offset from the
//! start of the container (4 bytes).

use crate::error::Error;
use crate::frame::{all_valid, frame_views, valid_size, IcoFrame, IcoFrameView};
use vstd::prelude::*;
use vstd::slice::slice_subrange;

verus! {

/// The length of the header in bytes.
pub const HEADER_LEN: usize = 6;

/// The length of a directory entry in bytes.
pub const ENTRY_LEN: usize = 16;

/// The largest number of frames that the header can state.
pub const MAX_FRAMES: usize = 65535;

/// The type field of a container of icons.
pub const ICON_TYPE: u16 = 1;

/// The two bytes of `x`, low byte first.
pub open spec fn le16(x: int) -> Seq<u8> {
    seq![(x % 256) as u8, (x / 256 % 256) as u8]
}

/// The four bytes of `x`, low byte first.
pub open spec fn le32(x: int) -> Seq<u8> {
    seq![
        (x % 256) as u8,
        (x / 256 % 256) as u8,
        (x / 65536 % 256) as u8,
        (x / 16777216 % 256) as u8,
    ]
}

/// The number that two bytes at `at` stand for, low byte first.
pub open spec fn read_le16(bytes: Seq<u8>, at: int) -> int {
    bytes[at] + 256 * bytes[at + 1]
}

/// The number that four bytes at `at` stand for, low byte first.
pub open spec fn read_le32(bytes: Seq<u8>, at: int) -> int {
    bytes[at] + 256 * bytes[at + 1] + 65536 * bytes[at + 2] + 16777216 * bytes[at + 3]
}

/// The byte that an entry holds for a width or height: 256 is written as 0.
pub open spec fn size_byte(size: u32) -> u8 {
    (size % 256) as u8
}

/// The width or height that a byte of an entry stands for: 0 is read as 256.
pub open spec fn read_size(byte: u8) -> u32 {
    if byte == 0 {
        256
    } else {
        byte as u32
    }
}

/// The parts one after another.
pub open spec fn concat(parts: Seq<Seq<u8>>) -> Seq<u8>
    decreases parts.len(),
{
    if parts.len() == 0 {
        Seq::empty()
    } else {
        concat(parts.drop_last()) + parts.last()
    }
}

/// The compressed images of the frames, in their order.
pub open spec fn payloads(frames: Seq<IcoFrameView>) -> Seq<Seq<u8>> {
    Seq::new(frames.len(), |i: int| frames[i].encoded)
}

/// Where the payload of frame `i` starts: behind the header, the whole
/// directory and the payloads of the frames before it.
pub open spec fn payload_offset(frames: Seq<IcoFrameView>, i: int) -> int {
    HEADER_LEN + ENTRY_LEN * frames.len() + concat(payloads(frames).take(i)).len()
}

/// The header of a container of `count` frames.
pub open spec fn header_bytes(count: int) -> Seq<u8> {
    le16(0) + le16(ICON_TYPE as int) + le16(count)
}

/// The directory entry of a square frame of this size, whose payload has
/// this length and starts at this offset.
pub open spec fn entry_bytes(size: u32, length: int, offset: int) -> Seq<u8> {
    seq![size_byte(size), size_byte(size), 0u8, 0u8] + le16(0) + le16(0) + le32(length) + le32(
        offset,
    )
}

/// The directory entries of the frames, in their order.
pub open spec fn directory(frames: Seq<IcoFrameView>) -> Seq<Seq<u8>> {
    Seq::new(
        frames.len(),
        |i: int|
            entry_bytes(frames[i].size, frames[i].encoded.len() as int, payload_offset(frames, i)),
    )
}

/// The length of the container of these frames.
pub open spec fn container_len(frames: Seq<IcoFrameView>) -> int {
    payload_offset(frames, frames.len() as int)
}

/// The frames fit into one container: the header can state their number, and
/// a 4-byte offset reaches to the end of the last payload.
pub open spec fn fits(frames: Seq<IcoFrameView>) -> bool {
    frames.len() <= MAX_FRAMES && container_len(frames) <= u32::MAX
}

/// The container of these frames.
pub open spec fn container_bytes(frames: Seq<IcoFrameView>) -> Seq<u8> {
    header_bytes(frames.len() as int) + concat(directory(frames)) + concat(payloads(frames))
}

/// One entry of a directory, as it is read back from a container.
#[derive(Clone, Copy, Debug, PartialEq, Eq, Structural)]
pub struct DirEntry {
    pub width: u32,
    pub height: u32,
    pub planes: u16,
    pub bits_per_pixel: u16,
    pub length: u32,
    pub offset: u32,
}

/// The entry that the 16 bytes at `at` stand for.
pub open spec fn entry_at(bytes: Seq<u8>, at: int) -> DirEntry {
    DirEntry {
        width: read_size(bytes[at]),
        height: read_size(bytes[at + 1]),
        planes: read_le16(bytes, at + 4) as u16,
        bits_per_pixel: read_le16(bytes, at + 6) as u16,
        length: read_le32(bytes, at + 8) as u32,
        offset: read_le32(bytes, at + 12) as u32,
    }
}

/// The directory of a container: `None` where the bytes do not start with the
/// header of a container of icons, or end before the directory does.
pub open spec fn parse_directory(bytes: Seq<u8>) -> Option<Seq<DirEntry>> {
    if bytes.len() >= HEADER_LEN && read_le16(bytes, 0) == 0 && read_le16(bytes, 2) == ICON_TYPE
        && bytes.len() >= HEADER_LEN + ENTRY_LEN * read_le16(bytes, 4) {
        Some(
            Seq::new(
                read_le16(bytes, 4) as nat,
                |i: int| entry_at(bytes, HEADER_LEN + ENTRY_LEN * i),
            ),
        )
    } else {
        None
    }
}

/// The payload that an entry points to: `None` where it does not lie within
/// the bytes.
pub open spec fn payload_at(bytes: Seq<u8>, entry: DirEntry) -> Option<Seq<u8>> {
    if entry.offset + entry.length <= bytes.len() {
        Some(bytes.subrange(entry.offset as int, entry.offset + entry.length))
    } else {
        None
    }
}

/// Two bytes are read back as they were written.
pub proof fn lemma_le16_round_trip(x: int)
    requires
        0 <= x <= u16::MAX,
    ensures
        le16(x).len() == 2,
        read_le16(le16(x), 0) == x,
{
}

/// Four bytes are read back as they were written.
pub proof fn lemma_le32_round_trip(x: int)
    requires
        0 <= x <= u32::MAX,
    ensures
        le32(x).len() == 4,
        read_le32(le32(x), 0) == x,
{
}

/// Adding a part at the end adds its bytes at the end.
pub proof fn lemma_concat_push(parts: Seq<Seq<u8>>, i: int)
    requires
        0 <= i < parts.len(),
    ensures
        concat(parts.take(i + 1)) == concat(parts.take(i)) + parts[i],
{
    assert(parts.take(i + 1).drop_last() == parts.take(i));
}

/// Part `i` lies in the whole behind the parts before it.
pub proof fn lemma_concat_part(parts: Seq<Seq<u8>>, i: int)
    requires
        0 <= i < parts.len(),
    ensures
        concat(parts.take(i)).len() + parts[i].len() <= concat(parts).len(),
        concat(parts).subrange(
            concat(parts.take(i)).len() as int,
            (concat(parts.take(i)).len() + parts[i].len()) as int,
        ) == parts[i],
{
    lemma_concat_push(parts, i);
    lemma_concat_starts_with(parts, i + 1);
    let start = concat(parts.take(i)).len() as int;
    assert(concat(parts.take(i + 1)).subrange(start, start + parts[i].len()) == parts[i]);
}

/// The whole starts with the parts before `i`.
pub proof fn lemma_concat_starts_with(parts: Seq<Seq<u8>>, i: int)
    requires
        0 <= i <= parts.len(),
    ensures
        concat(parts.take(i)).len() <= concat(parts).len(),
        concat(parts).subrange(0, concat(parts.take(i)).len() as int) == concat(parts.take(i)),
    decreases parts.len() - i,
{
    if i < parts.len() {
        lemma_concat_push(parts, i);
        lemma_concat_starts_with(parts, i + 1);
        let shorter = concat(parts.take(i));
        let longer = concat(parts.take(i + 1));
        assert(longer.subrange(0, shorter.len() as int) == shorter);
        assert(concat(parts).subrange(0, shorter.len() as int) == concat(parts).subrange(
            0,
            longer.len() as int,
        ).subrange(0, shorter.len() as int));
    } else {
        assert(parts.take(i) == parts);
    }
}

/// Parts of 16 bytes each: the first `i` of them are `16 * i` bytes long.
pub proof fn lemma_directory_len(frames: Seq<IcoFrameView>, i: int)
    requires
        0 <= i <= frames.len(),
    ensures
        concat(directory(frames).take(i)).len() == ENTRY_LEN * i,
    decreases i,
{
    if i > 0 {
        lemma_directory_len(frames, i - 1);
        lemma_concat_push(directory(frames), i - 1);
    }
}

/// Appends the two bytes of `x`, low byte first.
fn push_le16(out: &mut Vec<u8>, x: u16)
    ensures
        final(out)@ == old(out)@ + le16(x as int),
{
    out.push((x % 256) as u8);
    out.push((x / 256) as u8);
    assert(final(out)@ =~= old(out)@ + le16(x as int));
}

/// Appends the four bytes of `x`, low byte first.
fn push_le32(out: &mut Vec<u8>, x: u32)
    ensures
        final(out)@ == old(out)@ + le32(x as int),
{
    out.push((x % 256) as u8);
    out.push((x / 256 % 256) as u8);
    out.push((x / 65536 % 256) as u8);
    out.push((x / 16777216) as u8);
    assert(final(out)@ =~= old(out)@ + le32(x as int));
}

/// The length of the container of these frames, where they fit into one.
fn measure(frames: &[IcoFrame]) -> (r: Option<u32>)
    ensures
        match r {
            Some(len) => fits(frame_views(frames@)) && len == container_len(frame_views(frames@)),
            None => !fits(frame_views(frames@)),
        },
{
    let ghost views = frame_views(frames@);
    let count = frames.len();
    if count > MAX_FRAMES {
        return None;
    }
    let mut len: u32 = (HEADER_LEN + ENTRY_LEN * count) as u32;
    let mut i: usize = 0;
    while i < count
        invariant
            i <= count,
            count == frames@.len(),
            count <= MAX_FRAMES,
            views == frame_views(frames@),
            len == payload_offset(views, i as int),
        decreases count - i,
    {
        let payload = frames[i].encoded();
        proof {
            lemma_concat_push(payloads(views), i as int);
            lemma_concat_starts_with(payloads(views), i + 1);
            assert(payloads(views).take(count as int) == payloads(views));
            assert(payload_offset(views, i + 1) <= container_len(views));
        }
        if payload.len() > (u32::MAX - len) as usize {
            return None;
        }
        len = len + payload.len() as u32;
        i += 1;
    }
    assert(payloads(views).take(count as int) == payloads(views));
    Some(len)
}

/// Packs the frames into one container: the header, the directory in the
/// order of the frames, and the payloads in the same order.
///
/// Frames that do not fit into one container are refused, and nothing is
/// returned of them.
pub fn assemble(frames: &[IcoFrame]) -> (r: Result<Vec<u8>, Error>)
    ensures
        match r {
            Ok(bytes) => fits(frame_views(frames@)) && bytes@ == container_bytes(
                frame_views(frames@),
            ),
            Err(e) => !fits(frame_views(frames@)) && e == Error::ContainerTooLarge,
        },
{
    let ghost views = frame_views(frames@);
    let total = match measure(frames) {
        Some(total) => total,
        None => { return Err(Error::ContainerTooLarge); },
    };
    let count = frames.len();
    let mut out: Vec<u8> = Vec::with_capacity(total as usize);
    push_le16(&mut out, 0);
    push_le16(&mut out, ICON_TYPE);
    push_le16(&mut out, count as u16);
    assert(out@ == header_bytes(count as int));

    let mut offset: u32 = (HEADER_LEN + ENTRY_LEN * count) as u32;
    let mut i: usize = 0;
    while i < count
        invariant
            i <= count,
            count == frames@.len(),
            views == frame_views(frames@),
            fits(views),
            offset == payload_offset(views, i as int),
            out@ == header_bytes(count as int) + concat(directory(views).take(i as int)),
        decreases count - i,
    {
        let frame = &frames[i];
        let size = frame.size();
        let payload = frame.encoded();
        proof {
            lemma_concat_push(payloads(views), i as int);
            lemma_concat_starts_with(payloads(views), i + 1);
            lemma_concat_push(directory(views), i as int);
            assert(payloads(views).take(count as int) == payloads(views));
            lemma_concat_starts_with(payloads(views), count as int);
        }
        let length = payload.len() as u32;
        let ghost before = out@;
        out.push((size % 256) as u8);
        out.push((size % 256) as u8);
        out.push(0);
        out.push(0);
        push_le16(&mut out, 0);
        push_le16(&mut out, 0);
        push_le32(&mut out, length);
        push_le32(&mut out, offset);
        assert(out@ =~= before + entry_bytes(size, length as int, offset as int));
        offset = offset + length;
        i += 1;
    }
    assert(directory(views).take(count as int) == directory(views));

    let mut i: usize = 0;
    while i < count
        invariant
            i <= count,
            count == frames@.len(),
            views == frame_views(frames@),
            out@ == header_bytes(count as int) + concat(directory(views)) + concat(
                payloads(views).take(i as int),
            ),
        decreases count - i,
    {
        let payload = frames[i].encoded();
        let ghost before = out@;
        out.extend_from_slice(payload);
        proof {
            lemma_concat_push(payloads(views), i as int);
            assert(out@ =~= before + payload@);
        }
        i += 1;
    }
    assert(payloads(views).take(count as int) == payloads(views));
    Ok(out)
}

/// The number that the two bytes at `at` stand for.
fn get_le16(bytes: &[u8], at: usize) -> (r: u16)
    requires
        at + 2 <= bytes@.len(),
    ensures
        r == read_le16(bytes@, at as int),
{
    bytes[at] as u16 + 256 * (bytes[at + 1] as u16)
}

/// The number that the four bytes at `at` stand for.
fn get_le32(bytes: &[u8], at: usize) -> (r: u32)
    requires
        at + 4 <= bytes@.len(),
    ensures
        r == read_le32(bytes@, at as int),
{
    bytes[at] as u32 + 256 * (bytes[at + 1] as u32) + 65536 * (bytes[at + 2] as u32) + 16777216 * (
    bytes[at + 3] as u32)
}

/// The width or height that a byte of an entry stands for.
fn get_size(byte: u8) -> (r: u32)
    ensures
        r == read_size(byte),
{
    if byte == 0 {
        256
    } else {
        byte as u32
    }
}

/// Reads the directory of a container back: one entry for each frame, in the
/// order of the container. `None` where the bytes do not start with the header
/// of a container of icons, or end before the directory does.
pub fn read_directory(bytes: &[u8]) -> (r: Option<Vec<DirEntry>>)
    ensures
        match r {
            Some(entries) => parse_directory(bytes@) == Some(entries@),
            None => parse_directory(bytes@) is None,
        },
{
    if bytes.len() < HEADER_LEN || get_le16(bytes, 0) != 0 || get_le16(bytes, 2) != ICON_TYPE {
        return None;
    }
    let count = get_le16(bytes, 4) as usize;
    if (bytes.len() - HEADER_LEN) / ENTRY_LEN < count {
        return None;
    }
    let mut entries: Vec<DirEntry> = Vec::with_capacity(count);
    let mut i: usize = 0;
    while i < count
        invariant
            i <= count,
            count == read_le16(bytes@, 4),
            bytes@.len() >= HEADER_LEN + ENTRY_LEN * count,
            entries@.len() == i,
            forall|j: int|
                0 <= j < i ==> #[trigger] entries@[j] == entry_at(bytes@, HEADER_LEN + ENTRY_LEN * j),
        decreases count - i,
    {
        let at = HEADER_LEN + ENTRY_LEN * i;
        let entry = DirEntry {
            width: get_size(bytes[at]),
            height: get_size(bytes[at + 1]),
            planes: get_le16(bytes, at + 4),
            bits_per_pixel: get_le16(bytes, at + 6),
            length: get_le32(bytes, at + 8),
            offset: get_le32(bytes, at + 12),
        };
        entries.push(entry);
        i += 1;
    }
    assert(entries@ =~= parse_directory(bytes@)->Some_0);
    Some(entries)
}

/// The payload that an entry of the directory points to. `None` where it does
/// not lie within the bytes.
pub fn read_payload<'a>(bytes: &'a [u8], entry: &DirEntry) -> (r: Option<&'a [u8]>)
    ensures
        match r {
            Some(payload) => payload_at(bytes@, *entry) == Some(payload@),
            None => payload_at(bytes@, *entry) is None,
        },
{
    let available = bytes.len();
    if entry.offset as usize > available || entry.length as usize > available
        - entry.offset as usize {
        return None;
    }
    let start = entry.offset as usize;
    Some(slice_subrange(bytes, start, start + entry.length as usize))
}

/// What the directory of the container of these frames says: for each frame
/// its size as width and height, no planes and no bit depth, the length of
/// its payload and where the payload starts.
pub open spec fn listing(frames: Seq<IcoFrameView>) -> Seq<DirEntry> {
    Seq::new(
        frames.len(),
        |i: int|
            DirEntry {
                width: frames[i].size,
                height: frames[i].size,
                planes: 0,
                bits_per_pixel: 0,
                length: frames[i].encoded.len() as u32,
                offset: payload_offset(frames, i) as u32,
            },
    )
}

/// An entry is read back as it was written.
pub proof fn lemma_entry_round_trip(bytes: Seq<u8>, at: int, size: u32, length: int, offset: int)
    requires
        valid_size(size),
        0 <= length <= u32::MAX,
        0 <= offset <= u32::MAX,
        0 <= at,
        at + ENTRY_LEN <= bytes.len(),
        bytes.subrange(at, at + ENTRY_LEN) == entry_bytes(size, length, offset),
    ensures
        entry_at(bytes, at) == (DirEntry {
            width: size,
            height: size,
            planes: 0,
            bits_per_pixel: 0,
            length: length as u32,
            offset: offset as u32,
        }),
{
    let entry = entry_bytes(size, length, offset);
    assert forall|k: int| 0 <= k < 16 implies bytes[at + k] == #[trigger] entry[k] by {
        assert(bytes.subrange(at, at + ENTRY_LEN)[k] == bytes[at + k]);
    }
    assert(bytes[at] == entry[0] && bytes[at + 1] == entry[1]);
    assert(read_le16(bytes, at + 4) == 0) by {
        assert(bytes[at + 4] == entry[4] && bytes[at + 5] == entry[5]);
    }
    assert(read_le16(bytes, at + 6) == 0) by {
        assert(bytes[at + 6] == entry[6] && bytes[at + 7] == entry[7]);
    }
    assert(read_le32(bytes, at + 8) == length) by {
        assert(bytes[at + 8] == entry[8] && bytes[at + 9] == entry[9] && bytes[at + 10]
            == entry[10] && bytes[at + 11] == entry[11]);
        assert(entry[8] == le32(length)[0] && entry[9] == le32(length)[1] && entry[10] == le32(
            length,
        )[2] && entry[11] == le32(length)[3]);
        lemma_le32_round_trip(length);
    }
    assert(read_le32(bytes, at + 12) == offset) by {
        assert(bytes[at + 12] == entry[12] && bytes[at + 13] == entry[13] && bytes[at + 14]
            == entry[14] && bytes[at + 15] == entry[15]);
        assert(entry[12] == le32(offset)[0] && entry[13] == le32(offset)[1] && entry[14] == le32(
            offset,
        )[2] && entry[15] == le32(offset)[3]);
        lemma_le32_round_trip(offset);
    }
}

/// Where the parts of a container lie: the header at the start, the entry of
/// frame `i` at `6 + 16 * i`, and its payload at its offset.
pub proof fn lemma_layout(frames: Seq<IcoFrameView>, i: int)
    requires
        0 <= i < frames.len(),
    ensures
        container_bytes(frames).len() == container_len(frames),
        container_bytes(frames).subrange(0, HEADER_LEN as int) == header_bytes(
            frames.len() as int,
        ),
        payload_offset(frames, i) + frames[i].encoded.len() <= container_len(frames),
        container_bytes(frames).subrange(
            HEADER_LEN + ENTRY_LEN * i,
            HEADER_LEN + ENTRY_LEN * i + ENTRY_LEN,
        ) == directory(frames)[i],
        container_bytes(frames).subrange(
            payload_offset(frames, i),
            payload_offset(frames, i) + frames[i].encoded.len(),
        ) == frames[i].encoded,
{
    let n = frames.len() as int;
    let head = header_bytes(n);
    let dir = concat(directory(frames));
    let body = concat(payloads(frames));
    let bytes = container_bytes(frames);
    lemma_directory_len(frames, n);
    lemma_directory_len(frames, i);
    assert(directory(frames).take(n) == directory(frames));
    assert(payloads(frames).take(n) == payloads(frames));
    lemma_concat_part(directory(frames), i);
    lemma_concat_part(payloads(frames), i);
    let start = concat(payloads(frames).take(i)).len() as int;
    let length = frames[i].encoded.len() as int;
    assert(head.len() == 6);
    assert(bytes.subrange(0, 6) =~= head);
    assert(bytes.subrange(6 + 16 * i, 6 + 16 * i + 16) =~= dir.subrange(16 * i, 16 * i + 16));
    assert(bytes.subrange(6 + 16 * n + start, 6 + 16 * n + start + length) =~= body.subrange(
        start,
        start + length,
    ));
}

/// The header of a container states the number of its frames.
pub proof fn lemma_header_round_trip(frames: Seq<IcoFrameView>)
    requires
        frames.len() <= MAX_FRAMES,
    ensures
        container_bytes(frames).len() == container_len(frames),
        read_le16(container_bytes(frames), 0) == 0,
        read_le16(container_bytes(frames), 2) == ICON_TYPE,
        read_le16(container_bytes(frames), 4) == frames.len(),
{
    let n = frames.len() as int;
    let head = header_bytes(n);
    let bytes = container_bytes(frames);
    lemma_directory_len(frames, n);
    assert(directory(frames).take(n) == directory(frames));
    assert(payloads(frames).take(n) == payloads(frames));
    assert(head.len() == 6);
    assert forall|k: int| 0 <= k < 6 implies bytes[k] == #[trigger] head[k] by {}
    assert(bytes[0] == head[0] && bytes[1] == head[1] && bytes[2] == head[2] && bytes[3] == head[3]
        && bytes[4] == head[4] && bytes[5] == head[5]);
    assert(head[4] == le16(n)[0] && head[5] == le16(n)[1]);
    lemma_le16_round_trip(n);
}

/// Reading a container back recovers what was packed: the directory has one
/// entry for each frame, in the order of the frames, each with the frame's
/// size as width and height and with the length of the frame's payload, and
/// the bytes that the entry points to are that payload.
pub proof fn lemma_round_trip(frames: Seq<IcoFrameView>)
    requires
        all_valid(frames),
        fits(frames),
    ensures
        container_bytes(frames).len() == container_len(frames),
        parse_directory(container_bytes(frames)) == Some(listing(frames)),
        forall|i: int|
            0 <= i < frames.len() ==> {
                &&& (#[trigger] listing(frames)[i]).length == frames[i].encoded.len()
                &&& listing(frames)[i].offset == payload_offset(frames, i)
                &&& payload_at(container_bytes(frames), listing(frames)[i]) == Some(
                    frames[i].encoded,
                )
            },
{
    let n = frames.len() as int;
    let bytes = container_bytes(frames);
    lemma_header_round_trip(frames);
    assert(payloads(frames).take(n) == payloads(frames));
    assert forall|i: int| 0 <= i < n implies {
        &&& #[trigger] entry_at(bytes, HEADER_LEN + ENTRY_LEN * i) == listing(frames)[i]
        &&& listing(frames)[i].length == frames[i].encoded.len()
        &&& listing(frames)[i].offset == payload_offset(frames, i)
        &&& payload_at(bytes, listing(frames)[i]) == Some(frames[i].encoded)
    } by {
        lemma_layout(frames, i);
        lemma_entry_round_trip(
            bytes,
            HEADER_LEN + ENTRY_LEN * i,
            frames[i].size,
            frames[i].encoded.len() as int,
            payload_offset(frames, i),
        );
    }
    assert(parse_directory(bytes)->Some_0 =~= listing(frames));
}

} // verus!
