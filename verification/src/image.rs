//! The size that a PNG, JPEG or WebP container declares, read from its header
//! fields alone: no image data is decoded.
use vstd::prelude::*;

verus! {

/// The unsigned number that two bytes denote, the more significant one first.
pub open spec fn be16(bytes: Seq<u8>, at: int) -> int {
    bytes[at] * 256 + bytes[at + 1]
}

/// The unsigned number that four bytes denote, the most significant one first.
pub open spec fn be32(bytes: Seq<u8>, at: int) -> int {
    be16(bytes, at) * 65536 + be16(bytes, at + 2)
}

/// The unsigned number that two bytes denote, the less significant one first.
pub open spec fn le16(bytes: Seq<u8>, at: int) -> int {
    bytes[at + 1] * 256 + bytes[at]
}

/// The unsigned number that three bytes denote, the least significant one first.
pub open spec fn le24(bytes: Seq<u8>, at: int) -> int {
    bytes[at + 2] * 65536 + le16(bytes, at)
}

/// The unsigned number that four bytes denote, the least significant one first.
pub open spec fn le32(bytes: Seq<u8>, at: int) -> int {
    le16(bytes, at + 2) * 65536 + le16(bytes, at)
}

/// A chunk of a container: its four-byte type, where its data starts, and how
/// many bytes of data it declares.
pub ghost struct Chunk {
    pub kind: Seq<u8>,
    pub start: int,
    pub size: int,
}

impl Chunk {
    /// The data of the chunk.
    pub open spec fn data(self, bytes: Seq<u8>) -> Seq<u8> {
        bytes.subrange(self.start, self.start + self.size)
    }
}

/// The eight bytes that a PNG starts with.
pub open spec fn png_signature() -> Seq<u8> {
    seq![137u8, 80u8, 78u8, 71u8, 13u8, 10u8, 26u8, 10u8]
}

pub open spec fn ihdr() -> Seq<u8> {
    seq![73u8, 72u8, 68u8, 82u8]
}

pub open spec fn idat() -> Seq<u8> {
    seq![73u8, 68u8, 65u8, 84u8]
}

pub open spec fn iend() -> Seq<u8> {
    seq![73u8, 69u8, 78u8, 68u8]
}

/// The PNG chunk whose length field stands at `at`: length, type, data, and four
/// bytes of checksum.
pub open spec fn png_chunk(bytes: Seq<u8>, at: int) -> Chunk {
    Chunk { kind: bytes.subrange(at + 4, at + 8), start: at + 8, size: be32(bytes, at) }
}

/// The PNG chunks from `at` to the end, where they fill the bytes exactly.
pub open spec fn png_chunks(bytes: Seq<u8>, at: int) -> Option<Seq<Chunk>>
    decreases bytes.len() - at,
{
    if at == bytes.len() {
        Some(Seq::empty())
    } else if at < 0 || at + 8 > bytes.len() || at + 12 + be32(bytes, at) > bytes.len() {
        None
    } else {
        match png_chunks(bytes, at + 12 + be32(bytes, at)) {
            Some(rest) => Some(seq![png_chunk(bytes, at)] + rest),
            None => None,
        }
    }
}

/// Whether a chunk is the image header of a PNG.
pub open spec fn png_header(chunk: Chunk) -> bool {
    chunk.kind == ihdr() && chunk.size == 13
}

/// Whether image data stands among PNG chunks.
pub open spec fn png_has_data(chunks: Seq<Chunk>) -> bool {
    exists|i: int| 0 <= i < chunks.len() && (#[trigger] chunks[i]).kind == idat()
}

/// Whether the chunk at position `i` ends the image: an empty end chunk after
/// image data.
pub open spec fn png_ends_at(chunks: Seq<Chunk>, i: int) -> bool {
    &&& chunks[i].kind == iend()
    &&& chunks[i].size == 0
    &&& png_has_data(chunks.take(i))
}

/// Whether PNG chunks make a whole image: the header first, and the end of the
/// image last and only there.
pub open spec fn png_complete(chunks: Seq<Chunk>) -> bool {
    &&& chunks.len() > 0
    &&& png_header(chunks[0])
    &&& png_ends_at(chunks, chunks.len() - 1)
    &&& forall|i: int| 0 <= i < chunks.len() - 1 ==> !#[trigger] png_ends_at(chunks, i)
}

/// The width and height that a PNG declares, where it is complete.
pub open spec fn png_size(bytes: Seq<u8>) -> Option<(int, int)> {
    if bytes.len() >= 8 && bytes.take(8) == png_signature() {
        match png_chunks(bytes, 8) {
            Some(chunks) => if png_complete(chunks) {
                Some((be32(bytes, 16), be32(bytes, 20)))
            } else {
                None
            },
            None => None,
        }
    } else {
        None
    }
}

/// A size as whole numbers.
pub open spec fn size_view(size: Option<(u32, u32)>) -> Option<(int, int)> {
    match size {
        Some((width, height)) => Some((width as int, height as int)),
        None => None,
    }
}

fn read_be32(bytes: &[u8], at: usize) -> (value: u32)
    requires
        at + 4 <= bytes.len(),
    ensures
        value == be32(bytes@, at as int),
{
    let high: u32 = bytes[at] as u32 * 256 + bytes[at + 1] as u32;
    let low: u32 = bytes[at + 2] as u32 * 256 + bytes[at + 3] as u32;
    high * 65536 + low
}

fn tag_at(bytes: &[u8], at: usize, a: u8, b: u8, c: u8, d: u8) -> (same: bool)
    requires
        at + 4 <= bytes.len(),
    ensures
        same == (bytes@.subrange(at as int, at + 4) == seq![a, b, c, d]),
{
    let same = bytes[at] == a && bytes[at + 1] == b && bytes[at + 2] == c && bytes[at + 3] == d;
    proof {
        let tag = bytes@.subrange(at as int, at + 4);
        if same {
            assert(tag =~= seq![a, b, c, d]);
        } else {
            assert(tag[0] == bytes@[at as int]);
            assert(tag[1] == bytes@[at + 1]);
            assert(tag[2] == bytes@[at + 2]);
            assert(tag[3] == bytes@[at + 3]);
            let other = seq![a, b, c, d];
            assert(other[0] == a && other[1] == b && other[2] == c && other[3] == d);
        }
    }
    same
}

/// Whether bytes start with the signature of a PNG.
pub fn has_png_signature(bytes: &[u8]) -> (found: bool)
    ensures
        found == (bytes@.len() >= 8 && bytes@.take(8) == png_signature()),
{
    if bytes.len() < 8 {
        return false;
    }
    let found = bytes[0] == 137 && bytes[1] == 80 && bytes[2] == 78 && bytes[3] == 71 && bytes[4]
        == 13 && bytes[5] == 10 && bytes[6] == 26 && bytes[7] == 10;
    proof {
        let head = bytes@.take(8);
        let signature = png_signature();
        if found {
            assert(head =~= signature);
        } else {
            assert(head[0] == bytes@[0] && head[1] == bytes@[1] && head[2] == bytes@[2] && head[3]
                == bytes@[3] && head[4] == bytes@[4] && head[5] == bytes@[5] && head[6] == bytes@[6]
                && head[7] == bytes@[7]);
            assert(signature[0] == 137 && signature[1] == 80 && signature[2] == 78 && signature[3]
                == 71 && signature[4] == 13 && signature[5] == 10 && signature[6] == 26
                && signature[7] == 10);
        }
    }
    found
}

/// The width and height that a PNG declares. It must be complete: the header
/// first, at least one chunk of image data, and the end chunk last.
pub fn png_dimensions(bytes: &[u8]) -> (size: Option<(u32, u32)>)
    ensures
        size_view(size) == png_size(bytes@),
{
    if !has_png_signature(bytes) {
        return None;
    }
    let total: usize = bytes.len();
    let mut offset: usize = 8;
    let mut dimensions: Option<(u32, u32)> = None;
    let mut saw_idat = false;
    let ghost mut seen: Seq<Chunk> = Seq::empty();
    proof {
        if png_chunks(bytes@, 8) is Some {
            assert(seen + png_chunks(bytes@, 8)->0 =~= png_chunks(bytes@, 8)->0);
        }
    }
    while offset < total
        invariant
            total == bytes@.len(),
            8 <= offset <= total,
            bytes@.take(8) == png_signature(),
            png_chunks(bytes@, 8) == match png_chunks(bytes@, offset as int) {
                Some(rest) => Some(seen + rest),
                None => None,
            },
            seen.len() == 0 <==> offset == 8,
            dimensions is Some <==> seen.len() > 0,
            seen.len() > 0 ==> png_header(seen[0]),
            seen.len() > 0 ==> size_view(dimensions) == Some((be32(bytes@, 16), be32(bytes@, 20))),
            saw_idat == png_has_data(seen),
            forall|i: int| 0 <= i < seen.len() ==> !#[trigger] png_ends_at(seen, i),
        decreases total - offset,
    {
        if total - offset < 8 {
            return None;
        }
        let length: u32 = read_be32(bytes, offset);
        let chunk_length: usize = length as usize;
        let data_start: usize = offset + 8;
        if chunk_length > total - data_start || total - data_start - chunk_length < 4 {
            return None;
        }
        let chunk_end: usize = data_start + chunk_length + 4;
        let ghost chunk = png_chunk(bytes@, offset as int);
        let ghost rest = png_chunks(bytes@, chunk_end as int);
        let ghost before = seen;
        proof {
            seen = before.push(chunk);
            if rest is Some {
                assert(before + (seq![chunk] + rest->0) =~= seen + rest->0);
            }
            assert(seen.take(before.len() as int) =~= before);
            assert forall|i: int| 0 <= i < before.len() implies !#[trigger] png_ends_at(
                seen,
                i,
            ) by {
                assert(seen.take(i) =~= before.take(i));
                assert(!png_ends_at(before, i));
            }
            assert(png_has_data(seen) == (png_has_data(before) || chunk.kind == idat())) by {
                if png_has_data(before) {
                    let k = choose|k: int|
                        0 <= k < before.len() && (#[trigger] before[k]).kind == idat();
                    assert(seen[k].kind == idat());
                }
                if chunk.kind == idat() {
                    assert(seen[before.len() as int].kind == idat());
                }
                if png_has_data(seen) && chunk.kind != idat() {
                    let k = choose|k: int| 0 <= k < seen.len() && (#[trigger] seen[k]).kind
                        == idat();
                    assert(before[k].kind == idat());
                }
            }
            assert(png_chunks(bytes@, 8) is Some ==> png_chunks(bytes@, 8)->0 == seen + rest->0);
        }
        let is_header = tag_at(bytes, offset + 4, 73, 72, 68, 82);
        let is_data = tag_at(bytes, offset + 4, 73, 68, 65, 84);
        let is_end = tag_at(bytes, offset + 4, 73, 69, 78, 68);
        assert(chunk.kind == bytes@.subrange(offset + 4, offset + 8));
        if dimensions.is_none() {
            if is_header && chunk_length == 13 {
                dimensions = Some(
                    (read_be32(bytes, data_start), read_be32(bytes, data_start + 4)),
                );
                assert(chunk.kind[1] == 72);
                assert(iend()[1] == 69);
                assert(idat()[1] == 68);
                assert(chunk.kind != iend());
                assert(chunk.kind != idat());
                assert(!png_ends_at(seen, before.len() as int));
            } else {
                assert(seen[0] == chunk);
                assert(png_chunks(bytes@, 8) is Some ==> png_chunks(bytes@, 8)->0[0] == chunk);
                return None;
            }
        } else if is_data {
            saw_idat = true;
            assert(chunk.kind[1] == 68);
            assert(iend()[1] == 69);
            assert(!png_ends_at(seen, before.len() as int));
        } else if is_end && saw_idat && chunk_length == 0 {
            let ghost last = before.len() as int;
            assert(png_ends_at(seen, last));
            if chunk_end == total {
                assert(rest == Some(Seq::<Chunk>::empty()));
                assert(seen + Seq::<Chunk>::empty() =~= seen);
                return dimensions;
            }
            proof {
                if rest is Some {
                    let whole = seen + rest->0;
                    assert(rest->0.len() > 0);
                    assert(whole.take(last) =~= seen.take(last));
                    assert(png_ends_at(whole, last));
                }
            }
            return None;
        } else {
            assert(!png_ends_at(seen, before.len() as int));
        }
        offset = chunk_end;
    }
    proof {
        assert(seen + Seq::<Chunk>::empty() =~= seen);
        if seen.len() > 0 {
            assert(!png_ends_at(seen, seen.len() - 1));
        }
    }
    None
}

/// A segment of a JPEG: its marker, where its length field stands, and the
/// length, which counts the field itself.
pub ghost struct Segment {
    pub marker: u8,
    pub start: int,
    pub length: int,
}

/// The markers that stand alone, without a segment.
pub open spec fn is_standalone_marker(marker: u8) -> bool {
    marker == 0x01 || 0xd0 <= marker <= 0xd7
}

/// The markers that start a frame, whose segment holds the size of the image.
pub open spec fn is_start_of_frame(marker: u8) -> bool {
    ||| 0xc0 <= marker <= 0xc3
    ||| 0xc5 <= marker <= 0xc7
    ||| 0xc9 <= marker <= 0xcb
    ||| 0xcd <= marker <= 0xcf
}

/// The position of the first byte from `at` on that is not a fill byte.
pub open spec fn after_fill(bytes: Seq<u8>, at: int) -> int
    decreases bytes.len() - at,
{
    if at < bytes.len() && bytes[at] == 0xff {
        after_fill(bytes, at + 1)
    } else {
        at
    }
}

/// The segments of a JPEG from `at` up to the start of its scan, with the
/// position at which the data of the scan starts. `None` where a segment is cut
/// off or the image ends before a scan.
pub open spec fn jpeg_segments(bytes: Seq<u8>, at: int) -> Option<(Seq<Segment>, int)>
    decreases bytes.len() - at,
    when 0 <= at
    via jpeg_segments_decreases
{
    let place = after_fill(bytes, at);
    if place >= bytes.len() {
        None
    } else {
        let marker = bytes[place];
        let start = place + 1;
        if is_standalone_marker(marker) {
            jpeg_segments(bytes, start)
        } else if marker == 0xd9 || start + 2 > bytes.len() || be16(bytes, start) < 2 || start
            + be16(bytes, start) > bytes.len() {
            None
        } else if marker == 0xda {
            Some((Seq::empty(), start + be16(bytes, start)))
        } else {
            let segment = Segment { marker, start, length: be16(bytes, start) };
            match jpeg_segments(bytes, start + be16(bytes, start)) {
                Some((rest, scan)) => Some((seq![segment] + rest, scan)),
                None => None,
            }
        }
    }
}

#[via_fn]
proof fn jpeg_segments_decreases(bytes: Seq<u8>, at: int) {
    lemma_after_fill(bytes, at);
}

proof fn lemma_after_fill(bytes: Seq<u8>, at: int)
    ensures
        at <= after_fill(bytes, at),
        at <= bytes.len() ==> after_fill(bytes, at) <= bytes.len(),
    decreases bytes.len() - at,
{
    if at < bytes.len() && bytes[at] == 0xff {
        lemma_after_fill(bytes, at + 1);
    }
}

/// Whether the marker that ends an image stands at or after `from`.
pub open spec fn has_end_of_image(bytes: Seq<u8>, from: int) -> bool {
    exists|i: int|
        from <= i && i + 1 < bytes.len() && #[trigger] bytes[i] == 0xff && bytes[i + 1] == 0xd9
}

/// The segments that start a frame, in order.
pub open spec fn frames(segments: Seq<Segment>) -> Seq<Segment>
    decreases segments.len(),
{
    if segments.len() == 0 {
        Seq::empty()
    } else {
        let before = frames(segments.drop_last());
        if is_start_of_frame(segments.last().marker) {
            before.push(segments.last())
        } else {
            before
        }
    }
}

pub proof fn lemma_frames_concat(left: Seq<Segment>, right: Seq<Segment>)
    ensures
        frames(left + right) == frames(left) + frames(right),
    decreases right.len(),
{
    if right.len() == 0 {
        assert(left + right =~= left);
        assert(frames(left) + frames(right) =~= frames(left));
    } else {
        lemma_frames_concat(left, right.drop_last());
        assert((left + right).drop_last() =~= left + right.drop_last());
        assert((left + right).last() == right.last());
        assert(frames(left + right) =~= frames(left) + frames(right));
    }
}

/// The width and height that a frame segment declares.
pub open spec fn frame_size(bytes: Seq<u8>, frame: Segment) -> (int, int) {
    (be16(bytes, frame.start + 5), be16(bytes, frame.start + 3))
}

/// The width and height that a JPEG declares, where it has one frame before its
/// scan and an end after it.
pub open spec fn jpeg_size(bytes: Seq<u8>) -> Option<(int, int)> {
    if bytes.len() >= 4 && bytes[0] == 0xff && bytes[1] == 0xd8 {
        match jpeg_segments(bytes, 2) {
            Some((segments, scan)) => if has_end_of_image(bytes, scan) && frames(segments).len() == 1
                && frames(segments)[0].length >= 8 {
                Some(frame_size(bytes, frames(segments)[0]))
            } else {
                None
            },
            None => None,
        }
    } else {
        None
    }
}

/// Whether a marker starts a frame.
pub fn is_jpeg_start_of_frame(marker: u8) -> (starts: bool)
    ensures
        starts == is_start_of_frame(marker),
{
    (0xc0 <= marker && marker <= 0xc3) || (0xc5 <= marker && marker <= 0xc7) || (0xc9 <= marker
        && marker <= 0xcb) || (0xcd <= marker && marker <= 0xcf)
}

fn read_be16(bytes: &[u8], at: usize) -> (value: u16)
    requires
        at + 2 <= bytes.len(),
    ensures
        value == be16(bytes@, at as int),
{
    bytes[at] as u16 * 256 + bytes[at + 1] as u16
}

fn finds_end_of_image(bytes: &[u8], from: usize) -> (found: bool)
    requires
        from <= bytes@.len(),
    ensures
        found == has_end_of_image(bytes@, from as int),
{
    let total: usize = bytes.len();
    let mut i: usize = from;
    while i < total && total - i >= 2
        invariant
            total == bytes@.len(),
            from <= i <= total,
            forall|j: int|
                from <= j < i && j + 1 < total ==> !(#[trigger] bytes@[j] == 0xff && bytes@[j + 1]
                    == 0xd9),
        decreases total - i,
    {
        if bytes[i] == 0xff && bytes[i + 1] == 0xd9 {
            return true;
        }
        i += 1;
    }
    false
}

/// Whether bytes start with the marker that a JPEG starts with.
fn has_jpeg_signature(bytes: &[u8]) -> (found: bool)
    ensures
        found == (bytes@.len() >= 2 && bytes@[0] == 0xff && bytes@[1] == 0xd8),
{
    bytes.len() >= 2 && bytes[0] == 0xff && bytes[1] == 0xd8
}

/// The width and height that a JPEG declares. It must have exactly one frame
/// before its scan, and the end marker somewhere after it.
pub fn jpeg_dimensions(bytes: &[u8]) -> (size: Option<(u32, u32)>)
    ensures
        size_view(size) == jpeg_size(bytes@),
{
    let total: usize = bytes.len();
    if total < 4 || !has_jpeg_signature(bytes) {
        return None;
    }
    let mut index: usize = 2;
    let mut dimensions: Option<(u32, u32)> = None;
    let ghost mut seen: Seq<Segment> = Seq::empty();
    proof {
        if jpeg_segments(bytes@, 2) is Some {
            assert(seen + (jpeg_segments(bytes@, 2)->0).0 =~= (jpeg_segments(bytes@, 2)->0).0);
        }
    }
    while index < total
        invariant
            total == bytes@.len(),
            4 <= total,
            bytes@[0] == 0xff,
            bytes@[1] == 0xd8,
            2 <= index <= total,
            jpeg_segments(bytes@, 2) == match jpeg_segments(bytes@, index as int) {
                Some((rest, scan)) => Some((seen + rest, scan)),
                None => None,
            },
            dimensions is None ==> frames(seen).len() == 0,
            dimensions is Some ==> frames(seen).len() == 1 && frames(seen)[0].length >= 8
                && size_view(dimensions) == Some(frame_size(bytes@, frames(seen)[0])),
        decreases total - index,
    {
        let ghost top = index as int;
        while index < total && bytes[index] == 0xff
            invariant
                total == bytes@.len(),
                top <= index <= total,
                after_fill(bytes@, top) == after_fill(bytes@, index as int),
            decreases total - index,
        {
            index += 1;
        }
        assert(after_fill(bytes@, top) == index);
        if index == total {
            return None;
        }
        let marker: u8 = bytes[index];
        index += 1;
        if marker == 0x01 || (0xd0 <= marker && marker <= 0xd7) {
            assert(jpeg_segments(bytes@, top) == jpeg_segments(bytes@, index as int));
            continue;
        }
        if marker == 0xd9 || total - index < 2 {
            return None;
        }
        let segment_length: usize = read_be16(bytes, index) as usize;
        if segment_length < 2 || segment_length > total - index {
            return None;
        }
        if marker == 0xda {
            let scan: usize = index + segment_length;
            proof {
                assert(jpeg_segments(bytes@, top) == Some((Seq::<Segment>::empty(), scan as int)));
                assert(seen + Seq::<Segment>::empty() =~= seen);
                assert(jpeg_segments(bytes@, 2) == Some((seen, scan as int)));
            }
            if finds_end_of_image(bytes, scan) {
                return dimensions;
            }
            return None;
        }
        let ghost segment = Segment { marker, start: index as int, length: segment_length as int };
        let ghost before = seen;
        let ghost rest = jpeg_segments(bytes@, index + segment_length);
        proof {
            seen = before.push(segment);
            if rest is Some {
                assert(before + (seq![segment] + (rest->0).0) =~= seen + (rest->0).0);
            }
            assert(seen.drop_last() =~= before);
            if rest is Some {
                lemma_frames_concat(seen, (rest->0).0);
            }
        }
        if is_jpeg_start_of_frame(marker) {
            if dimensions.is_some() || segment_length < 8 {
                return None;
            }
            let height: u32 = read_be16(bytes, index + 3) as u32;
            let width: u32 = read_be16(bytes, index + 5) as u32;
            dimensions = Some((width, height));
        }
        index += segment_length;
    }
    proof {
        assert(after_fill(bytes@, index as int) == index);
    }
    None
}

pub open spec fn riff() -> Seq<u8> {
    seq![82u8, 73u8, 70u8, 70u8]
}

pub open spec fn webp() -> Seq<u8> {
    seq![87u8, 69u8, 66u8, 80u8]
}

pub open spec fn vp8x() -> Seq<u8> {
    seq![86u8, 80u8, 56u8, 88u8]
}

pub open spec fn vp8() -> Seq<u8> {
    seq![86u8, 80u8, 56u8, 32u8]
}

pub open spec fn vp8l() -> Seq<u8> {
    seq![86u8, 80u8, 56u8, 76u8]
}

/// The RIFF chunk whose type stands at `at`: type, length, data.
pub open spec fn riff_chunk(bytes: Seq<u8>, at: int) -> Chunk {
    Chunk { kind: bytes.subrange(at, at + 4), start: at + 8, size: le32(bytes, at + 4) }
}

/// The RIFF chunks from `at` to the end, where they fill the bytes exactly. A
/// zero byte follows data of odd length.
pub open spec fn riff_chunks(bytes: Seq<u8>, at: int) -> Option<Seq<Chunk>>
    decreases bytes.len() - at,
{
    if at == bytes.len() {
        Some(Seq::empty())
    } else if at < 0 || at + 8 > bytes.len() {
        None
    } else {
        let chunk = riff_chunk(bytes, at);
        let end = chunk.start + chunk.size;
        let next = end + chunk.size % 2;
        if next > bytes.len() || (chunk.size % 2 == 1 && bytes[end] != 0) {
            None
        } else {
            match riff_chunks(bytes, next) {
                Some(rest) => Some(seq![chunk] + rest),
                None => None,
            }
        }
    }
}

/// The width and height that a WebP chunk declares: the canvas of a still image
/// (VP8X), a lossy frame (VP8) or a lossless one (VP8L).
pub open spec fn webp_chunk_size(kind: Seq<u8>, data: Seq<u8>) -> Option<(int, int)> {
    if kind == vp8x() && data.len() == 10 {
        if (data[0] / 2) % 2 != 0 {
            None
        } else {
            Some((1 + le24(data, 4), 1 + le24(data, 7)))
        }
    } else if kind == vp8() && data.len() >= 10 {
        if data[3] == 0x9d && data[4] == 0x01 && data[5] == 0x2a {
            Some((le16(data, 6) % 16384, le16(data, 8) % 16384))
        } else {
            None
        }
    } else if kind == vp8l() && data.len() >= 5 && data[0] == 0x2f {
        Some((1 + le32(data, 1) % 16384, 1 + (le32(data, 1) / 16384) % 16384))
    } else {
        None
    }
}

/// Whether a chunk holds a frame of a still image.
pub open spec fn webp_frame(bytes: Seq<u8>, chunk: Chunk) -> bool {
    &&& chunk.kind == vp8() || chunk.kind == vp8l()
    &&& webp_chunk_size(chunk.kind, chunk.data(bytes)) is Some
}

/// Whether a frame stands among chunks.
pub open spec fn webp_has_frame(bytes: Seq<u8>, chunks: Seq<Chunk>) -> bool {
    exists|i: int| 0 <= i < chunks.len() && #[trigger] webp_frame(bytes, chunks[i])
}

/// Whether bytes start as a WebP container does.
pub open spec fn starts_as_webp(bytes: Seq<u8>) -> bool {
    &&& bytes.len() >= 12
    &&& bytes.take(4) == riff()
    &&& bytes.subrange(8, 12) == webp()
}

/// The width and height that a WebP declares in its first chunk. A canvas must
/// be followed by a frame.
pub open spec fn webp_size(bytes: Seq<u8>) -> Option<(int, int)> {
    if bytes.len() >= 20 && starts_as_webp(bytes) && le32(bytes, 4) + 8 == bytes.len() {
        match riff_chunks(bytes, 12) {
            Some(chunks) => if chunks.len() == 0 || (chunks[0].kind == vp8x() && !webp_has_frame(
                bytes,
                chunks.skip(1),
            )) {
                None
            } else {
                webp_chunk_size(chunks[0].kind, chunks[0].data(bytes))
            },
            None => None,
        }
    } else {
        None
    }
}

fn read_le16(bytes: &[u8], at: usize) -> (value: u32)
    requires
        at + 2 <= bytes.len(),
    ensures
        value == le16(bytes@, at as int),
        value < 65536,
{
    bytes[at + 1] as u32 * 256 + bytes[at] as u32
}

fn read_le32(bytes: &[u8], at: usize) -> (value: u32)
    requires
        at + 4 <= bytes.len(),
    ensures
        value == le32(bytes@, at as int),
{
    read_le16(bytes, at + 2) * 65536 + read_le16(bytes, at)
}

/// The width and height that a WebP chunk declares.
pub fn webp_chunk_dimensions(chunk_type: &[u8], chunk_data: &[u8]) -> (size: Option<(u32, u32)>)
    ensures
        size_view(size) == webp_chunk_size(chunk_type@, chunk_data@),
{
    let is_type = chunk_type.len() == 4;
    proof {
        if chunk_type@.len() == 4 {
            assert(chunk_type@.subrange(0, 4) =~= chunk_type@);
        }
        assert(vp8x().len() == 4 && vp8().len() == 4 && vp8l().len() == 4);
        assert(vp8x()[3] == 88 && vp8()[3] == 32 && vp8l()[3] == 76);
    }
    let size: usize = chunk_data.len();
    if is_type && tag_at(chunk_type, 0, 86, 80, 56, 88) && size == 10 {
        // The animation flag of the feature byte.
        if (chunk_data[0] / 2) % 2 != 0 {
            return None;
        }
        let width: u32 = chunk_data[6] as u32 * 65536 + read_le16(chunk_data, 4);
        let height: u32 = chunk_data[9] as u32 * 65536 + read_le16(chunk_data, 7);
        Some((1 + width, 1 + height))
    } else if is_type && tag_at(chunk_type, 0, 86, 80, 56, 32) && size >= 10 {
        if chunk_data[3] != 0x9d || chunk_data[4] != 0x01 || chunk_data[5] != 0x2a {
            return None;
        }
        Some((read_le16(chunk_data, 6) % 16384, read_le16(chunk_data, 8) % 16384))
    } else if is_type && tag_at(chunk_type, 0, 86, 80, 56, 76) && size >= 5 && chunk_data[0]
        == 0x2f {
        let dimensions: u32 = read_le32(chunk_data, 1);
        Some((1 + dimensions % 16384, 1 + (dimensions / 16384) % 16384))
    } else {
        None
    }
}

/// Whether bytes start as a WebP container does.
fn has_webp_signature(bytes: &[u8]) -> (found: bool)
    ensures
        found == starts_as_webp(bytes@),
{
    if bytes.len() < 12 {
        return false;
    }
    assert(bytes@.subrange(0, 4) =~= bytes@.take(4));
    tag_at(bytes, 0, 82, 73, 70, 70) && tag_at(bytes, 8, 87, 69, 66, 80)
}

/// The width and height that a WebP declares. Every chunk must be whole, and
/// together they must fill the container.
pub fn webp_dimensions(bytes: &[u8]) -> (size: Option<(u32, u32)>)
    ensures
        size_view(size) == webp_size(bytes@),
{
    let total: usize = bytes.len();
    if total < 20 || !has_webp_signature(bytes) {
        return None;
    }
    let riff_length: usize = read_le32(bytes, 4) as usize;
    if riff_length != total - 8 {
        return None;
    }
    let mut offset: usize = 12;
    let mut dimensions: Option<(u32, u32)> = None;
    let mut extended = false;
    let mut saw_frame = false;
    let ghost mut seen: Seq<Chunk> = Seq::empty();
    proof {
        if riff_chunks(bytes@, 12) is Some {
            assert(seen + riff_chunks(bytes@, 12)->0 =~= riff_chunks(bytes@, 12)->0);
        }
    }
    while offset < total
        invariant
            total == bytes@.len(),
            20 <= total,
            12 <= offset <= total,
            starts_as_webp(bytes@),
            le32(bytes@, 4) + 8 == bytes@.len(),
            riff_chunks(bytes@, 12) == match riff_chunks(bytes@, offset as int) {
                Some(rest) => Some(seen + rest),
                None => None,
            },
            seen.len() == 0 <==> offset == 12,
            seen.len() == 0 ==> !saw_frame,
            seen.len() > 0 ==> extended == (seen[0].kind == vp8x()),
            seen.len() > 0 ==> size_view(dimensions) == webp_chunk_size(
                seen[0].kind,
                seen[0].data(bytes@),
            ),
            seen.len() > 0 && extended ==> saw_frame == webp_has_frame(bytes@, seen.skip(1)),
        decreases total - offset,
    {
        if total - offset < 8 {
            return None;
        }
        let ghost chunk = riff_chunk(bytes@, offset as int);
        let chunk_length: usize = read_le32(bytes, offset + 4) as usize;
        let data_start: usize = offset + 8;
        if chunk_length > total - data_start {
            return None;
        }
        let data_end: usize = data_start + chunk_length;
        let padding: usize = chunk_length % 2;
        if padding > total - data_end {
            return None;
        }
        if padding == 1 && bytes[data_end] != 0 {
            return None;
        }
        let next: usize = data_end + padding;
        let ghost rest = riff_chunks(bytes@, next as int);
        let ghost before = seen;
        proof {
            seen = before.push(chunk);
            if rest is Some {
                assert(before + (seq![chunk] + rest->0) =~= seen + rest->0);
            }
        }
        let kind = vstd::slice::slice_subrange(bytes, offset, offset + 4);
        let data = vstd::slice::slice_subrange(bytes, data_start, data_end);
        assert(kind@ == chunk.kind);
        assert(data@ == chunk.data(bytes@));
        if offset == 12 {
            assert(kind@.subrange(0, 4) =~= kind@);
            extended = tag_at(kind, 0, 86, 80, 56, 88);
            dimensions = webp_chunk_dimensions(kind, data);
            proof {
                assert(seen.skip(1) =~= Seq::empty());
                assert(saw_frame == webp_has_frame(bytes@, seen.skip(1)));
            }
        } else {
            let ghost old_frames = before.skip(1);
            proof {
                assert(seen[0] == before[0]);
                assert(seen.skip(1) =~= old_frames.push(chunk));
                assert(webp_has_frame(bytes@, seen.skip(1)) == (webp_has_frame(bytes@, old_frames)
                    || webp_frame(bytes@, chunk))) by {
                    let new_frames = seen.skip(1);
                    if webp_has_frame(bytes@, old_frames) {
                        let k = choose|k: int|
                            0 <= k < old_frames.len() && #[trigger] webp_frame(
                                bytes@,
                                old_frames[k],
                            );
                        assert(webp_frame(bytes@, new_frames[k]));
                    }
                    if webp_frame(bytes@, chunk) {
                        assert(webp_frame(bytes@, new_frames[old_frames.len() as int]));
                    }
                    if webp_has_frame(bytes@, new_frames) && !webp_frame(bytes@, chunk) {
                        let k = choose|k: int|
                            0 <= k < new_frames.len() && #[trigger] webp_frame(
                                bytes@,
                                new_frames[k],
                            );
                        assert(webp_frame(bytes@, old_frames[k]));
                    }
                }
                assert(kind@.subrange(0, 4) =~= kind@);
            }
            if extended && (tag_at(kind, 0, 86, 80, 56, 32) || tag_at(kind, 0, 86, 80, 56, 76))
                && webp_chunk_dimensions(kind, data).is_some() {
                saw_frame = true;
            }
        }
        offset = next;
    }
    assert(seen + Seq::<Chunk>::empty() =~= seen);
    if extended && !saw_frame {
        None
    } else {
        dimensions
    }
}

/// A PNG that ends before its first chunk is declared has no size.
pub proof fn lemma_short_png(bytes: Seq<u8>)
    requires
        bytes.len() < 16,
    ensures
        png_size(bytes) is None,
{
}

/// No declared width or height is negative.
pub proof fn lemma_sizes_are_not_negative(bytes: Seq<u8>)
    ensures
        png_size(bytes) matches Some((width, height)) ==> width >= 0 && height >= 0,
        jpeg_size(bytes) matches Some((width, height)) ==> width >= 0 && height >= 0,
        webp_size(bytes) matches Some((width, height)) ==> width >= 0 && height >= 0,
{
}

/// Where PNG chunks fill bytes and the start of them, the chunks of the start come
/// first, and there are more if there are more bytes.
proof fn lemma_png_chunks_of_start(start: Seq<u8>, bytes: Seq<u8>, at: int)
    requires
        start.is_prefix_of(bytes),
        0 <= at <= start.len(),
        png_chunks(start, at) is Some,
        png_chunks(bytes, at) is Some,
    ensures
        png_chunks(start, at)->0.is_prefix_of(png_chunks(bytes, at)->0),
        start.len() < bytes.len() ==> png_chunks(start, at)->0.len() < png_chunks(
            bytes,
            at,
        )->0.len(),
    decreases start.len() - at,
{
    let chunks = png_chunks(start, at)->0;
    let more = png_chunks(bytes, at)->0;
    if at < start.len() {
        assert(start[at] == bytes[at] && start[at + 1] == bytes[at + 1] && start[at + 2]
            == bytes[at + 2] && start[at + 3] == bytes[at + 3]);
        let next = at + 12 + be32(start, at);
        assert(start.subrange(at + 4, at + 8) =~= bytes.subrange(at + 4, at + 8));
        assert(png_chunk(start, at) == png_chunk(bytes, at));
        lemma_png_chunks_of_start(start, bytes, next);
        let rest = png_chunks(start, next)->0;
        let other = png_chunks(bytes, next)->0;
        assert(chunks == seq![png_chunk(start, at)] + rest);
        assert(more == seq![png_chunk(start, at)] + other);
        assert forall|i: int| 0 <= i < chunks.len() implies chunks[i] == #[trigger] more[i] by {
            if i > 0 {
                assert(rest[i - 1] == other.take(rest.len() as int)[i - 1]);
            }
        }
        assert(chunks =~= more.take(chunks.len() as int));
    } else {
        assert(chunks =~= more.take(0));
    }
}

/// A PNG that is cut short has no size, nor has one with anything behind its end.
pub proof fn law_no_size_beside_png(a: Seq<u8>, b: Seq<u8>)
    requires
        png_size(a) is Some,
        a.len() != b.len(),
        a.is_prefix_of(b) || b.is_prefix_of(a),
    ensures
        png_size(b) is None,
{
    if png_size(b) is Some {
        let (start, whole) = if a.len() < b.len() {
            (a, b)
        } else {
            (b, a)
        };
        lemma_png_chunks_of_start(start, whole, 8);
        let first = png_chunks(start, 8)->0;
        let all = png_chunks(whole, 8)->0;
        let last = first.len() - 1;
        assert(png_ends_at(first, last));
        assert(first[last] == all.take(first.len() as int)[last]);
        assert(all.take(last) =~= first.take(last));
        assert(png_ends_at(all, last));
    }
}

/// A WebP that is cut short has no size, nor has one with anything behind its end.
pub proof fn law_no_size_beside_webp(a: Seq<u8>, b: Seq<u8>)
    requires
        webp_size(a) is Some,
        a.len() != b.len(),
        a.is_prefix_of(b) || b.is_prefix_of(a),
    ensures
        webp_size(b) is None,
{
    if webp_size(b) is Some {
        assert(a[4] == b[4] && a[5] == b[5] && a[6] == b[6] && a[7] == b[7]);
    }
}

} // verus!
