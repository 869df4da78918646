//! Which images have a size, and which: what is said of every image that is put
//! together as its format asks.
use vstd::prelude::*;

use crate::image;
use crate::image::{Chunk, Segment};

verus! {

/// One part of a JPEG before its scan: any number of fill bytes, a marker, and the
/// data of a segment, unless the marker stands alone.
pub ghost struct JpegPart {
    pub fill: nat,
    pub marker: u8,
    pub data: Option<Seq<u8>>,
}

/// Fill bytes.
pub open spec fn fill_bytes(count: nat) -> Seq<u8> {
    Seq::new(count, |i: int| 0xffu8)
}

/// The length of a segment, which counts itself, and its data.
pub open spec fn segment_bytes(data: Seq<u8>) -> Seq<u8> {
    seq![((data.len() + 2) / 256) as u8, ((data.len() + 2) % 256) as u8] + data
}

impl JpegPart {
    /// The bytes of the part.
    pub open spec fn bytes(self) -> Seq<u8> {
        fill_bytes(self.fill + 1) + seq![self.marker] + match self.data {
            Some(data) => segment_bytes(data),
            None => Seq::empty(),
        }
    }

    /// Whether the part is as the format asks: markers that stand alone have no
    /// data, all others have, and neither a scan nor the end starts here.
    pub open spec fn is_proper(self) -> bool {
        match self.data {
            Some(data) => data.len() <= 65533 && self.marker != 0x01 && !(0xd0 <= self.marker
                <= 0xd7) && self.marker != 0xd9 && self.marker != 0xda && self.marker != 0xff,
            None => self.marker == 0x01 || 0xd0 <= self.marker <= 0xd7,
        }
    }

    /// Whether the part starts a frame.
    pub open spec fn is_frame(self) -> bool {
        0xc0 <= self.marker <= 0xcf && self.marker != 0xc4 && self.marker != 0xc8 && self.marker
            != 0xcc
    }
}

/// The bytes of several parts.
pub open spec fn parts_bytes(parts: Seq<JpegPart>) -> Seq<u8>
    decreases parts.len(),
{
    if parts.len() == 0 {
        Seq::empty()
    } else {
        parts[0].bytes() + parts_bytes(parts.skip(1))
    }
}

/// A JPEG: its start marker, some parts, and a scan with its data.
pub open spec fn jpeg(parts: Seq<JpegPart>, scan: Seq<u8>, data: Seq<u8>) -> Seq<u8> {
    seq![0xffu8, 0xd8u8] + parts_bytes(parts) + seq![0xffu8, 0xdau8] + segment_bytes(scan) + data
}

/// Whether parts and a scan are as the format asks.
pub open spec fn are_proper(parts: Seq<JpegPart>, scan: Seq<u8>) -> bool {
    &&& scan.len() <= 65533
    &&& forall|i: int| 0 <= i < parts.len() ==> (#[trigger] parts[i]).is_proper()
}

/// The segments of parts that start at a position.
spec fn segments_of(parts: Seq<JpegPart>, at: int) -> Seq<Segment>
    decreases parts.len(),
{
    if parts.len() == 0 {
        Seq::empty()
    } else {
        let rest = segments_of(parts.skip(1), at + parts[0].bytes().len());
        match parts[0].data {
            Some(data) => seq![
                Segment {
                    marker: parts[0].marker,
                    start: at + parts[0].fill + 2,
                    length: (data.len() + 2) as int,
                },
            ] + rest,
            None => rest,
        }
    }
}

proof fn lemma_after_fill_bytes(bytes: Seq<u8>, at: int, count: nat)
    requires
        0 <= at,
        at + count < bytes.len(),
        forall|i: int| at <= i < at + count ==> #[trigger] bytes[i] == 0xff,
        bytes[at + count] != 0xff,
    ensures
        image::after_fill(bytes, at) == at + count,
    decreases count,
{
    if count > 0 {
        lemma_after_fill_bytes(bytes, at + 1, (count - 1) as nat);
    }
}

/// The length field of a segment denotes its length.
proof fn lemma_segment_length(before: Seq<u8>, data: Seq<u8>, after: Seq<u8>)
    requires
        data.len() <= 65533,
    ensures
        image::be16(before + segment_bytes(data) + after, before.len() as int) == data.len() + 2,
{
    let whole = before + segment_bytes(data) + after;
    let n = before.len() as int;
    assert(whole[n] == ((data.len() + 2) / 256) as u8);
    assert(whole[n + 1] == ((data.len() + 2) % 256) as u8);
}

/// One part is read as its segment, and reading goes on behind it.
proof fn lemma_part_is_read(before: Seq<u8>, part: JpegPart, after: Seq<u8>)
    requires
        part.is_proper(),
    ensures
        ({
            let whole = before + part.bytes() + after;
            let at = before.len() as int;
            let rest = image::jpeg_segments(whole, at + part.bytes().len());
            image::jpeg_segments(whole, at) == match (part.data, rest) {
                (_, None) => None,
                (None, Some(found)) => Some(found),
                (Some(data), Some((segments, scan))) => Some(
                    (
                        seq![
                            Segment {
                                marker: part.marker,
                                start: at + part.fill + 2,
                                length: (data.len() + 2) as int,
                            },
                        ] + segments,
                        scan,
                    ),
                ),
            }
        }),
{
    let whole = before + part.bytes() + after;
    let at = before.len() as int;
    let place = at + part.fill + 1;
    assert forall|i: int| at <= i < place implies #[trigger] whole[i] == 0xff by {
        assert(whole[i] == part.bytes()[i - at]);
        assert(part.bytes()[i - at] == fill_bytes(part.fill + 1)[i - at]);
    }
    assert(whole[place] == part.bytes()[(part.fill + 1) as int]);
    assert(whole[place] == part.marker);
    lemma_after_fill_bytes(whole, at, part.fill + 1);
    match part.data {
        Some(data) => {
            let head = before + fill_bytes(part.fill + 1) + seq![part.marker];
            assert(whole =~= head + segment_bytes(data) + after);
            lemma_segment_length(head, data, after);
            assert(head.len() == place + 1);
            assert(image::be16(whole, place + 1) == data.len() + 2);
        },
        None => {},
    }
}

/// Parts are read as their segments, and reading goes on behind them.
proof fn lemma_parts_are_read(before: Seq<u8>, parts: Seq<JpegPart>, after: Seq<u8>)
    requires
        forall|i: int| 0 <= i < parts.len() ==> (#[trigger] parts[i]).is_proper(),
    ensures
        ({
            let whole = before + parts_bytes(parts) + after;
            let at = before.len() as int;
            image::jpeg_segments(whole, at) == match image::jpeg_segments(
                whole,
                at + parts_bytes(parts).len(),
            ) {
                Some((segments, scan)) => Some((segments_of(parts, at) + segments, scan)),
                None => None,
            }
        }),
    decreases parts.len(),
{
    let whole = before + parts_bytes(parts) + after;
    let at = before.len() as int;
    let end = at + parts_bytes(parts).len();
    if parts.len() == 0 {
        if let Some((segments, scan)) = image::jpeg_segments(whole, at) {
            assert(segments_of(parts, at) + segments =~= segments);
        }
    } else {
        let part = parts[0];
        let others = parts.skip(1);
        let more = before + part.bytes();
        assert(parts[0].is_proper());
        assert forall|i: int| 0 <= i < others.len() implies (#[trigger] others[i]).is_proper() by {
            assert(others[i] == parts[i + 1]);
        }
        lemma_parts_are_read(more, others, after);
        assert(whole =~= more + parts_bytes(others) + after);
        assert(whole =~= before + part.bytes() + (parts_bytes(others) + after));
        lemma_part_is_read(before, part, parts_bytes(others) + after);
        assert(more.len() == at + part.bytes().len());
        assert(end == more.len() + parts_bytes(others).len());
        if let Some((segments, scan)) = image::jpeg_segments(whole, end) {
            let rest = segments_of(others, more.len() as int);
            match part.data {
                Some(data) => {
                    let segment = Segment {
                        marker: part.marker,
                        start: at + part.fill + 2,
                        length: (data.len() + 2) as int,
                    };
                    assert(seq![segment] + (rest + segments) =~= (seq![segment] + rest) + segments);
                },
                None => {},
            }
        }
    }
}

/// How many of some parts start a frame.
spec fn frame_count(parts: Seq<JpegPart>) -> nat
    decreases parts.len(),
{
    if parts.len() == 0 {
        0
    } else {
        frame_count(parts.skip(1)) + if parts[0].is_frame() {
            1nat
        } else {
            0nat
        }
    }
}

proof fn lemma_frames_of(parts: Seq<JpegPart>, at: int)
    requires
        forall|i: int| 0 <= i < parts.len() ==> (#[trigger] parts[i]).is_proper(),
    ensures
        image::frames(segments_of(parts, at)).len() == frame_count(parts),
    decreases parts.len(),
{
    if parts.len() > 0 {
        let part = parts[0];
        let others = parts.skip(1);
        assert(parts[0].is_proper());
        assert forall|i: int| 0 <= i < others.len() implies (#[trigger] others[i]).is_proper() by {
            assert(others[i] == parts[i + 1]);
        }
        let next = at + part.bytes().len();
        lemma_frames_of(others, next);
        if let Some(data) = part.data {
            let segment = Segment {
                marker: part.marker,
                start: at + part.fill + 2,
                length: (data.len() + 2) as int,
            };
            image::lemma_frames_concat(seq![segment], segments_of(others, next));
            assert(seq![segment].drop_last() =~= Seq::empty());
            assert(image::frames(seq![segment].drop_last()) =~= Seq::empty());
            assert(image::frames(seq![segment]).len() == if part.is_frame() {
                1nat
            } else {
                0nat
            });
        }
    }
}

proof fn lemma_frame_count(parts: Seq<JpegPart>)
    ensures
        (forall|i: int| 0 <= i < parts.len() ==> !(#[trigger] parts[i]).is_frame()) <==> frame_count(
            parts,
        ) == 0,
        (exists|i: int, j: int|
            0 <= i < j < parts.len() && (#[trigger] parts[i]).is_frame() && (
            #[trigger] parts[j]).is_frame()) ==> frame_count(parts) >= 2,
    decreases parts.len(),
{
    if parts.len() > 0 {
        let others = parts.skip(1);
        lemma_frame_count(others);
        if forall|i: int| 0 <= i < parts.len() ==> !(#[trigger] parts[i]).is_frame() {
            assert(!parts[0].is_frame());
            assert forall|i: int| 0 <= i < others.len() implies !(
            #[trigger] others[i]).is_frame() by {
                assert(others[i] == parts[i + 1]);
            }
        }
        if frame_count(parts) == 0 {
            assert forall|i: int| 0 <= i < parts.len() implies !(#[trigger] parts[i]).is_frame() by {
                if i > 0 {
                    assert(others[i - 1] == parts[i]);
                }
            }
        }
        if exists|i: int, j: int|
            0 <= i < j < parts.len() && (#[trigger] parts[i]).is_frame() && (
            #[trigger] parts[j]).is_frame() {
            let (i, j) = choose|i: int, j: int|
                0 <= i < j < parts.len() && (#[trigger] parts[i]).is_frame() && (
                #[trigger] parts[j]).is_frame();
            assert(others[j - 1] == parts[j]);
            if i > 0 {
                assert(others[i - 1] == parts[i]);
            }
        }
    }
}

/// The only frame among parts is found, with the size that it declares.
proof fn lemma_only_frame(before: Seq<u8>, parts: Seq<JpegPart>, after: Seq<u8>, k: int)
    requires
        forall|i: int| 0 <= i < parts.len() ==> (#[trigger] parts[i]).is_proper(),
        0 <= k < parts.len(),
        parts[k].is_frame(),
        forall|i: int| 0 <= i < parts.len() && i != k ==> !(#[trigger] parts[i]).is_frame(),
    ensures
        ({
            let whole = before + parts_bytes(parts) + after;
            let found = image::frames(segments_of(parts, before.len() as int));
            let data = parts[k].data->0;
            &&& found.len() == 1
            &&& found[0].length == data.len() + 2
            &&& data.len() >= 6 ==> image::frame_size(whole, found[0]) == (
                data[3] * 256 + data[4],
                data[1] * 256 + data[2],
            )
        }),
    decreases parts.len(),
{
    let whole = before + parts_bytes(parts) + after;
    let at = before.len() as int;
    let part = parts[0];
    let others = parts.skip(1);
    let more = before + part.bytes();
    assert(parts[0].is_proper() && parts[k].is_proper());
    assert(parts[k].data is Some);
    assert forall|i: int| 0 <= i < others.len() implies (#[trigger] others[i]).is_proper() by {
        assert(others[i] == parts[i + 1]);
    }
    assert(whole =~= more + parts_bytes(others) + after);
    let rest = segments_of(others, at + part.bytes().len());
    assert(more.len() == at + part.bytes().len());
    if let Some(data) = part.data {
        let segment = Segment {
            marker: part.marker,
            start: at + part.fill + 2,
            length: (data.len() + 2) as int,
        };
        image::lemma_frames_concat(seq![segment], rest);
        assert(seq![segment].drop_last() =~= Seq::empty());
        assert(image::frames(seq![segment].drop_last()) =~= Seq::empty());
        if k == 0 {
            assert(image::frames(seq![segment]) =~= seq![segment]);
        } else {
            assert(!parts[0].is_frame());
            assert(image::frames(seq![segment]) =~= Seq::empty());
        }
    }
    if k == 0 {
        let data = part.data->0;
        assert forall|i: int| 0 <= i < others.len() implies !(#[trigger] others[i]).is_frame() by {
            assert(others[i] == parts[i + 1]);
        }
        lemma_frame_count(others);
        lemma_frames_of(others, at + part.bytes().len());
        assert(image::frames(rest) =~= Seq::empty());
        let found = image::frames(segments_of(parts, at));
        let start = at + part.fill + 2;
        assert(found[0].start == start);
        if data.len() >= 6 {
            assert forall|i: int| 1 <= i < 5 implies whole[start + 2 + i] == #[trigger] data[i] by {
                assert(whole[start + 2 + i] == part.bytes()[part.fill + 4 + i]);
            }
            assert(whole[start + 3] == data[1] && whole[start + 4] == data[2]);
            assert(whole[start + 5] == data[3] && whole[start + 6] == data[4]);
        }
    } else {
        assert(others[k - 1] == parts[k]);
        assert forall|i: int| 0 <= i < others.len() && i != k - 1 implies !(
        #[trigger] others[i]).is_frame() by {
            assert(others[i] == parts[i + 1]);
        }
        lemma_only_frame(more, others, after, k - 1);
        assert(image::frames(segments_of(parts, at)) =~= image::frames(rest));
    }
}

/// A JPEG that is put together as its format asks is read up to its scan.
proof fn lemma_jpeg_is_read(parts: Seq<JpegPart>, scan: Seq<u8>, data: Seq<u8>)
    requires
        are_proper(parts, scan),
    ensures
        image::jpeg_segments(jpeg(parts, scan, data), 2) == Some(
            (segments_of(parts, 2), jpeg(parts, scan, data).len() - data.len()),
        ),
        jpeg(parts, scan, data).len() >= 6 + data.len(),
        jpeg(parts, scan, data)[0] == 0xff,
        jpeg(parts, scan, data)[1] == 0xd8,
{
    let start = seq![0xffu8, 0xd8u8];
    let marker = seq![0xffu8, 0xdau8];
    let whole = jpeg(parts, scan, data);
    let tail = marker + segment_bytes(scan) + data;
    assert(whole =~= start + parts_bytes(parts) + tail);
    lemma_parts_are_read(start, parts, tail);
    let at = (2 + parts_bytes(parts).len()) as int;
    assert(whole[at] == 0xff && whole[at + 1] == 0xda);
    lemma_after_fill_bytes(whole, at, 1);
    let head = start + parts_bytes(parts) + marker;
    assert(whole =~= head + segment_bytes(scan) + data);
    lemma_segment_length(head, scan, data);
    assert(head.len() == at + 2);
    assert(image::jpeg_segments(whole, at) == Some(
        (Seq::<Segment>::empty(), at + 2 + scan.len() + 2),
    ));
    assert(segments_of(parts, 2) + Seq::<Segment>::empty() =~= segments_of(parts, 2));
    assert(whole[0] == start[0] && whole[1] == start[1]);
}

/// A JPEG with one frame before its scan, and the end marker somewhere in what
/// follows, has the size that the frame declares: whatever other parts it has,
/// however many components the frame lists, and whatever the data of the scan.
pub proof fn law_jpeg_size(
    parts: Seq<JpegPart>,
    k: int,
    scan: Seq<u8>,
    data: Seq<u8>,
    end: int,
)
    requires
        are_proper(parts, scan),
        0 <= k < parts.len(),
        parts[k].is_frame(),
        forall|i: int| 0 <= i < parts.len() && i != k ==> !(#[trigger] parts[i]).is_frame(),
        parts[k].data->0.len() >= 6,
        0 <= end < data.len() - 1,
        data[end] == 0xff,
        data[end + 1] == 0xd9,
    ensures
        ({
            let frame = parts[k].data->0;
            image::jpeg_size(jpeg(parts, scan, data)) == Some(
                (frame[3] * 256 + frame[4], frame[1] * 256 + frame[2]),
            )
        }),
{
    let whole = jpeg(parts, scan, data);
    lemma_jpeg_is_read(parts, scan, data);
    let start = seq![0xffu8, 0xd8u8];
    let tail = seq![0xffu8, 0xdau8] + segment_bytes(scan) + data;
    assert(whole =~= start + parts_bytes(parts) + tail);
    lemma_only_frame(start, parts, tail, k);
    let from = whole.len() - data.len();
    assert(whole[from + end] == data[end] && whole[from + end + 1] == data[end + 1]);
    assert(image::has_end_of_image(whole, from));
}

/// An ordinary JPEG, of one frame with one to four components, has the width and
/// height that it declares.
pub proof fn law_ordinary_jpeg_size(
    marker: u8,
    width: u16,
    height: u16,
    components: Seq<u8>,
    scan: Seq<u8>,
    data: Seq<u8>,
)
    requires
        0xc0 <= marker <= 0xc3,
        components.len() % 3 == 0,
        3 <= components.len() <= 12,
        scan.len() <= 65533,
    ensures
        ({
            let frame = seq![
                8u8,
                (height / 256) as u8,
                (height % 256) as u8,
                (width / 256) as u8,
                (width % 256) as u8,
                (components.len() / 3) as u8,
            ] + components;
            let parts = seq![JpegPart { fill: 0, marker, data: Some(frame) }];
            &&& segment_bytes(frame)[0] as int * 256 + segment_bytes(frame)[1] as int == 8 + 3 * (
            components.len() / 3)
            &&& image::jpeg_size(jpeg(parts, scan, data + seq![0xffu8, 0xd9u8])) == Some(
                (width as int, height as int),
            )
        }),
{
    let frame = seq![
        8u8,
        (height / 256) as u8,
        (height % 256) as u8,
        (width / 256) as u8,
        (width % 256) as u8,
        (components.len() / 3) as u8,
    ] + components;
    let parts = seq![JpegPart { fill: 0, marker, data: Some(frame) }];
    let whole = data + seq![0xffu8, 0xd9u8];
    assert(whole[data.len() as int] == 0xff && whole[(data.len() + 1) as int] == 0xd9);
    assert(frame[1] == (height / 256) as u8 && frame[2] == (height % 256) as u8);
    assert(frame[3] == (width / 256) as u8 && frame[4] == (width % 256) as u8);
    law_jpeg_size(parts, 0, scan, whole, data.len() as int);
}

/// A JPEG without a frame before its scan has no size, nor has one with two, one
/// whose frame is cut short, or one without an end marker behind its scan.
pub proof fn law_broken_jpeg_has_no_size(parts: Seq<JpegPart>, scan: Seq<u8>, data: Seq<u8>)
    requires
        are_proper(parts, scan),
        ({
            ||| forall|i: int| 0 <= i < parts.len() ==> !(#[trigger] parts[i]).is_frame()
            ||| exists|i: int, j: int|
                0 <= i < j < parts.len() && (#[trigger] parts[i]).is_frame() && (
                #[trigger] parts[j]).is_frame()
            ||| exists|k: int|
                0 <= k < parts.len() && (#[trigger] parts[k]).is_frame() && parts[k].data->0.len()
                    < 6
            ||| forall|i: int|
                0 <= i < data.len() - 1 ==> !(#[trigger] data[i] == 0xff && data[i + 1] == 0xd9)
        }),
    ensures
        image::jpeg_size(jpeg(parts, scan, data)) is None,
{
    let whole = jpeg(parts, scan, data);
    lemma_jpeg_is_read(parts, scan, data);
    lemma_frames_of(parts, 2);
    lemma_frame_count(parts);
    let from = whole.len() - data.len();
    if frame_count(parts) == 1 {
        if exists|k: int|
            0 <= k < parts.len() && (#[trigger] parts[k]).is_frame() && parts[k].data->0.len() < 6 {
            let k = choose|k: int|
                0 <= k < parts.len() && (#[trigger] parts[k]).is_frame() && parts[k].data->0.len()
                    < 6;
            assert forall|i: int| 0 <= i < parts.len() && i != k implies !(
            #[trigger] parts[i]).is_frame() by {
                if parts[i].is_frame() {
                    if i < k {
                        assert(parts[i].is_frame() && parts[k].is_frame());
                    } else {
                        assert(parts[k].is_frame() && parts[i].is_frame());
                    }
                }
            }
            let start = seq![0xffu8, 0xd8u8];
            let tail = seq![0xffu8, 0xdau8] + segment_bytes(scan) + data;
            assert(whole =~= start + parts_bytes(parts) + tail);
            lemma_only_frame(start, parts, tail, k);
        } else if image::has_end_of_image(whole, from) {
            let i = choose|i: int|
                from <= i && i + 1 < whole.len() && #[trigger] whole[i] == 0xff && whole[i + 1]
                    == 0xd9;
            assert(data[i - from] == whole[i] && data[i - from + 1] == whole[i + 1]);
        }
    }
}

/// Bytes that do not start with the start marker have no size as a JPEG.
pub proof fn law_jpeg_starts_with_its_marker(bytes: Seq<u8>)
    requires
        bytes.len() < 2 || bytes[0] != 0xff || bytes[1] != 0xd8,
    ensures
        image::jpeg_size(bytes) is None,
{
}

/// One chunk of a PNG: its type, its data and its checksum.
pub ghost struct PngPart {
    pub kind: Seq<u8>,
    pub data: Seq<u8>,
    pub checksum: Seq<u8>,
}

/// A number in four bytes, the most significant one first.
pub open spec fn four_bytes(number: nat) -> Seq<u8> {
    seq![
        (number / 16777216) as u8,
        (number / 65536 % 256) as u8,
        (number / 256 % 256) as u8,
        (number % 256) as u8,
    ]
}

impl PngPart {
    /// The bytes of the chunk.
    pub open spec fn bytes(self) -> Seq<u8> {
        four_bytes(self.data.len()) + self.kind + self.data + self.checksum
    }

    /// Whether the chunk is as the format asks.
    pub open spec fn is_proper(self) -> bool {
        self.kind.len() == 4 && self.checksum.len() == 4 && self.data.len() < 0x1_0000_0000
    }

    /// Whether the chunk can head an image.
    pub open spec fn is_header(self) -> bool {
        self.kind == seq![73u8, 72u8, 68u8, 82u8] && self.data.len() == 13
    }

    /// Whether the chunk holds image data.
    pub open spec fn is_data(self) -> bool {
        self.kind == seq![73u8, 68u8, 65u8, 84u8]
    }

    /// Whether the chunk has the type of the end of an image.
    pub open spec fn is_end(self) -> bool {
        self.kind == seq![73u8, 69u8, 78u8, 68u8]
    }
}

/// The bytes of several chunks.
pub open spec fn png_parts_bytes(parts: Seq<PngPart>) -> Seq<u8>
    decreases parts.len(),
{
    if parts.len() == 0 {
        Seq::empty()
    } else {
        parts[0].bytes() + png_parts_bytes(parts.skip(1))
    }
}

/// A PNG: its signature and some chunks.
#[verifier::opaque]
pub open spec fn png(parts: Seq<PngPart>) -> Seq<u8> {
    seq![137u8, 80u8, 78u8, 71u8, 13u8, 10u8, 26u8, 10u8] + png_parts_bytes(parts)
}

/// The chunks of parts that start at a position.
spec fn png_chunks_of(parts: Seq<PngPart>, at: int) -> Seq<Chunk>
    decreases parts.len(),
{
    if parts.len() == 0 {
        Seq::empty()
    } else {
        seq![Chunk { kind: parts[0].kind, start: at + 8, size: parts[0].data.len() as int }]
            + png_chunks_of(parts.skip(1), at + parts[0].bytes().len())
    }
}

proof fn lemma_four_bytes(before: Seq<u8>, number: nat, after: Seq<u8>)
    requires
        number < 0x1_0000_0000,
    ensures
        image::be32(before + four_bytes(number) + after, before.len() as int) == number,
{
    let whole = before + four_bytes(number) + after;
    let n = before.len() as int;
    assert(whole[n] == four_bytes(number)[0] && whole[n + 1] == four_bytes(number)[1]);
    assert(whole[n + 2] == four_bytes(number)[2] && whole[n + 3] == four_bytes(number)[3]);
    assert(number / 16777216 < 256);
    assert(number / 65536 == number / 16777216 * 256 + number / 65536 % 256);
    assert(number / 256 == number / 65536 * 256 + number / 256 % 256);
    assert(number == number / 256 * 256 + number % 256);
}

proof fn lemma_png_parts_are_read(before: Seq<u8>, parts: Seq<PngPart>)
    requires
        forall|i: int| 0 <= i < parts.len() ==> (#[trigger] parts[i]).is_proper(),
    ensures
        image::png_chunks(before + png_parts_bytes(parts), before.len() as int) == Some(
            png_chunks_of(parts, before.len() as int),
        ),
    decreases parts.len(),
{
    let whole = before + png_parts_bytes(parts);
    let at = before.len() as int;
    if parts.len() == 0 {
        assert(png_chunks_of(parts, at) =~= Seq::empty());
    } else {
        let part = parts[0];
        let others = parts.skip(1);
        let more = before + part.bytes();
        assert(parts[0].is_proper());
        assert forall|i: int| 0 <= i < others.len() implies (#[trigger] others[i]).is_proper() by {
            assert(others[i] == parts[i + 1]);
        }
        assert(whole =~= more + png_parts_bytes(others));
        lemma_png_parts_are_read(more, others);
        let after = part.kind + part.data + part.checksum + png_parts_bytes(others);
        assert(whole =~= before + four_bytes(part.data.len()) + after);
        lemma_four_bytes(before, part.data.len(), after);
        assert(part.bytes().len() == 12 + part.data.len());
        assert(whole.subrange(at + 4, at + 8) =~= part.kind) by {
            assert forall|i: int| 0 <= i < 4 implies whole[at + 4 + i] == part.kind[i] by {
                assert(whole[at + 4 + i] == after[i]);
            }
        }
    }
}

proof fn lemma_png_chunks_of(parts: Seq<PngPart>, at: int)
    ensures
        png_chunks_of(parts, at).len() == parts.len(),
        forall|i: int|
            0 <= i < parts.len() ==> (#[trigger] png_chunks_of(parts, at)[i]).kind == parts[i].kind
                && png_chunks_of(parts, at)[i].size == parts[i].data.len(),
    decreases parts.len(),
{
    if parts.len() > 0 {
        let others = parts.skip(1);
        let next = at + parts[0].bytes().len();
        lemma_png_chunks_of(others, next);
        let all = png_chunks_of(parts, at);
        assert forall|i: int| 0 <= i < parts.len() implies (#[trigger] all[i]).kind
            == parts[i].kind && all[i].size == parts[i].data.len() by {
            if i > 0 {
                assert(all[i] == png_chunks_of(others, next)[i - 1]);
                assert(others[i - 1] == parts[i]);
            }
        }
    }
}

/// What a PNG that is put together as its format asks is read as.
proof fn lemma_png_is_read(parts: Seq<PngPart>)
    requires
        forall|i: int| 0 <= i < parts.len() ==> (#[trigger] parts[i]).is_proper(),
    ensures
        image::png_chunks(png(parts), 8) == Some(png_chunks_of(parts, 8)),
        png_chunks_of(parts, 8).len() == parts.len(),
        forall|i: int|
            0 <= i < parts.len() ==> (#[trigger] png_chunks_of(parts, 8)[i]).kind == parts[i].kind
                && png_chunks_of(parts, 8)[i].size == parts[i].data.len(),
        png(parts).len() >= 8,
        png(parts).take(8) == image::png_signature(),
        parts.len() > 0 && parts[0].data.len() >= 8 ==> forall|i: int|
            0 <= i < 8 ==> png(parts)[16 + i] == #[trigger] parts[0].data[i],
{
    reveal(png);
    let signature = seq![137u8, 80u8, 78u8, 71u8, 13u8, 10u8, 26u8, 10u8];
    lemma_png_parts_are_read(signature, parts);
    lemma_png_chunks_of(parts, 8);
    assert(png(parts).take(8) =~= signature);
    if parts.len() > 0 && parts[0].data.len() >= 8 {
        assert(parts[0].is_proper());
        assert forall|i: int| 0 <= i < 8 implies png(parts)[16 + i] == #[trigger] parts[0].data[i] by {
            assert(png_parts_bytes(parts)[8 + i] == parts[0].bytes()[8 + i]);
        }
    }
}

/// A PNG of a header, image data somewhere, and an empty end chunk last is complete.
proof fn lemma_png_is_complete(parts: Seq<PngPart>, chunks: Seq<Chunk>, d: int)
    requires
        parts.len() >= 3,
        chunks.len() == parts.len(),
        forall|i: int|
            0 <= i < parts.len() ==> (#[trigger] chunks[i]).kind == parts[i].kind && chunks[i].size
                == parts[i].data.len(),
        parts[0].is_header(),
        parts.last().is_end(),
        parts.last().data.len() == 0,
        0 < d < parts.len() - 1,
        parts[d].is_data(),
        forall|i: int| 0 <= i < parts.len() - 1 ==> !(#[trigger] parts[i]).is_end(),
    ensures
        image::png_complete(chunks),
{
    let last = chunks.len() - 1;
    assert(chunks[0].kind == parts[0].kind && chunks[0].size == 13);
    assert(chunks[last].kind == parts[last].kind && chunks[last].size == 0);
    assert(chunks.take(last)[d].kind == image::idat()) by {
        assert(chunks[d].kind == parts[d].kind);
    }
    assert(image::png_has_data(chunks.take(last)));
    assert forall|i: int| 0 <= i < last implies !#[trigger] image::png_ends_at(chunks, i) by {
        assert(!parts[i].is_end());
        assert(chunks[i].kind == parts[i].kind);
    }
}

/// A PNG of a header, image data somewhere, and an empty end chunk last has the
/// width and height that its header declares, whatever other chunks it has.
pub proof fn law_png_size(parts: Seq<PngPart>, d: int)
    requires
        parts.len() >= 3,
        forall|i: int| 0 <= i < parts.len() ==> (#[trigger] parts[i]).is_proper(),
        parts[0].is_header(),
        parts.last().is_end(),
        parts.last().data.len() == 0,
        0 < d < parts.len() - 1,
        parts[d].is_data(),
        forall|i: int| 0 <= i < parts.len() - 1 ==> !(#[trigger] parts[i]).is_end(),
    ensures
        ({
            let header = parts[0].data;
            image::png_size(png(parts)) == Some(
                (
                    header[0] * 16777216 + header[1] * 65536 + header[2] * 256 + header[3],
                    header[4] * 16777216 + header[5] * 65536 + header[6] * 256 + header[7],
                ),
            )
        }),
{
    lemma_png_is_read(parts);
    lemma_png_is_complete(parts, png_chunks_of(parts, 8), d);
    let whole = png(parts);
    let header = parts[0].data;
    assert(whole[16] == header[0] && whole[17] == header[1] && whole[18] == header[2] && whole[19]
        == header[3]);
    assert(whole[20] == header[4] && whole[21] == header[5] && whole[22] == header[6] && whole[23]
        == header[7]);
}

/// A PNG has no size where it does not start with its header, does not stop with an
/// empty end chunk, has no image data, or goes on behind its end.
pub proof fn law_broken_png_has_no_size(parts: Seq<PngPart>)
    requires
        forall|i: int| 0 <= i < parts.len() ==> (#[trigger] parts[i]).is_proper(),
        ({
            ||| parts.len() == 0
            ||| !parts[0].is_header()
            ||| !parts.last().is_end()
            ||| parts.last().data.len() > 0
            ||| forall|i: int| 0 <= i < parts.len() ==> !(#[trigger] parts[i]).is_data()
            ||| exists|i: int, j: int|
                0 <= i < j < parts.len() - 1 && (#[trigger] parts[i]).is_data() && (
                #[trigger] parts[j]).is_end() && parts[j].data.len() == 0
        }),
    ensures
        image::png_size(png(parts)) is None,
{
    lemma_png_is_read(parts);
    let chunks = png_chunks_of(parts, 8);
    if image::png_complete(chunks) {
        let last = chunks.len() - 1;
        assert(chunks[0].kind == parts[0].kind);
        assert(chunks[last].kind == parts[last].kind);
        assert(chunks[0].size == parts[0].data.len() && chunks[last].size
            == parts[last].data.len());
        let before = chunks.take(last);
        let d = choose|i: int|
            0 <= i < before.len() && (#[trigger] before[i]).kind == image::idat();
        assert(chunks[d].kind == parts[d].kind);
        assert(parts[d].is_data());
        if exists|i: int, j: int|
            0 <= i < j < parts.len() - 1 && (#[trigger] parts[i]).is_data() && (
            #[trigger] parts[j]).is_end() && parts[j].data.len() == 0 {
            let (i, j) = choose|i: int, j: int|
                0 <= i < j < parts.len() - 1 && (#[trigger] parts[i]).is_data() && (
                #[trigger] parts[j]).is_end() && parts[j].data.len() == 0;
            assert(chunks[i].kind == parts[i].kind && chunks[j].kind == parts[j].kind);
            assert(chunks[j].size == parts[j].data.len());
            assert(chunks.take(j)[i].kind == image::idat());
            assert(image::png_ends_at(chunks, j));
        }
    }
}

/// Bytes that do not start with the signature have no size as a PNG.
pub proof fn law_png_starts_with_its_signature(bytes: Seq<u8>)
    requires
        bytes.len() < 8 || bytes.take(8) != seq![137u8, 80u8, 78u8, 71u8, 13u8, 10u8, 26u8, 10u8],
    ensures
        image::png_size(bytes) is None,
{
}

/// One chunk of a WebP: its type and its data.
pub ghost struct WebpPart {
    pub kind: Seq<u8>,
    pub data: Seq<u8>,
}

/// A number in four bytes, the least significant one first.
pub open spec fn four_bytes_reversed(number: nat) -> Seq<u8> {
    seq![
        (number % 256) as u8,
        (number / 256 % 256) as u8,
        (number / 65536 % 256) as u8,
        (number / 16777216) as u8,
    ]
}

impl WebpPart {
    /// The bytes of the chunk: a zero byte follows data of odd length.
    pub open spec fn bytes(self) -> Seq<u8> {
        self.kind + four_bytes_reversed(self.data.len()) + self.data + if self.data.len() % 2 == 1 {
            seq![0u8]
        } else {
            Seq::empty()
        }
    }

    /// Whether the chunk is as the format asks.
    pub open spec fn is_proper(self) -> bool {
        self.kind.len() == 4 && self.data.len() < 0x1_0000_0000
    }

    /// Whether the chunk is a lossy frame.
    pub open spec fn is_lossy(self) -> bool {
        &&& self.kind == seq![86u8, 80u8, 56u8, 32u8]
        &&& self.data.len() >= 10
        &&& self.data[3] == 0x9d && self.data[4] == 0x01 && self.data[5] == 0x2a
    }

    /// Whether the chunk is a lossless frame.
    pub open spec fn is_lossless(self) -> bool {
        &&& self.kind == seq![86u8, 80u8, 56u8, 76u8]
        &&& self.data.len() >= 5
        &&& self.data[0] == 0x2f
    }

    /// Whether the chunk has the type of a canvas.
    pub open spec fn is_canvas(self) -> bool {
        self.kind == seq![86u8, 80u8, 56u8, 88u8]
    }
}

/// The bytes of several chunks.
pub open spec fn webp_parts_bytes(parts: Seq<WebpPart>) -> Seq<u8>
    decreases parts.len(),
{
    if parts.len() == 0 {
        Seq::empty()
    } else {
        parts[0].bytes() + webp_parts_bytes(parts.skip(1))
    }
}

/// A WebP: its container, whose length counts what follows it, and some chunks.
#[verifier::opaque]
pub open spec fn webp(parts: Seq<WebpPart>) -> Seq<u8> {
    seq![82u8, 73u8, 70u8, 70u8] + four_bytes_reversed(4 + webp_parts_bytes(parts).len()) + seq![
        87u8,
        69u8,
        66u8,
        80u8,
    ] + webp_parts_bytes(parts)
}

/// Whether chunks are as the format asks and fit into a container.
pub open spec fn are_webp_parts(parts: Seq<WebpPart>) -> bool {
    &&& parts.len() > 0
    &&& 4 + webp_parts_bytes(parts).len() < 0x1_0000_0000
    &&& forall|i: int| 0 <= i < parts.len() ==> (#[trigger] parts[i]).is_proper()
}

spec fn webp_chunks_of(parts: Seq<WebpPart>, at: int) -> Seq<Chunk>
    decreases parts.len(),
{
    if parts.len() == 0 {
        Seq::empty()
    } else {
        seq![Chunk { kind: parts[0].kind, start: at + 8, size: parts[0].data.len() as int }]
            + webp_chunks_of(parts.skip(1), at + parts[0].bytes().len())
    }
}

proof fn lemma_four_bytes_reversed(before: Seq<u8>, number: nat, after: Seq<u8>)
    requires
        number < 0x1_0000_0000,
    ensures
        image::le32(before + four_bytes_reversed(number) + after, before.len() as int) == number,
{
    let four = four_bytes_reversed(number);
    let whole = before + four + after;
    let n = before.len() as int;
    assert(whole[n] == four[0] && whole[n + 1] == four[1]);
    assert(whole[n + 2] == four[2] && whole[n + 3] == four[3]);
    assert(number / 16777216 < 256);
    assert(number / 65536 == number / 16777216 * 256 + number / 65536 % 256);
    assert(number / 256 == number / 65536 * 256 + number / 256 % 256);
    assert(number == number / 256 * 256 + number % 256);
}

proof fn lemma_webp_parts_are_read(before: Seq<u8>, parts: Seq<WebpPart>)
    requires
        forall|i: int| 0 <= i < parts.len() ==> (#[trigger] parts[i]).is_proper(),
    ensures
        ({
            let whole = before + webp_parts_bytes(parts);
            let chunks = webp_chunks_of(parts, before.len() as int);
            &&& image::riff_chunks(whole, before.len() as int) == Some(chunks)
            &&& chunks.len() == parts.len()
            &&& forall|i: int|
                0 <= i < parts.len() ==> (#[trigger] chunks[i]).kind == parts[i].kind
                    && chunks[i].data(whole) == parts[i].data
        }),
    decreases parts.len(),
{
    let whole = before + webp_parts_bytes(parts);
    let at = before.len() as int;
    let chunks = webp_chunks_of(parts, at);
    if parts.len() > 0 {
        let part = parts[0];
        let others = parts.skip(1);
        let more = before + part.bytes();
        assert(parts[0].is_proper());
        assert forall|i: int| 0 <= i < others.len() implies (#[trigger] others[i]).is_proper() by {
            assert(others[i] == parts[i + 1]);
        }
        assert(whole =~= more + webp_parts_bytes(others));
        lemma_webp_parts_are_read(more, others);
        let size = part.data.len();
        let padding = if size % 2 == 1 {
            seq![0u8]
        } else {
            Seq::empty()
        };
        let after = part.data + padding + webp_parts_bytes(others);
        let head = before + part.kind;
        assert(whole =~= head + four_bytes_reversed(size) + after);
        lemma_four_bytes_reversed(head, size, after);
        assert(head.len() == at + 4);
        assert(part.bytes().len() == 8 + size + size % 2);
        assert(whole.subrange(at, at + 4) =~= part.kind) by {
            assert forall|i: int| 0 <= i < 4 implies whole[at + i] == part.kind[i] by {
                assert(whole[at + i] == head[at + i]);
            }
        }
        if size % 2 == 1 {
            assert(whole[(at + 8 + size) as int] == after[size as int]);
            assert(after[size as int] == 0);
        }
        assert(image::riff_chunk(whole, at) == chunks[0]);
        assert(chunks[0].data(whole) =~= part.data) by {
            assert forall|i: int| 0 <= i < size implies whole[at + 8 + i] == part.data[i] by {
                assert(whole[at + 8 + i] == after[i]);
            }
        }
        assert forall|i: int| 0 <= i < parts.len() implies (#[trigger] chunks[i]).kind
            == parts[i].kind && chunks[i].data(whole) == parts[i].data by {
            if i > 0 {
                assert(chunks[i] == webp_chunks_of(others, more.len() as int)[i - 1]);
                assert(others[i - 1] == parts[i]);
            }
        }
    }
}

/// What a WebP that is put together as its format asks is read as.
proof fn lemma_webp_is_read(parts: Seq<WebpPart>)
    requires
        are_webp_parts(parts),
    ensures
        ({
            let whole = webp(parts);
            let chunks = webp_chunks_of(parts, 12);
            &&& whole.len() >= 20
            &&& image::starts_as_webp(whole)
            &&& image::le32(whole, 4) + 8 == whole.len()
            &&& image::riff_chunks(whole, 12) == Some(chunks)
            &&& chunks.len() == parts.len()
            &&& forall|i: int|
                0 <= i < parts.len() ==> (#[trigger] chunks[i]).kind == parts[i].kind
                    && chunks[i].data(whole) == parts[i].data
        }),
{
    reveal(webp);
    let whole = webp(parts);
    let name = seq![82u8, 73u8, 70u8, 70u8];
    let form = seq![87u8, 69u8, 66u8, 80u8];
    let length = 4 + webp_parts_bytes(parts).len();
    let head = name + four_bytes_reversed(length) + form;
    assert(whole =~= head + webp_parts_bytes(parts));
    assert(head.len() == 12);
    lemma_webp_parts_are_read(head, parts);
    assert(whole =~= name + four_bytes_reversed(length) + (form + webp_parts_bytes(parts)));
    lemma_four_bytes_reversed(name, length, form + webp_parts_bytes(parts));
    assert(parts[0].is_proper());
    assert(parts[0].bytes().len() >= 8);
    assert(whole.take(4) =~= image::riff());
    assert(whole.subrange(8, 12) =~= image::webp());
}

/// The types of chunks differ.
proof fn lemma_webp_types_differ()
    ensures
        image::vp8() != image::vp8l(),
        image::vp8() != image::vp8x(),
        image::vp8l() != image::vp8x(),
{
    assert(image::vp8()[3] == 32 && image::vp8l()[3] == 76 && image::vp8x()[3] == 88);
}

/// The size of a WebP is what its first chunk says; a canvas needs a frame.
proof fn lemma_webp_size(parts: Seq<WebpPart>)
    requires
        are_webp_parts(parts),
    ensures
        image::webp_size(webp(parts)) == if parts[0].kind == image::vp8x()
            && !image::webp_has_frame(webp(parts), webp_chunks_of(parts, 12).skip(1)) {
            None
        } else {
            image::webp_chunk_size(parts[0].kind, parts[0].data)
        },
{
    lemma_webp_is_read(parts);
    let chunks = webp_chunks_of(parts, 12);
    assert(chunks[0].kind == parts[0].kind && chunks[0].data(webp(parts)) == parts[0].data);
}

/// A WebP that starts with a lossy frame has the width and height of that frame, in
/// fourteen bits each, whatever follows.
pub proof fn law_lossy_webp_size(parts: Seq<WebpPart>)
    requires
        are_webp_parts(parts),
        parts[0].is_lossy(),
    ensures
        ({
            let data = parts[0].data;
            image::webp_size(webp(parts)) == Some(
                ((data[6] + data[7] * 256) % 16384, (data[8] + data[9] * 256) % 16384),
            )
        }),
{
    lemma_webp_size(parts);
    lemma_webp_types_differ();
}

/// A WebP that starts with a lossless frame has the width and height of that frame,
/// each one more than what fourteen bits say, whatever follows.
pub proof fn law_lossless_webp_size(parts: Seq<WebpPart>)
    requires
        are_webp_parts(parts),
        parts[0].is_lossless(),
    ensures
        ({
            let data = parts[0].data;
            let bits = data[1] + data[2] * 256 + data[3] * 65536 + data[4] * 16777216;
            image::webp_size(webp(parts)) == Some((1 + bits % 16384, 1 + bits / 16384 % 16384))
        }),
{
    lemma_webp_size(parts);
    lemma_webp_types_differ();
    let data = parts[0].data;
    assert(image::le32(data, 1) == data[1] + data[2] * 256 + data[3] * 65536 + data[4] * 16777216);
}

/// A WebP that starts with the canvas of a still image has the width and height of
/// that canvas, each one more than what three bytes say, where a frame follows.
pub proof fn law_canvas_webp_size(parts: Seq<WebpPart>, k: int)
    requires
        are_webp_parts(parts),
        parts[0].is_canvas(),
        parts[0].data.len() == 10,
        parts[0].data[0] / 2 % 2 == 0,
        0 < k < parts.len(),
        parts[k].is_lossy() || parts[k].is_lossless(),
    ensures
        ({
            let data = parts[0].data;
            image::webp_size(webp(parts)) == Some(
                (
                    1 + data[4] + data[5] * 256 + data[6] * 65536,
                    1 + data[7] + data[8] * 256 + data[9] * 65536,
                ),
            )
        }),
{
    lemma_webp_size(parts);
    lemma_webp_is_read(parts);
    lemma_webp_types_differ();
    let whole = webp(parts);
    let chunks = webp_chunks_of(parts, 12);
    assert(chunks[k].kind == parts[k].kind);
    let rest = chunks.skip(1);
    assert(rest[k - 1] == chunks[k]);
    assert(image::webp_frame(whole, rest[k - 1]));
    assert(image::webp_has_frame(whole, rest));
}

/// A WebP has no size where its first chunk is neither a frame nor a canvas, where
/// the canvas is that of an animation, or where no frame follows the canvas.
pub proof fn law_broken_webp_has_no_size(parts: Seq<WebpPart>)
    requires
        are_webp_parts(parts),
        !parts[0].is_lossy(),
        !parts[0].is_lossless(),
        ({
            ||| !parts[0].is_canvas()
            ||| parts[0].data.len() != 10
            ||| parts[0].data[0] / 2 % 2 != 0
            ||| forall|i: int|
                0 < i < parts.len() ==> !(#[trigger] parts[i]).is_lossy()
                    && !parts[i].is_lossless()
        }),
    ensures
        image::webp_size(webp(parts)) is None,
{
    lemma_webp_size(parts);
    lemma_webp_is_read(parts);
    lemma_webp_types_differ();
    let whole = webp(parts);
    let chunks = webp_chunks_of(parts, 12);
    let rest = chunks.skip(1);
    if parts[0].is_canvas() && image::webp_has_frame(whole, rest) {
        let i = choose|i: int| 0 <= i < rest.len() && #[trigger] image::webp_frame(whole, rest[i]);
        assert(rest[i] == chunks[i + 1]);
        assert(chunks[i + 1].kind == parts[i + 1].kind);
        assert(chunks[i + 1].data(whole) == parts[i + 1].data);
        assert(parts[i + 1].is_lossy() || parts[i + 1].is_lossless());
    }
}

/// Bytes whose container does not count what follows it have no size as a WebP, nor
/// have those that are no such container.
pub proof fn law_webp_starts_with_its_container(bytes: Seq<u8>)
    requires
        ({
            ||| bytes.len() < 20
            ||| bytes.take(4) != seq![82u8, 73u8, 70u8, 70u8]
            ||| bytes.subrange(8, 12) != seq![87u8, 69u8, 66u8, 80u8]
            ||| bytes[4] + bytes[5] * 256 + bytes[6] * 65536 + bytes[7] * 16777216 + 8
                != bytes.len()
        }),
    ensures
        image::webp_size(bytes) is None,
{
}

} // verus!
