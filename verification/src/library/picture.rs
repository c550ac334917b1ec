//! Which pictures can be handed to the decoders.
//!
//! The decoders of JPEG and PNG files report most of what is wrong with a file,
//! but take some of what they read on trust, and panic where it does not hold.
//! Told here, from the bytes alone, is what a file must be like for that trust to
//! be in place:
//!
//! - `zune-jpeg` makes room for a component by the largest sampling factors that
//!   it has met so far (`setup_component_params`), so the first component has the
//!   largest ones;
//! - it decodes a sequential picture row by row only where the first scan holds
//!   every component (`decode_mcu_ycbcr_baseline`), and goes on to other scans
//!   with whatever tables stand between them (`advance_to_next_sos`);
//! - it multiplies the running brightness of a sequential picture by a step
//!   without looking for overflow (`decode_mcu_block`);
//! - it finds the components of a progressive picture by what an Adobe segment
//!   says their number is (`decode_mcu_ycbcr_progressive`), and leaves out the
//!   fourth one unless the segment names a space of four colours
//!   (`finish_progressive_decoding`);
//! - `png` takes the palette for whole colours (`create_rgba_palette`);
//! - `image` takes room for four bytes of every pixel for granted
//!   (`cast_pixels_from_subpixels`).

use vstd::prelude::*;

use crate::library::view_of;

verus! {

/// The most pixels that a picture can have.
pub const MAX_PIXELS: u64 = 67_108_864;

/// The most bytes that a JPEG file can have: its decoder counts them in 32 bits.
pub const MAX_BYTES: u64 = 0x7fff_ffff;

/// The longest side of a JPEG picture.
pub const MAX_SIDE: u32 = 65_500;

/// The most bits that the difference between one block and the next can have in
/// a JPEG picture with eight bits for each sample.
pub const MAX_CATEGORY: u32 = 11;

/// The most that the blocks of a JPEG picture, times the largest step between
/// two brightnesses, can come to: with this many differences of the largest
/// category a brightness still fits in 32 bits.
pub const MAX_REACH: u64 = 1_049_000;

// ---- numbers in a file -----------------------------------------------------

/// The number in two bytes, the higher one first.
pub open spec fn be16(data: Seq<u8>, at: int) -> int {
    data[at] * 256 + data[at + 1]
}

/// The number in four bytes, the highest one first.
pub open spec fn be32(data: Seq<u8>, at: int) -> int {
    be16(data, at) * 65536 + be16(data, at + 2)
}

/// Whether these bytes stand at this place.
pub open spec fn stands_at(data: Seq<u8>, at: int, bytes: Seq<u8>) -> bool {
    at + bytes.len() <= data.len() && data.subrange(at, at + bytes.len()) == bytes
}

fn read16(data: &Vec<u8>, at: usize) -> (r: u32)
    requires
        at + 2 <= data.len(),
    ensures
        r == be16(data@, at as int),
        r <= 0xffff,
{
    data[at] as u32 * 256 + data[at + 1] as u32
}

fn read32(data: &Vec<u8>, at: usize) -> (r: u64)
    requires
        at + 4 <= data.len(),
    ensures
        r == be32(data@, at as int),
        r <= 0xffff_ffff,
{
    read16(data, at) as u64 * 65536 + read16(data, at + 2) as u64
}

fn has_bytes(data: &Vec<u8>, at: usize, bytes: &[u8]) -> (r: bool)
    requires
        at <= data.len(),
    ensures
        r == stands_at(data@, at as int, bytes@),
{
    if data.len() - at < bytes.len() {
        return false;
    }
    let mut i: usize = 0;
    while i < bytes.len()
        invariant
            i <= bytes.len(),
            at + bytes.len() <= data.len(),
            forall|j: int| 0 <= j < i ==> data@[at + j] == #[trigger] bytes@[j],
        decreases bytes.len() - i,
    {
        if data[at + i] != bytes[i] {
            proof {
                let part = data@.subrange(at as int, at + bytes@.len());
                assert(part[i as int] == data@[at + i]);
            }
            return false;
        }
        i = i + 1;
    }
    assert(data@.subrange(at as int, at + bytes@.len()) =~= bytes@);
    true
}

// ---- JPEG: the header ------------------------------------------------------

/// How many pieces of this size it takes to cover a side.
pub open spec fn pieces(side: int, size: int) -> int {
    (side + size - 1) / size
}

/// What the frame of a JPEG file tells.
#[verifier::ext_equal]
pub struct FrameView {
    /// Whether the picture gets sharper from scan to scan.
    pub progressive: bool,
    /// How many components the picture has.
    pub parts: int,
    /// How many blocks the largest of them has.
    pub blocks: int,
}

/// How often a component is sampled across, of the frame at this place.
pub open spec fn across(data: Seq<u8>, at: int, i: int) -> int {
    data[at + 9 + 3 * i] as int / 16
}

/// How often a component is sampled down.
pub open spec fn down(data: Seq<u8>, at: int, i: int) -> int {
    data[at + 9 + 3 * i] as int % 16
}

/// Whether a component can be sampled as it is: no more often than the first
/// one, and at most twice down.
pub open spec fn sampled_well(data: Seq<u8>, at: int, i: int) -> bool {
    &&& 1 <= across(data, at, i) <= across(data, at, 0) <= 4
    &&& 1 <= down(data, at, i) <= down(data, at, 0) <= 2
}

/// What the frame at this place, up to `end`, tells. A frame is of no use unless
/// it has one, three or four components, none sampled more often than the first;
/// four that get sharper from scan to scan are all sampled alike.
pub open spec fn frame_of(data: Seq<u8>, marker: u8, at: int, end: int) -> Option<FrameView> {
    let height = be16(data, at + 3);
    let width = be16(data, at + 5);
    let parts = data[at + 7] as int;
    if at + 8 <= end && end == at + 8 + 3 * parts && (parts == 1 || parts == 3 || parts == 4) && 1 <= width <= MAX_SIDE
        && 1 <= height <= MAX_SIDE && width * height <= MAX_PIXELS && (forall|i: int|
        0 <= i < parts ==> #[trigger] sampled_well(data, at, i)) && (marker == 0xc2 && parts == 4 ==> data[at + 9] == 0x11) {
        Some(
            FrameView {
                progressive: marker == 0xc2,
                parts,
                blocks: pieces(width, 8 * across(data, at, 0)) * across(data, at, 0) * (pieces(
                    height,
                    8 * down(data, at, 0),
                ) * down(data, at, 0)),
            },
        )
    } else {
        None
    }
}

/// The largest first step of the tables between two places, and of `most`. There
/// is none where a table is cut short.
pub open spec fn largest_step(data: Seq<u8>, at: int, end: int, most: int) -> Option<int>
    decreases end - at,
{
    if at >= end {
        Some(most)
    } else if data[at] < 16 && at + 65 <= end {
        largest_step(data, at + 65, end, if data[at + 1] > most { data[at + 1] as int } else { most })
    } else if 16 <= data[at] < 32 && at + 129 <= end {
        largest_step(data, at + 129, end, if be16(data, at + 1) > most { be16(data, at + 1) } else { most })
    } else {
        None
    }
}

/// The sum of the bytes between two places, and `sum`.
pub open spec fn sum_between(data: Seq<u8>, at: int, end: int, sum: int) -> int
    decreases end - at,
{
    if at >= end {
        sum
    } else {
        sum_between(data, at + 1, end, sum + data[at])
    }
}

/// The largest of the bytes between two places, and of `most`.
pub open spec fn largest_between(data: Seq<u8>, at: int, end: int, most: int) -> int
    decreases end - at,
{
    if at >= end {
        most
    } else {
        largest_between(data, at + 1, end, if data[at] > most { data[at] as int } else { most })
    }
}

/// The largest category of difference in the code tables between two places, and
/// of `most`. There is none where a table is cut short.
pub open spec fn largest_category(data: Seq<u8>, at: int, end: int, most: int) -> Option<int>
    decreases end - at,
{
    if at >= end {
        Some(most)
    } else if at + 17 > end {
        None
    } else {
        let count = sum_between(data, at + 1, at + 17, 0);
        if count < 0 || at + 17 + count > end {
            None
        } else {
            largest_category(
                data,
                at + 17 + count,
                end,
                if data[at] < 16 {
                    largest_between(data, at + 17, at + 17 + count, most)
                } else {
                    most
                },
            )
        }
    }
}

/// What the header of a JPEG file tells.
#[verifier::ext_equal]
pub struct HeadView {
    pub frame: Option<FrameView>,
    /// The largest step between two brightnesses.
    pub step: int,
    /// The largest category of difference between one block and the next.
    pub category: int,
}

impl HeadView {
    /// The header after one more segment, between two places. There is none
    /// where the segment is of no use: a second frame, or what would change the
    /// meaning of the components behind the frame.
    pub open spec fn with_segment(self, data: Seq<u8>, marker: u8, at: int, end: int) -> Option<HeadView> {
        if marker == 0xdb {
            match largest_step(data, at + 2, end, self.step) {
                Some(step) => Some(HeadView { step, ..self }),
                None => None,
            }
        } else if marker == 0xc4 {
            match largest_category(data, at + 2, end, self.category) {
                Some(category) => Some(HeadView { category, ..self }),
                None => None,
            }
        } else if 0xc0 <= marker <= 0xc2 {
            if self.frame is Some {
                None
            } else {
                match frame_of(data, marker, at, end) {
                    Some(f) => Some(HeadView { frame: Some(f), ..self }),
                    None => None,
                }
            }
        } else if marker == 0xee && self.frame is Some {
            None
        } else {
            Some(self)
        }
    }
}

/// The header from this place on, with what was told before, and where the first
/// scan begins: behind its marker. The segments follow each other without a gap.
pub open spec fn head_from(data: Seq<u8>, at: int, head: HeadView) -> Option<(HeadView, int)>
    decreases data.len() - at,
{
    if at + 4 > data.len() || data[at] != 0xff || data[at + 1] == 0 {
        None
    } else if data[at + 1] == 0xff {
        head_from(data, at + 1, head)
    } else if data[at + 1] == 0xda {
        Some((head, at + 2))
    } else {
        let end = at + 2 + be16(data, at + 2);
        if end < at + 4 || end > data.len() {
            None
        } else {
            match head.with_segment(data, data[at + 1], at + 2, end) {
                Some(h) => head_from(data, end, h),
                None => None,
            }
        }
    }
}

/// What the header of a JPEG file tells, and where its first scan begins.
pub open spec fn head_of(data: Seq<u8>) -> Option<(HeadView, int)> {
    head_from(data, 2, HeadView { frame: None, step: 0, category: 0 })
}

struct Frame {
    progressive: bool,
    parts: u8,
    blocks: u64,
}

struct Head {
    frame: Option<Frame>,
    step: u32,
    category: u32,
}

impl View for Frame {
    type V = FrameView;

    closed spec fn view(&self) -> FrameView {
        FrameView { progressive: self.progressive, parts: self.parts as int, blocks: self.blocks as int }
    }
}

impl View for Head {
    type V = HeadView;

    closed spec fn view(&self) -> HeadView {
        HeadView { frame: view_of(self.frame), step: self.step as int, category: self.category as int }
    }
}

/// Whether every component can be sampled as it is.
fn all_sampled_well(data: &Vec<u8>, at: usize, parts: u8) -> (r: bool)
    requires
        at + 8 + 3 * parts <= data.len(),
        parts > 0,
    ensures
        r == forall|i: int| 0 <= i < parts ==> #[trigger] sampled_well(data@, at as int, i),
{
    let across0: u8 = data[at + 9] / 16;
    let down0: u8 = data[at + 9] % 16;
    let mut i: usize = 0;
    while i < parts as usize
        invariant
            i <= parts,
            at + 8 + 3 * parts <= data.len(),
            parts > 0,
            across0 == across(data@, at as int, 0),
            down0 == down(data@, at as int, 0),
            forall|j: int| 0 <= j < i ==> #[trigger] sampled_well(data@, at as int, j),
        decreases parts - i,
    {
        let b: u8 = data[at + 9 + 3 * i];
        let a: u8 = b / 16;
        let d: u8 = b % 16;
        if a < 1 || a > across0 || across0 > 4 || d < 1 || d > down0 || down0 > 2 {
            assert(!sampled_well(data@, at as int, i as int));
            return false;
        }
        assert(sampled_well(data@, at as int, i as int));
        i = i + 1;
    }
    true
}

fn read_frame(data: &Vec<u8>, marker: u8, at: usize, end: usize) -> (r: Option<Frame>)
    requires
        at <= end <= data.len(),
    ensures
        view_of(r) == frame_of(data@, marker, at as int, end as int),
{
    if end - at < 8 {
        return None;
    }
    let parts: u8 = data[at + 7];
    if end - at != 8 + 3 * parts as usize || !(parts == 1 || parts == 3 || parts == 4) {
        return None;
    }
    let height = read16(data, at + 3);
    let width = read16(data, at + 5);
    if width < 1 || width > MAX_SIDE || height < 1 || height > MAX_SIDE {
        return None;
    }
    assert(width * height <= 0xffff * 0xffff) by (nonlinear_arith)
        requires
            width <= 0xffff,
            height <= 0xffff,
    ;
    if width as u64 * height as u64 > MAX_PIXELS || !all_sampled_well(data, at, parts) {
        return None;
    }
    if marker == 0xc2 && parts == 4 && data[at + 9] != 0x11 {
        return None;
    }
    let across0: u64 = (data[at + 9] / 16) as u64;
    let down0: u64 = (data[at + 9] % 16) as u64;
    assert(sampled_well(data@, at as int, 0));
    let wide: u64 = (width as u64 + 8 * across0 - 1) / (8 * across0);
    let tall: u64 = (height as u64 + 8 * down0 - 1) / (8 * down0);
    proof {
        assert(wide <= 70_000) by (nonlinear_arith)
            requires
                wide == (width + 8 * across0 - 1) / (8 * across0),
                width <= 0xffff,
                1 <= across0 <= 4,
        ;
        assert(tall <= 70_000) by (nonlinear_arith)
            requires
                tall == (height + 8 * down0 - 1) / (8 * down0),
                height <= 0xffff,
                1 <= down0 <= 2,
        ;
        assert(wide * across0 <= 70_000 * 4) by (nonlinear_arith)
            requires
                wide <= 70_000,
                across0 <= 4,
        ;
        assert(tall * down0 <= 70_000 * 2) by (nonlinear_arith)
            requires
                tall <= 70_000,
                down0 <= 2,
        ;
        assert((wide * across0) * (tall * down0) <= 280_000 * 140_000) by (nonlinear_arith)
            requires
                0 <= wide * across0 <= 280_000,
                0 <= tall * down0 <= 140_000,
        ;
    }
    Some(Frame { progressive: marker == 0xc2, parts, blocks: wide * across0 * (tall * down0) })
}

fn read_steps(data: &Vec<u8>, from: usize, end: usize, before: u32) -> (r: Option<u32>)
    requires
        from <= end <= data.len(),
        before <= 0xffff,
    ensures
        (match r {
            Some(n) => Some(n as int),
            None => None,
        }) == largest_step(data@, from as int, end as int, before as int),
        r matches Some(n) ==> n <= 0xffff,
{
    let mut at = from;
    let mut most = before;
    while at < end
        invariant
            at <= end <= data.len(),
            most <= 0xffff,
            largest_step(data@, at as int, end as int, most as int) == largest_step(
                data@,
                from as int,
                end as int,
                before as int,
            ),
        decreases end - at,
    {
        if data[at] < 16 && end - at >= 65 {
            let step = data[at + 1] as u32;
            if step > most {
                most = step;
            }
            at = at + 65;
        } else if data[at] >= 16 && data[at] < 32 && end - at >= 129 {
            let step = read16(data, at + 1);
            if step > most {
                most = step;
            }
            at = at + 129;
        } else {
            return None;
        }
    }
    Some(most)
}

fn sum_of_bytes(data: &Vec<u8>, from: usize, end: usize) -> (r: usize)
    requires
        from <= end <= data.len(),
        end - from <= 16,
    ensures
        r == sum_between(data@, from as int, end as int, 0),
{
    let mut at = from;
    let mut sum: usize = 0;
    while at < end
        invariant
            from <= at <= end <= data.len(),
            end - from <= 16,
            sum <= 255 * (at - from),
            sum_between(data@, at as int, end as int, sum as int) == sum_between(data@, from as int, end as int, 0),
        decreases end - at,
    {
        sum = sum + data[at] as usize;
        at = at + 1;
    }
    sum
}

fn largest_of_bytes(data: &Vec<u8>, from: usize, end: usize, before: u32) -> (r: u32)
    requires
        from <= end <= data.len(),
        before <= 0xffff,
    ensures
        r == largest_between(data@, from as int, end as int, before as int),
        r <= 0xffff,
{
    let mut at = from;
    let mut most = before;
    while at < end
        invariant
            at <= end <= data.len(),
            most <= 0xffff,
            largest_between(data@, at as int, end as int, most as int) == largest_between(
                data@,
                from as int,
                end as int,
                before as int,
            ),
        decreases end - at,
    {
        if data[at] as u32 > most {
            most = data[at] as u32;
        }
        at = at + 1;
    }
    most
}

fn read_categories(data: &Vec<u8>, from: usize, end: usize, before: u32) -> (r: Option<u32>)
    requires
        from <= end <= data.len(),
        before <= 0xffff,
    ensures
        (match r {
            Some(n) => Some(n as int),
            None => None,
        }) == largest_category(data@, from as int, end as int, before as int),
        r matches Some(n) ==> n <= 0xffff,
{
    let mut at = from;
    let mut most = before;
    while at < end
        invariant
            at <= end <= data.len(),
            most <= 0xffff,
            largest_category(data@, at as int, end as int, most as int) == largest_category(
                data@,
                from as int,
                end as int,
                before as int,
            ),
        decreases end - at,
    {
        if end - at < 17 {
            return None;
        }
        let count = sum_of_bytes(data, at + 1, at + 17);
        if count > end - (at + 17) {
            return None;
        }
        if data[at] < 16 {
            most = largest_of_bytes(data, at + 17, at + 17 + count, most);
        }
        at = at + 17 + count;
    }
    Some(most)
}

impl Head {
    spec fn in_range(self) -> bool {
        self.step <= 0xffff && self.category <= 0xffff
    }

    fn read_segment(self, data: &Vec<u8>, marker: u8, at: usize, end: usize) -> (r: Option<Head>)
        requires
            self.in_range(),
            at + 2 <= end <= data.len(),
        ensures
            view_of(r) == self@.with_segment(data@, marker, at as int, end as int),
            r matches Some(h) ==> h.in_range(),
    {
        if marker == 0xdb {
            match read_steps(data, at + 2, end, self.step) {
                Some(step) => Some(Head { step, ..self }),
                None => None,
            }
        } else if marker == 0xc4 {
            match read_categories(data, at + 2, end, self.category) {
                Some(category) => Some(Head { category, ..self }),
                None => None,
            }
        } else if marker >= 0xc0 && marker <= 0xc2 {
            if self.frame.is_some() {
                None
            } else {
                match read_frame(data, marker, at, end) {
                    Some(f) => Some(Head { frame: Some(f), ..self }),
                    None => None,
                }
            }
        } else if marker == 0xee && self.frame.is_some() {
            None
        } else {
            Some(self)
        }
    }
}

fn read_head(data: &Vec<u8>) -> (r: Option<(Head, usize)>)
    ensures
        match r {
            Some((head, at)) => head_of(data@) == Some((head@, at as int)) && head.in_range() && at + 2 <= data.len(),
            None => head_of(data@) is None,
        },
{
    let mut at: usize = 2;
    let mut head = Head { frame: None, step: 0, category: 0 };
    while at < data.len()
        invariant
            head.in_range(),
            at >= 2,
            head_from(data@, at as int, head@) == head_of(data@),
        decreases data.len() - at,
    {
        if data.len() - at < 4 || data[at] != 0xff || data[at + 1] == 0 {
            return None;
        }
        let marker: u8 = data[at + 1];
        if marker == 0xff {
            at = at + 1;
        } else if marker == 0xda {
            return Some((head, at + 2));
        } else {
            let length = read16(data, at + 2) as usize;
            if length < 2 || length > data.len() - (at + 2) {
                return None;
            }
            let end = at + 2 + length;
            match head.read_segment(data, marker, at + 2, end) {
                Some(h) => {
                    head = h;
                },
                None => {
                    return None;
                },
            }
            at = end;
        }
    }
    None
}

// ---- JPEG: the scan --------------------------------------------------------

/// Whether a marker opens a segment that may stand between two scans.
pub open spec fn joins_scans(marker: u8) -> bool {
    marker == 0xc4 || marker == 0xdb || marker == 0xdd || marker == 0xfe || 0xe0 <= marker <= 0xe2 || marker == 0xed || marker
        == 0xee
}

/// Whether what is scanned from this place on ends with the file, or with a
/// marker that leads to no other scan.
pub open spec fn ends_alone(data: Seq<u8>, at: int) -> bool
    decreases data.len() - at,
{
    if at + 1 >= data.len() {
        true
    } else if data[at] != 0xff || data[at + 1] == 0xff {
        ends_alone(data, at + 1)
    } else if data[at + 1] == 0 || 0xd0 <= data[at + 1] <= 0xd7 {
        ends_alone(data, at + 2)
    } else {
        !joins_scans(data[at + 1])
    }
}

/// Whether a JPEG file can be handed to its decoder: its header can be followed
/// to the first scan, and unless the picture gets sharper from scan to scan, that
/// scan is the only one, holds every component, and no brightness in it can grow
/// beyond 32 bits.
pub open spec fn jpeg_fits(data: Seq<u8>) -> bool {
    &&& data.len() <= MAX_BYTES
    &&& head_of(data) matches Some((head, at))
    &&& head.frame matches Some(f)
    &&& f.progressive || {
        &&& at + 3 <= data.len()
        &&& data[at + 2] == f.parts
        &&& head.category <= MAX_CATEGORY
        &&& f.blocks * head.step <= MAX_REACH
        &&& ends_alone(data, at + be16(data, at))
    }
}

fn is_alone(data: &Vec<u8>, from: usize) -> (r: bool)
    ensures
        r == ends_alone(data@, from as int),
{
    let mut at = from;
    while at < data.len() && data.len() - at >= 2
        invariant
            ends_alone(data@, at as int) == ends_alone(data@, from as int),
        decreases data.len() - at,
    {
        let next: u8 = data[at + 1];
        if data[at] != 0xff || next == 0xff {
            at = at + 1;
        } else if next == 0 || (next >= 0xd0 && next <= 0xd7) {
            at = at + 2;
        } else {
            return !(next == 0xc4 || next == 0xdb || next == 0xdd || next == 0xfe || (next >= 0xe0 && next <= 0xe2) || next
                == 0xed || next == 0xee);
        }
    }
    true
}

/// Whether the blocks times the step stay within reach.
fn reaches(blocks: u64, step: u32) -> (r: bool)
    ensures
        r == (blocks * step <= MAX_REACH),
{
    if step == 0 {
        return true;
    }
    let limit: u64 = MAX_REACH / step as u64;
    proof {
        assert(blocks <= limit <==> blocks * step <= MAX_REACH) by (nonlinear_arith)
            requires
                limit == MAX_REACH / step as u64,
                step > 0,
        ;
    }
    blocks <= limit
}

fn check_jpeg(data: &Vec<u8>) -> (r: bool)
    ensures
        r == jpeg_fits(data@),
{
    if data.len() as u64 > MAX_BYTES {
        return false;
    }
    match read_head(data) {
        Some((head, at)) => match &head.frame {
            Some(f) => {
                if f.progressive {
                    return true;
                }
                if data.len() - at < 3 || data[at + 2] != f.parts || head.category > MAX_CATEGORY {
                    return false;
                }
                if !reaches(f.blocks, head.step) {
                    return false;
                }
                let length = read16(data, at) as usize;
                length >= data.len() - at || is_alone(data, at + length)
            },
            None => false,
        },
        None => false,
    }
}

/// A brightness that changes from block to block by no more than the largest
/// category allows, 2047 steps, fits in 32 bits, with room for what rounding adds.
pub proof fn brightness_fits(blocks: nat, step: nat, brightness: int)
    requires
        blocks * step <= MAX_REACH,
        -(blocks * 2047) <= brightness <= blocks * 2047,
    ensures
        i32::MIN <= brightness * step,
        brightness * step + 4 + 1024 <= i32::MAX,
{
    assert(-(2047 * (blocks * step)) <= brightness * step <= 2047 * (blocks * step)) by (nonlinear_arith)
        requires
            -(blocks * 2047) <= brightness <= blocks * 2047,
            step >= 0,
    ;
}

// ---- PNG -------------------------------------------------------------------

/// Whether the chunks from this place on, up to the image data, hold no palette
/// whose colours are cut short.
pub open spec fn palette_whole(data: Seq<u8>, at: int) -> bool
    decreases data.len() - at,
{
    if at < 0 || at + 8 > data.len() || stands_at(data, at + 4, seq![0x49u8, 0x44, 0x41, 0x54]) {
        true
    } else if stands_at(data, at + 4, seq![0x50u8, 0x4c, 0x54, 0x45]) && be32(data, at) % 3 != 0 {
        false
    } else {
        let next = at + 12 + be32(data, at);
        next > data.len() || palette_whole(data, next)
    }
}

/// Whether a PNG file can be handed to its decoder.
pub open spec fn png_fits(data: Seq<u8>) -> bool {
    &&& data.len() >= 24 ==> be32(data, 16) * be32(data, 20) <= MAX_PIXELS
    &&& palette_whole(data, 8)
}

fn check_palette(data: &Vec<u8>, from: usize) -> (r: bool)
    ensures
        r == palette_whole(data@, from as int),
{
    let mut at = from;
    while at < data.len() && data.len() - at >= 8
        invariant
            palette_whole(data@, at as int) == palette_whole(data@, from as int),
        decreases data.len() - at,
    {
        if has_bytes(data, at + 4, &[0x49, 0x44, 0x41, 0x54]) {
            return true;
        }
        let length = read32(data, at);
        if has_bytes(data, at + 4, &[0x50, 0x4c, 0x54, 0x45]) && length % 3 != 0 {
            return false;
        }
        let left: u64 = (data.len() - at) as u64;
        if left < 12 || length > left - 12 {
            return true;
        }
        at = at + 12 + length as usize;
    }
    true
}

fn check_png(data: &Vec<u8>) -> (r: bool)
    ensures
        r == png_fits(data@),
{
    if data.len() >= 24 {
        let width = read32(data, 16);
        let height = read32(data, 20);
        if height != 0 {
            let limit: u64 = MAX_PIXELS / height;
            proof {
                assert(width <= limit <==> width * height <= MAX_PIXELS) by (nonlinear_arith)
                    requires
                        limit == MAX_PIXELS / height,
                        height > 0,
                ;
            }
            if width > limit {
                return false;
            }
        } else {
            assert(width * height == 0) by (nonlinear_arith)
                requires
                    height == 0,
            ;
        }
    }
    check_palette(data, 8)
}

// ---- both ------------------------------------------------------------------

/// Whether a file begins as JPEG files do.
pub open spec fn is_jpeg(data: Seq<u8>) -> bool {
    stands_at(data, 0, seq![0xffu8, 0xd8, 0xff])
}

/// Whether a file begins as PNG files do.
pub open spec fn is_png(data: Seq<u8>) -> bool {
    stands_at(data, 0, seq![0x89u8, 0x50, 0x4e, 0x47, 0x0d, 0x0a, 0x1a, 0x0a])
}

/// Whether a file can be handed to the decoders. They turn down every file that
/// is neither JPEG nor PNG.
pub open spec fn decodable(data: Seq<u8>) -> bool {
    &&& is_jpeg(data) ==> jpeg_fits(data)
    &&& is_png(data) ==> png_fits(data)
}

/// Whether a file can be handed to the decoders.
pub fn is_decodable(data: &Vec<u8>) -> (r: bool)
    ensures
        r == decodable(data@),
{
    if has_bytes(data, 0, &[0xff, 0xd8, 0xff]) {
        if !check_jpeg(data) {
            return false;
        }
    }
    if has_bytes(data, 0, &[0x89, 0x50, 0x4e, 0x47, 0x0d, 0x0a, 0x1a, 0x0a]) {
        if !check_png(data) {
            return false;
        }
    }
    true
}

/// A number in bytes is read with the highest one first.
pub proof fn numbers_are_read_high_first(data: Seq<u8>, at: int)
    ensures
        be16(data, at) == 0x100 * data[at] + data[at + 1],
        be32(data, at) == 0x100_0000 * data[at] + 0x1_0000 * data[at + 1] + 0x100 * data[at + 2] + data[at + 3],
{
}

/// Whatever begins neither as a JPEG nor as a PNG file can be handed to the
/// decoders; a PNG file of too many pixels cannot, nor can a JPEG file that is too
/// long.
pub proof fn what_decoders_are_spared(data: Seq<u8>)
    ensures
        data.len() < 3 ==> decodable(data),
        data.len() > 0 && data[0] != 0xff && data[0] != 0x89 ==> decodable(data),
        is_png(data) && data.len() >= 24 && be32(data, 16) * be32(data, 20) > 67_108_864 ==> !decodable(data),
        is_jpeg(data) && data.len() > 0x7fff_ffff ==> !decodable(data),
{
    if is_jpeg(data) {
        assert(data.subrange(0, 3)[0] == data[0]);
    }
    if is_png(data) {
        assert(data.subrange(0, 8)[0] == data[0]);
    }
}

} // verus!
