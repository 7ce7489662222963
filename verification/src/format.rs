//! The binary frame-stream format: a four-byte magic tag selecting the
//! schema, a little-endian header, then frame records (a 64-bit microsecond
//! timestamp followed by one raw payload) repeated to the end of the input.
//! A trailing record whose payload is incomplete is dropped together with
//! its timestamp. The encoder writes the same layout and round-trips
//! through the parser.

use vstd::prelude::*;

use vstd::arithmetic::div_mod::lemma_fundamental_div_mod_converse_div;

verus! {

/// A 16-bit little-endian value stored at byte offset `i`.
pub open spec fn le16_at(s: Seq<u8>, i: int) -> int {
    s[i] + 0x100 * s[i + 1]
}

/// A 32-bit little-endian value stored at byte offset `i`.
pub open spec fn le32_at(s: Seq<u8>, i: int) -> int {
    s[i] + 0x100 * s[i + 1] + 0x1_0000 * s[i + 2] + 0x100_0000 * s[i + 3]
}

/// A 64-bit little-endian value stored at byte offset `i`.
pub open spec fn le64_at(s: Seq<u8>, i: int) -> int {
    s[i] + 0x100 * s[i + 1] + 0x1_0000 * s[i + 2] + 0x100_0000 * s[i + 3] + 0x1_0000_0000 * s[i + 4]
        + 0x100_0000_0000 * s[i + 5] + 0x1_0000_0000_0000 * s[i + 6] + 0x100_0000_0000_0000 * s[i
        + 7]
}

fn read_u16_le(data: &[u8], i: usize) -> (r: u16)
    requires
        i + 2 <= data@.len(),
    ensures
        r == le16_at(data@, i as int),
{
    let b0 = data[i] as u16;
    let b1 = data[i + 1] as u16;
    b0 + 0x100 * b1
}

fn read_u32_le(data: &[u8], i: usize) -> (r: u32)
    requires
        i + 4 <= data@.len(),
    ensures
        r == le32_at(data@, i as int),
{
    let b0 = data[i] as u32;
    let b1 = data[i + 1] as u32;
    let b2 = data[i + 2] as u32;
    let b3 = data[i + 3] as u32;
    b0 + 0x100 * b1 + 0x1_0000 * b2 + 0x100_0000 * b3
}

fn read_u64_le(data: &[u8], i: usize) -> (r: u64)
    requires
        i + 8 <= data@.len(),
    ensures
        r == le64_at(data@, i as int),
{
    let b0 = data[i] as u64;
    let b1 = data[i + 1] as u64;
    let b2 = data[i + 2] as u64;
    let b3 = data[i + 3] as u64;
    let b4 = data[i + 4] as u64;
    let b5 = data[i + 5] as u64;
    let b6 = data[i + 6] as u64;
    let b7 = data[i + 7] as u64;
    b0 + 0x100 * b1 + 0x1_0000 * b2 + 0x100_0000 * b3 + 0x1_0000_0000 * b4 + 0x100_0000_0000 * b5
        + 0x1_0000_0000_0000 * b6 + 0x100_0000_0000_0000 * b7
}

/// Why loading a stream failed; both are fatal at startup.
#[derive(Clone, Copy, Debug, PartialEq, Eq, Structural)]
pub enum FormatError {
    /// The input does not begin with a recognized magic tag.
    BadMagic,
    /// The input ends before the header's fixed-size fields.
    TruncatedHeader,
}

/// How the header states the source zone count: the current schema stores
/// one count per screen edge, the legacy schema one combined count plus a
/// fixed rotation offset.
#[derive(Clone, Copy, Debug, PartialEq, Eq, Structural)]
pub enum ZoneLayout {
    Edges { top: u16, bottom: u16, left: u16, right: u16 },
    Combined { zones: u16, rotation: u16 },
}

/// The parsed header: the frame rate as raw single-precision bits (kept as
/// bits so validity is a plain integer-range test), the zone layout, and the
/// pixel format flag (RGBW stores four bytes per zone, RGB three).
#[derive(Clone, Copy, Debug, PartialEq, Eq, Structural)]
pub struct Header {
    pub fps_bits: u32,
    pub layout: ZoneLayout,
    pub rgbw: bool,
}

impl Header {
    /// Bytes stored per zone: 4 for RGBW, 3 for RGB.
    pub open spec fn bytes_per_zone_spec(self) -> int {
        if self.rgbw {
            4
        } else {
            3
        }
    }

    pub fn bytes_per_zone(&self) -> (r: usize)
        ensures
            r == self.bytes_per_zone_spec(),
    {
        if self.rgbw {
            4
        } else {
            3
        }
    }

    /// Total number of source zones described by the header.
    pub open spec fn source_zones_spec(self) -> int {
        match self.layout {
            ZoneLayout::Edges { top, bottom, left, right } => top + bottom + left + right,
            ZoneLayout::Combined { zones, .. } => zones as int,
        }
    }

    pub fn source_zones(&self) -> (r: usize)
        ensures
            r == self.source_zones_spec(),
    {
        match self.layout {
            ZoneLayout::Edges { top, bottom, left, right } => {
                top as usize + bottom as usize + left as usize + right as usize
            },
            ZoneLayout::Combined { zones, rotation: _ } => zones as usize,
        }
    }

    /// Payload bytes per frame record.
    pub open spec fn frame_size_spec(self) -> int {
        self.source_zones_spec() * self.bytes_per_zone_spec()
    }

    pub fn frame_size(&self) -> (r: usize)
        ensures
            r == self.frame_size_spec(),
    {
        self.source_zones() * self.bytes_per_zone()
    }

    /// Offset of the first frame record: 17 bytes for the per-edge schema,
    /// 13 for the legacy combined schema.
    pub open spec fn header_len_spec(self) -> int {
        match self.layout {
            ZoneLayout::Edges { .. } => 17,
            ZoneLayout::Combined { .. } => 13,
        }
    }

    pub fn header_len(&self) -> (r: usize)
        ensures
            r == self.header_len_spec(),
    {
        match self.layout {
            ZoneLayout::Edges { .. } => 17,
            ZoneLayout::Combined { .. } => 13,
        }
    }
}

/// Whether the stored frame rate is usable: as single-precision bits, the
/// value must be positive, finite and at most 300. Interpreted on the bit
/// patterns, that is exactly the range `(0, 0x4396_0000]`, since positive
/// IEEE-754 values order the same way as their bit patterns and
/// `0x4396_0000` is the pattern of 300.0.
pub open spec fn fps_bits_valid_spec(bits: u32) -> bool {
    0 < bits <= 0x4396_0000
}

pub fn fps_bits_valid(bits: u32) -> (r: bool)
    ensures
        r == fps_bits_valid_spec(bits),
{
    0 < bits && bits <= 0x4396_0000
}

/// The magic tag of the per-edge schema: the bytes of `AMb2`.
pub open spec fn edges_magic(s: Seq<u8>) -> bool {
    s.len() >= 4 && s[0] == 0x41u8 && s[1] == 0x4du8 && s[2] == 0x62u8 && s[3] == 0x32u8
}

/// The magic tag of the legacy combined schema: the bytes of `AMb1`.
pub open spec fn combined_magic(s: Seq<u8>) -> bool {
    s.len() >= 4 && s[0] == 0x41u8 && s[1] == 0x4du8 && s[2] == 0x62u8 && s[3] == 0x31u8
}

/// What parsing the header of `s` yields: the magic selects the schema, the
/// fields follow little-endian, and an input shorter than the schema's
/// header is rejected as truncated.
pub open spec fn parse_header_spec(s: Seq<u8>) -> Result<Header, FormatError> {
    if s.len() < 4 {
        Err(FormatError::TruncatedHeader)
    } else if edges_magic(s) {
        if s.len() < 17 {
            Err(FormatError::TruncatedHeader)
        } else {
            Ok(
                Header {
                    fps_bits: le32_at(s, 4) as u32,
                    layout: ZoneLayout::Edges {
                        top: le16_at(s, 8) as u16,
                        bottom: le16_at(s, 10) as u16,
                        left: le16_at(s, 12) as u16,
                        right: le16_at(s, 14) as u16,
                    },
                    rgbw: s[16] == 1,
                },
            )
        }
    } else if combined_magic(s) {
        if s.len() < 13 {
            Err(FormatError::TruncatedHeader)
        } else {
            Ok(
                Header {
                    fps_bits: le32_at(s, 4) as u32,
                    layout: ZoneLayout::Combined {
                        zones: le16_at(s, 8) as u16,
                        rotation: le16_at(s, 10) as u16,
                    },
                    rgbw: s[12] == 1,
                },
            )
        }
    } else {
        Err(FormatError::BadMagic)
    }
}

/// Parse the header at the start of `data`.
pub fn parse_header(data: &[u8]) -> (r: Result<Header, FormatError>)
    ensures
        r == parse_header_spec(data@),
{
    if data.len() < 4 {
        return Err(FormatError::TruncatedHeader);
    }
    let m0 = data[0];
    let m1 = data[1];
    let m2 = data[2];
    let m3 = data[3];
    if m0 == 0x41 && m1 == 0x4d && m2 == 0x62 && m3 == 0x32 {
        if data.len() < 17 {
            return Err(FormatError::TruncatedHeader);
        }
        let fps_bits = read_u32_le(data, 4);
        let top = read_u16_le(data, 8);
        let bottom = read_u16_le(data, 10);
        let left = read_u16_le(data, 12);
        let right = read_u16_le(data, 14);
        let rgbw = data[16] == 1;
        Ok(Header { fps_bits, layout: ZoneLayout::Edges { top, bottom, left, right }, rgbw })
    } else if m0 == 0x41 && m1 == 0x4d && m2 == 0x62 && m3 == 0x31 {
        if data.len() < 13 {
            return Err(FormatError::TruncatedHeader);
        }
        let fps_bits = read_u32_le(data, 4);
        let zones = read_u16_le(data, 8);
        let rotation = read_u16_le(data, 10);
        let rgbw = data[12] == 1;
        Ok(Header { fps_bits, layout: ZoneLayout::Combined { zones, rotation }, rgbw })
    } else {
        Err(FormatError::BadMagic)
    }
}

/// Number of complete records stored after offset `start`: each record is 8
/// timestamp bytes plus `frame_size` payload bytes; leftover bytes at the
/// end form an incomplete record and do not count.
pub open spec fn frame_count(s: Seq<u8>, start: int, frame_size: int) -> int {
    (s.len() - start) / (8 + frame_size)
}

/// The loaded timestamps, one per complete record, in file order.
pub open spec fn timestamps_spec(s: Seq<u8>, start: int, frame_size: int) -> Seq<u64> {
    Seq::new(
        frame_count(s, start, frame_size) as nat,
        |i: int| le64_at(s, start + i * (8 + frame_size)) as u64,
    )
}

/// The loaded payloads, one per complete record, in file order.
pub open spec fn frames_spec(s: Seq<u8>, start: int, frame_size: int) -> Seq<Seq<u8>> {
    Seq::new(
        frame_count(s, start, frame_size) as nat,
        |i: int|
            s.subrange(
                start + i * (8 + frame_size) + 8,
                start + i * (8 + frame_size) + 8 + frame_size,
            ),
    )
}

/// Read every complete `(timestamp, payload)` record beginning at `start`;
/// an incomplete trailing record is discarded, timestamp included.
#[verifier::loop_isolation(false)]
pub fn load_frames(data: &[u8], start: usize, frame_size: usize) -> (r: (Vec<u64>, Vec<Vec<u8>>))
    requires
        start <= data@.len(),
        frame_size + 8 <= usize::MAX,
    ensures
        r.0@ == timestamps_spec(data@, start as int, frame_size as int),
        r.1@.len() == frame_count(data@, start as int, frame_size as int),
        forall|i: int|
            0 <= i < r.1@.len() ==> (#[trigger] r.1@[i])@ == frames_spec(
                data@,
                start as int,
                frame_size as int,
            )[i],
        forall|i: int| 0 <= i < r.1@.len() ==> (#[trigger] r.1@[i])@.len() == frame_size,
{
    let ghost gstart = start as int;
    let ghost gf = frame_size as int;
    let ghost rec = 8 + gf;
    let data_len = data.len();
    let record_size = 8 + frame_size;
    let mut timestamps: Vec<u64> = Vec::new();
    let mut frames: Vec<Vec<u8>> = Vec::new();
    let mut pos = start;
    while data_len - pos >= record_size
        invariant
            start <= pos <= data_len,
            data_len == data@.len(),
            timestamps@.len() == frames@.len(),
            pos == gstart + timestamps@.len() * rec,
            forall|i: int|
                0 <= i < timestamps@.len() ==> #[trigger] timestamps@[i] == le64_at(
                    data@,
                    gstart + i * rec,
                ) as u64,
            forall|i: int|
                0 <= i < frames@.len() ==> #[trigger] frames@[i]@ == data@.subrange(
                    gstart + i * rec + 8,
                    gstart + i * rec + 8 + gf,
                ),
            forall|i: int| 0 <= i < frames@.len() ==> (#[trigger] frames@[i])@.len() == gf,
        decreases data_len - pos,
    {
        let ghost n_prev = timestamps@.len() as int;
        let ts = read_u64_le(data, pos);
        let mut payload: Vec<u8> = Vec::new();
        let mut k: usize = 0;
        while k < frame_size
            invariant
                0 <= k <= frame_size,
                pos + record_size <= data_len,
                payload@.len() == k,
                forall|j: int| 0 <= j < k ==> #[trigger] payload@[j] == data@[pos + 8 + j],
            decreases frame_size - k,
        {
            let byte = data[pos + 8 + k];
            payload.push(byte);
            k = k + 1;
        }
        proof {
            assert(payload@ =~= data@.subrange(gstart + n_prev * rec + 8, gstart + n_prev * rec + 8 + gf));
            vstd::arithmetic::mul::lemma_mul_is_distributive_add_other_way(rec, n_prev, 1);
        }
        timestamps.push(ts);
        frames.push(payload);
        pos = pos + record_size;
    }
    proof {
        let n = timestamps@.len() as int;
        assert(data_len - pos < rec);
        lemma_fundamental_div_mod_converse_div(
            data@.len() - gstart,
            rec,
            n,
            data@.len() - gstart - n * rec,
        );
        assert(n == frame_count(data@, gstart, gf));
        assert(timestamps@ =~= timestamps_spec(data@, gstart, gf));
    }
    (timestamps, frames)
}


/// Append the two little-endian bytes of `x`.
fn push_u16_le(out: &mut Vec<u8>, x: u16)
    ensures
        final(out)@.len() == old(out)@.len() + 2,
        forall|j: int| 0 <= j < old(out)@.len() ==> final(out)@[j] == old(out)@[j],
        le16_at(final(out)@, old(out)@.len() as int) == x,
{
    proof {
        assert(x == (x % 0x100) + 0x100 * (x / 0x100) && x / 0x100 < 0x100) by (bit_vector);
    }
    let lo = (x % 0x100) as u8;
    let hi = (x / 0x100) as u8;
    out.push(lo);
    out.push(hi);
}

/// Append the four little-endian bytes of `x`.
fn push_u32_le(out: &mut Vec<u8>, x: u32)
    ensures
        final(out)@.len() == old(out)@.len() + 4,
        forall|j: int| 0 <= j < old(out)@.len() ==> final(out)@[j] == old(out)@[j],
        le32_at(final(out)@, old(out)@.len() as int) == x,
{
    proof {
        assert(x == (x % 0x100) + 0x100 * ((x / 0x100) % 0x100) + 0x1_0000 * ((x / 0x1_0000)
            % 0x100) + 0x100_0000 * (x / 0x100_0000) && (x / 0x100) % 0x100 < 0x100 && (x
            / 0x1_0000) % 0x100 < 0x100 && x / 0x100_0000 < 0x100) by (bit_vector);
    }
    let b0 = (x % 0x100) as u8;
    let b1 = ((x / 0x100) % 0x100) as u8;
    let b2 = ((x / 0x1_0000) % 0x100) as u8;
    let b3 = (x / 0x100_0000) as u8;
    out.push(b0);
    out.push(b1);
    out.push(b2);
    out.push(b3);
}

/// Append the eight little-endian bytes of `x`.
fn push_u64_le(out: &mut Vec<u8>, x: u64)
    ensures
        final(out)@.len() == old(out)@.len() + 8,
        forall|j: int| 0 <= j < old(out)@.len() ==> final(out)@[j] == old(out)@[j],
        le64_at(final(out)@, old(out)@.len() as int) == x,
{
    proof {
        assert(x == (x % 0x100) + 0x100 * ((x / 0x100) % 0x100) + 0x1_0000 * ((x / 0x1_0000)
            % 0x100) + 0x100_0000 * ((x / 0x100_0000) % 0x100) + 0x1_0000_0000 * ((x
            / 0x1_0000_0000) % 0x100) + 0x100_0000_0000 * ((x / 0x100_0000_0000) % 0x100)
            + 0x1_0000_0000_0000 * ((x / 0x1_0000_0000_0000) % 0x100) + 0x100_0000_0000_0000 * (x
            / 0x100_0000_0000_0000) && (x / 0x100) % 0x100 < 0x100 && (x / 0x1_0000) % 0x100
            < 0x100 && (x / 0x100_0000) % 0x100 < 0x100 && (x / 0x1_0000_0000) % 0x100 < 0x100 && (
        x / 0x100_0000_0000) % 0x100 < 0x100 && (x / 0x1_0000_0000_0000) % 0x100 < 0x100 && x
            / 0x100_0000_0000_0000 < 0x100) by (bit_vector);
    }
    let b0 = (x % 0x100) as u8;
    let b1 = ((x / 0x100) % 0x100) as u8;
    let b2 = ((x / 0x1_0000) % 0x100) as u8;
    let b3 = ((x / 0x100_0000) % 0x100) as u8;
    let b4 = ((x / 0x1_0000_0000) % 0x100) as u8;
    let b5 = ((x / 0x100_0000_0000) % 0x100) as u8;
    let b6 = ((x / 0x1_0000_0000_0000) % 0x100) as u8;
    let b7 = (x / 0x100_0000_0000_0000) as u8;
    out.push(b0);
    out.push(b1);
    out.push(b2);
    out.push(b3);
    out.push(b4);
    out.push(b5);
    out.push(b6);
    out.push(b7);
}

/// Write a header in the layout the parser reads: parsing the result gives
/// back exactly the same header.
pub fn encode_header(h: &Header) -> (out: Vec<u8>)
    ensures
        out@.len() == h.header_len_spec(),
        parse_header_spec(out@) == Ok::<Header, FormatError>(*h),
{
    let mut out: Vec<u8> = Vec::new();
    out.push(0x41);
    out.push(0x4d);
    out.push(0x62);
    match h.layout {
        ZoneLayout::Edges { .. } => out.push(0x32),
        ZoneLayout::Combined { .. } => out.push(0x31),
    }
    push_u32_le(&mut out, h.fps_bits);
    match h.layout {
        ZoneLayout::Edges { top, bottom, left, right } => {
            push_u16_le(&mut out, top);
            push_u16_le(&mut out, bottom);
            push_u16_le(&mut out, left);
            push_u16_le(&mut out, right);
        },
        ZoneLayout::Combined { zones, rotation } => {
            push_u16_le(&mut out, zones);
            push_u16_le(&mut out, rotation);
        },
    }
    out.push(
        if h.rgbw {
            1
        } else {
            0
        },
    );
    proof {
        match h.layout {
            ZoneLayout::Edges { top, bottom, left, right } => {
                assert(edges_magic(out@));
                assert(le32_at(out@, 4) == h.fps_bits);
                assert(le16_at(out@, 8) == top);
                assert(le16_at(out@, 10) == bottom);
                assert(le16_at(out@, 12) == left);
                assert(le16_at(out@, 14) == right);
                assert(out@[16] == if h.rgbw { 1u8 } else { 0u8 });
            },
            ZoneLayout::Combined { zones, rotation } => {
                assert(combined_magic(out@));
                assert(le32_at(out@, 4) == h.fps_bits);
                assert(le16_at(out@, 8) == zones);
                assert(le16_at(out@, 10) == rotation);
                assert(out@[12] == if h.rgbw { 1u8 } else { 0u8 });
            },
        }
    }
    out
}

/// Write one frame record: the timestamp's eight little-endian bytes, then
/// the payload verbatim.
#[verifier::loop_isolation(false)]
#[verifier::rlimit(30)]
pub fn encode_record(ts: u64, payload: &[u8]) -> (out: Vec<u8>)
    ensures
        out@.len() == 8 + payload@.len(),
        le64_at(out@, 0) == ts,
        out@.subrange(8, out@.len() as int) == payload@,
{
    let mut out: Vec<u8> = Vec::new();
    push_u64_le(&mut out, ts);
    let mut k: usize = 0;
    while k < payload.len()
        invariant
            0 <= k <= payload@.len(),
            out@.len() == 8 + k,
            le64_at(out@, 0) == ts,
            forall|j: int| 0 <= j < k ==> #[trigger] out@[8 + j] == payload@[j],
        decreases payload@.len() - k,
    {
        let byte = payload[k];
        out.push(byte);
        k = k + 1;
    }
    proof {
        assert forall|j: int| 0 <= j < payload@.len() implies out@.subrange(
            8,
            out@.len() as int,
        )[j] == payload@[j] by {
            assert(out@[8 + j] == payload@[j]);
        }
        assert(out@.subrange(8, out@.len() as int) =~= payload@);
    }
    out
}

/// A stream loaded into memory: the header and, per complete record, its
/// timestamp and raw payload. Immutable once loaded.
#[derive(Debug, PartialEq, Eq)]
pub struct LoadedStream {
    pub header: Header,
    pub timestamps: Vec<u64>,
    pub frames: Vec<Vec<u8>>,
}

impl LoadedStream {
    /// Every loaded frame set pairs each timestamp with one payload, and
    /// every payload has exactly the frame size the header declares.
    pub open spec fn wf(self) -> bool {
        &&& self.timestamps@.len() == self.frames@.len()
        &&& forall|i: int|
            0 <= i < self.frames@.len() ==> (#[trigger] self.frames@[i])@.len()
                == self.header.frame_size_spec()
    }
}

/// Load a whole stream: parse the header, then collect every complete
/// record. Fails exactly when the header does (bad magic or truncation);
/// the record section never fails, an incomplete trailing record is
/// silently dropped.
pub fn load(data: &[u8]) -> (r: Result<LoadedStream, FormatError>)
    ensures
        r matches Err(e) ==> parse_header_spec(data@) == Err::<Header, FormatError>(e),
        parse_header_spec(data@) matches Err(e) ==> r matches Err(e2) && e == e2,
        r matches Ok(ls) ==> {
            &&& parse_header_spec(data@) matches Ok(h) && ls.header == h
            &&& ls.wf()
            &&& ls.timestamps@ == timestamps_spec(
                data@,
                ls.header.header_len_spec(),
                ls.header.frame_size_spec(),
            )
            &&& ls.frames@.len() == frame_count(
                data@,
                ls.header.header_len_spec(),
                ls.header.frame_size_spec(),
            )
            &&& forall|i: int|
                0 <= i < ls.frames@.len() ==> (#[trigger] ls.frames@[i])@ == frames_spec(
                    data@,
                    ls.header.header_len_spec(),
                    ls.header.frame_size_spec(),
                )[i]
        },
{
    let header = match parse_header(data) {
        Ok(h) => h,
        Err(e) => {
            return Err(e);
        },
    };
    let start = header.header_len();
    let frame_size = header.frame_size();
    let (timestamps, frames) = load_frames(data, start, frame_size);
    Ok(LoadedStream { header, timestamps, frames })
}

} // verus!
