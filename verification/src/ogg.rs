//! Ogg pages and the Opus stream in them.
use vstd::prelude::*;

verus! {

// ---------------------------------------------------------------------------------------------
// Numbers
// ---------------------------------------------------------------------------------------------

/// The `n` lowest bytes of a number, lowest first.
pub open spec fn little_endian(value: nat, n: nat) -> Seq<u8>
    decreases n,
{
    if n == 0 {
        Seq::empty()
    } else {
        seq![(value % 256) as u8] + little_endian(value / 256, (n - 1) as nat)
    }
}

/// The number that bytes stand for, lowest first.
pub open spec fn little_endian_value(bytes: Seq<u8>) -> nat
    decreases bytes.len(),
{
    if bytes.len() == 0 {
        0
    } else {
        bytes[0] as nat + 256 * little_endian_value(bytes.skip(1))
    }
}

/// The largest number that `n` bytes can hold, plus one.
pub open spec fn byte_power(n: nat) -> nat
    decreases n,
{
    if n == 0 {
        1
    } else {
        256 * byte_power((n - 1) as nat)
    }
}

/// A number can be read back from its bytes, where they are enough for it.
pub proof fn little_endian_reads_back(value: nat, n: nat)
    requires
        value < byte_power(n),
    ensures
        little_endian(value, n).len() == n,
        little_endian_value(little_endian(value, n)) == value,
    decreases n,
{
    if n > 0 {
        little_endian_reads_back(value / 256, (n - 1) as nat);
        let bytes = little_endian(value, n);
        assert(bytes.skip(1) =~= little_endian(value / 256, (n - 1) as nat));
    }
}

proof fn lemma_little_endian_len(value: nat, n: nat)
    ensures
        little_endian(value, n).len() == n,
    decreases n,
{
    if n > 0 {
        lemma_little_endian_len(value / 256, (n - 1) as nat);
    }
}

fn push_bytes(out: &mut Vec<u8>, value: u64, n: u32)
    ensures
        final(out)@ == old(out)@ + little_endian(value as nat, n as nat),
{
    let mut rest: u64 = value;
    let mut left: u32 = n;
    assert(out@ + little_endian(rest as nat, left as nat) =~= old(out)@ + little_endian(
        value as nat,
        n as nat,
    ));
    while left > 0
        invariant
            out@ + little_endian(rest as nat, left as nat) == old(out)@ + little_endian(
                value as nat,
                n as nat,
            ),
        decreases left,
    {
        let ghost before = out@;
        let ghost tail = little_endian((rest / 256) as nat, (left - 1) as nat);
        out.push((rest % 256) as u8);
        assert(out@ + tail =~= before + (seq![(rest % 256) as u8] + tail));
        rest = rest / 256;
        left = left - 1;
    }
    assert(out@ + little_endian(rest as nat, 0) =~= out@);
}

// ---------------------------------------------------------------------------------------------
// Checksum
// ---------------------------------------------------------------------------------------------

/// One step of the division by the polynomial: a bit goes out at the top.
pub open spec fn crc_shift(r: u32) -> u32 {
    if r & 0x8000_0000 != 0 {
        (r << 1) ^ 0x04C1_1DB7
    } else {
        r << 1
    }
}

/// `n` steps of the division.
pub open spec fn crc_shifts(r: u32, n: nat) -> u32
    decreases n,
{
    if n == 0 {
        r
    } else {
        crc_shift(crc_shifts(r, (n - 1) as nat))
    }
}

/// The remainder after one more byte.
pub open spec fn crc_byte(crc: u32, b: u8) -> u32 {
    (crc << 8) ^ crc_shifts(((crc >> 24) ^ (b as u32)) << 24, 8)
}

/// The checksum of bytes: the remainder of their division by the polynomial `0x04C11DB7`, highest
/// bit first, from zero.
pub open spec fn checksum(bytes: Seq<u8>) -> u32
    decreases bytes.len(),
{
    if bytes.len() == 0 {
        0
    } else {
        crc_byte(checksum(bytes.drop_last()), bytes.last())
    }
}

fn next_crc(crc: u32, b: u8) -> (res: u32)
    ensures
        res == crc_byte(crc, b),
{
    let mut r: u32 = ((crc >> 24) ^ (b as u32)) << 24;
    let ghost start = r;
    let mut n: u32 = 0;
    while n < 8
        invariant
            n <= 8,
            r == crc_shifts(start, n as nat),
        decreases 8 - n,
    {
        r = if r & 0x8000_0000 != 0 {
            (r << 1) ^ 0x04C1_1DB7
        } else {
            r << 1
        };
        n = n + 1;
    }
    (crc << 8) ^ r
}

/// The checksum of a header and the data behind it.
pub fn ogg_crc32(header: &[u8], data: &[u8]) -> (res: u32)
    ensures
        res == checksum(header@ + data@),
{
    let ghost all = header@ + data@;
    let mut crc: u32 = 0;
    let mut i: usize = 0;
    assert(all.take(0) =~= Seq::<u8>::empty());
    while i < header.len()
        invariant
            i <= header@.len(),
            all == header@ + data@,
            crc == checksum(all.take(i as int)),
        decreases header@.len() - i,
    {
        assert(all.take(i + 1).drop_last() =~= all.take(i as int));
        crc = next_crc(crc, header[i]);
        i = i + 1;
    }
    let mut j: usize = 0;
    while j < data.len()
        invariant
            j <= data@.len(),
            all == header@ + data@,
            crc == checksum(all.take(header@.len() + j)),
        decreases data@.len() - j,
    {
        assert(all.take(header@.len() + j + 1).drop_last() =~= all.take(header@.len() + j));
        crc = next_crc(crc, data[j]);
        j = j + 1;
    }
    assert(all.take(header@.len() + j) =~= all);
    crc
}

// ---------------------------------------------------------------------------------------------
// Pages
// ---------------------------------------------------------------------------------------------

/// How a packet is cut up: full segments of 255 bytes, and a last shorter one that ends it.
pub open spec fn lacing(len: nat) -> Seq<u8>
    decreases len,
{
    if len < 255 {
        seq![len as u8]
    } else {
        seq![255u8] + lacing((len - 255) as nat)
    }
}

/// The sum of the segment lengths.
pub open spec fn lacing_sum(segments: Seq<u8>) -> nat
    decreases segments.len(),
{
    if segments.len() == 0 {
        0
    } else {
        segments[0] as nat + lacing_sum(segments.skip(1))
    }
}

/// The segments make up the packet, only the last is not full, and there are as many as it takes.
pub proof fn lacing_meaning(len: nat)
    ensures
        lacing(len).len() == len / 255 + 1,
        lacing_sum(lacing(len)) == len,
        lacing(len).last() < 255,
        forall|i: int| 0 <= i < lacing(len).len() - 1 ==> lacing(len)[i] == 255,
    decreases len,
{
    let s = lacing(len);
    if len < 255 {
        assert(s.skip(1) =~= Seq::<u8>::empty());
        assert(lacing_sum(s.skip(1)) == 0);
    } else {
        let rest = (len - 255) as nat;
        lacing_meaning(rest);
        assert(s.skip(1) =~= lacing(rest));
        assert(s.last() == lacing(rest).last());
        assert forall|i: int| 0 <= i < s.len() - 1 implies s[i] == 255 by {
            if i > 0 {
                assert(s[i] == lacing(rest)[i - 1]);
            }
        }
    }
}

/// What the header of a page says.
#[derive(Debug)]
pub struct PageHeader {
    pub header_type: u8,
    pub granule_position: u64,
    pub serial: u32,
    pub page_seq: u32,
}

/// The bytes of a page before its data, with the given checksum.
pub open spec fn header_bytes(h: PageHeader, crc: u32, data_len: nat) -> Seq<u8> {
    seq![0x4fu8, 0x67u8, 0x67u8, 0x53u8, 0u8, h.header_type] + little_endian(
        h.granule_position as nat,
        8,
    ) + little_endian(h.serial as nat, 4) + little_endian(h.page_seq as nat, 4) + little_endian(
        crc as nat,
        4,
    ) + seq![(lacing(data_len).len() % 256) as u8] + lacing(data_len)
}

/// The bytes of a page. The checksum is taken over the page with zero in its place.
pub open spec fn page_bytes(h: PageHeader, data: Seq<u8>) -> Seq<u8> {
    header_bytes(h, checksum(header_bytes(h, 0, data.len()) + data), data.len()) + data
}

fn push_lacing(out: &mut Vec<u8>, len: usize)
    ensures
        final(out)@ == old(out)@ + lacing(len as nat),
{
    let mut rest: usize = len;
    while rest >= 255
        invariant
            out@ + lacing(rest as nat) == old(out)@ + lacing(len as nat),
        decreases rest,
    {
        let ghost before = out@;
        let ghost tail = lacing((rest - 255) as nat);
        out.push(255u8);
        assert(out@ + tail =~= before + (seq![255u8] + tail));
        rest = rest - 255;
    }
    let ghost before = out@;
    out.push(rest as u8);
    assert(out@ =~= before + lacing(rest as nat));
}

fn push_header(out: &mut Vec<u8>, h: &PageHeader, crc: u32, data_len: usize)
    ensures
        final(out)@ == old(out)@ + header_bytes(*h, crc, data_len as nat),
{
    let ghost before = out@;
    out.push(0x4fu8);
    out.push(0x67u8);
    out.push(0x67u8);
    out.push(0x53u8);
    out.push(0u8);
    out.push(h.header_type);
    push_bytes(out, h.granule_position, 8);
    push_bytes(out, h.serial as u64, 4);
    push_bytes(out, h.page_seq as u64, 4);
    push_bytes(out, crc as u64, 4);
    proof {
        lacing_meaning(data_len as nat);
    }
    out.push(((data_len / 255 + 1) % 256) as u8);
    push_lacing(out, data_len);
    assert(out@ =~= before + header_bytes(*h, crc, data_len as nat));
}

/// The bytes of a page.
pub fn ogg_page(h: &PageHeader, data: &[u8]) -> (res: Vec<u8>)
    ensures
        res@ == page_bytes(*h, data@),
{
    let mut blank: Vec<u8> = Vec::new();
    push_header(&mut blank, h, 0, data.len());
    assert(blank@ =~= header_bytes(*h, 0, data@.len()));
    let crc: u32 = ogg_crc32(blank.as_slice(), data);
    let mut out: Vec<u8> = Vec::new();
    push_header(&mut out, h, crc, data.len());
    assert(out@ =~= header_bytes(*h, crc, data@.len()));
    out.extend_from_slice(data);
    assert(out@ =~= page_bytes(*h, data@));
    out
}

proof fn lemma_header_len(h: PageHeader, crc: u32, data_len: nat)
    ensures
        header_bytes(h, crc, data_len).len() == 27 + lacing(data_len).len(),
{
    lemma_little_endian_len(h.granule_position as nat, 8);
    lemma_little_endian_len(h.serial as nat, 4);
    lemma_little_endian_len(h.page_seq as nat, 4);
    lemma_little_endian_len(crc as nat, 4);
}

/// The length of a page.
pub proof fn page_length(h: PageHeader, data: Seq<u8>)
    ensures
        page_bytes(h, data).len() == 28 + data.len() / 255 + data.len(),
{
    lacing_meaning(data.len());
    lemma_header_len(h, checksum(header_bytes(h, 0, data.len()) + data), data.len());
}

/// The packet in a page: what lies behind the header and the number of segments that it gives.
pub open spec fn packet_of(page: Seq<u8>) -> Seq<u8> {
    page.skip(27 + page[26] as int)
}

/// The packet can be read back from its page, where the number of its segments fits in the header;
/// the segment lengths in the page add up to its length.
pub proof fn packet_reads_back(h: PageHeader, data: Seq<u8>)
    requires
        data.len() < 255 * 255,
    ensures
        packet_of(page_bytes(h, data)) == data,
        ({
            let page = page_bytes(h, data);
            lacing_sum(page.subrange(27, 27 + page[26])) == data.len()
        }),
{
    let page = page_bytes(h, data);
    let crc = checksum(header_bytes(h, 0, data.len()) + data);
    let segments = lacing(data.len());
    lacing_meaning(data.len());
    lemma_header_len(h, crc, data.len());
    lemma_little_endian_len(h.granule_position as nat, 8);
    lemma_little_endian_len(h.serial as nat, 4);
    lemma_little_endian_len(h.page_seq as nat, 4);
    lemma_little_endian_len(crc as nat, 4);
    assert(page[26] == segments.len());
    assert(page.subrange(27, 27 + page[26]) =~= segments);
    assert(packet_of(page) =~= data);
}

/// The position, the serial number and the sequence number can be read back from the page.
pub proof fn header_reads_back(h: PageHeader, data: Seq<u8>)
    ensures
        ({
            let page = page_bytes(h, data);
            &&& page[5] == h.header_type
            &&& little_endian_value(page.subrange(6, 14)) == h.granule_position
            &&& little_endian_value(page.subrange(14, 18)) == h.serial
            &&& little_endian_value(page.subrange(18, 22)) == h.page_seq
        }),
{
    let page = page_bytes(h, data);
    let crc = checksum(header_bytes(h, 0, data.len()) + data);
    lemma_header_len(h, crc, data.len());
    reveal_with_fuel(byte_power, 9);
    little_endian_reads_back(h.granule_position as nat, 8);
    little_endian_reads_back(h.serial as nat, 4);
    little_endian_reads_back(h.page_seq as nat, 4);
    lemma_little_endian_len(crc as nat, 4);
    assert(page.subrange(6, 14) =~= little_endian(h.granule_position as nat, 8));
    assert(page.subrange(14, 18) =~= little_endian(h.serial as nat, 4));
    assert(page.subrange(18, 22) =~= little_endian(h.page_seq as nat, 4));
}

// ---------------------------------------------------------------------------------------------
// The stream
// ---------------------------------------------------------------------------------------------

/// The identification header of an Opus stream.
pub open spec fn opus_head(sample_rate: u32, channels: u8) -> Seq<u8> {
    seq![0x4fu8, 0x70u8, 0x75u8, 0x73u8, 0x48u8, 0x65u8, 0x61u8, 0x64u8, 1u8, channels, 0u8, 0u8]
        + little_endian(sample_rate as nat, 4) + seq![0u8, 0u8, 0u8]
}

/// The comment header of an Opus stream: the vendor is `trx-rs`, and there are no comments.
pub open spec fn opus_tags() -> Seq<u8> {
    seq![
        0x4fu8,
        0x70u8,
        0x75u8,
        0x73u8,
        0x54u8,
        0x61u8,
        0x67u8,
        0x73u8,
        6u8,
        0u8,
        0u8,
        0u8,
        0x74u8,
        0x72u8,
        0x78u8,
        0x2du8,
        0x72u8,
        0x73u8,
        0u8,
        0u8,
        0u8,
        0u8,
    ]
}

/// The parameters of an audio stream.
#[derive(Clone, Copy, Debug, PartialEq, Eq, Structural)]
pub struct AudioParams {
    pub sample_rate: u32,
    pub channels: u8,
    pub frame_duration_ms: u16,
}

/// An Opus stream that is being written, one packet to a page.
#[derive(Debug)]
pub struct OggOpusWriter {
    pub serial: u32,
    pub page_seq: u32,
    pub granule_pos: u64,
    pub samples_per_frame: u64,
    pub bytes_written: u64,
}

/// The serial number of a stream that is begun at a moment, in nanoseconds since the Unix epoch:
/// its 32 lowest bits.
pub fn stream_serial(nanos: u128) -> (res: u32)
    ensures
        res == nanos % 0x1_0000_0000,
{
    (nanos % 0x1_0000_0000) as u32
}

impl OggOpusWriter {
    /// The header of the next page.
    pub open spec fn next_header(&self, header_type: u8, granule_position: u64) -> PageHeader {
        PageHeader { header_type, granule_position, serial: self.serial, page_seq: self.page_seq }
    }

    /// The same stream with one page more.
    pub open spec fn turned(&self) -> OggOpusWriter {
        OggOpusWriter { page_seq: (self.page_seq + 1) as u32, ..*self }
    }

    /// Begins a stream. The second part is what comes first in it: a page with each of the two
    /// headers, the first marked as the beginning.
    pub fn create(serial: u32, params: AudioParams) -> (res: (Self, Vec<u8>))
        ensures
            res.0 == (OggOpusWriter {
                serial,
                page_seq: 2,
                granule_pos: 0,
                samples_per_frame: (params.sample_rate * params.frame_duration_ms / 1000) as u64,
                bytes_written: 0,
            }),
            res.1@ == page_bytes(
                PageHeader { header_type: 2, granule_position: 0, serial, page_seq: 0 },
                opus_head(params.sample_rate, params.channels),
            ) + page_bytes(
                PageHeader { header_type: 0, granule_position: 0, serial, page_seq: 1 },
                opus_tags(),
            ),
    {
        assert(params.sample_rate * params.frame_duration_ms <= 0xffff_ffff * 0xffff)
            by (nonlinear_arith)
            requires
                params.sample_rate <= 0xffff_ffff,
                params.frame_duration_ms <= 0xffff,
        ;
        let samples_per_frame: u64 = params.sample_rate as u64 * params.frame_duration_ms as u64
            / 1000;
        let mut writer = OggOpusWriter {
            serial,
            page_seq: 0,
            granule_pos: 0,
            samples_per_frame,
            bytes_written: 0,
        };
        let mut head: Vec<u8> = vec![
            0x4fu8,
            0x70u8,
            0x75u8,
            0x73u8,
            0x48u8,
            0x65u8,
            0x61u8,
            0x64u8,
            1u8,
            params.channels,
            0u8,
            0u8,
        ];
        push_bytes(&mut head, params.sample_rate as u64, 4);
        head.push(0u8);
        head.push(0u8);
        head.push(0u8);
        assert(head@ =~= opus_head(params.sample_rate, params.channels));
        let tags: Vec<u8> = vec![
            0x4fu8,
            0x70u8,
            0x75u8,
            0x73u8,
            0x54u8,
            0x61u8,
            0x67u8,
            0x73u8,
            6u8,
            0u8,
            0u8,
            0u8,
            0x74u8,
            0x72u8,
            0x78u8,
            0x2du8,
            0x72u8,
            0x73u8,
            0u8,
            0u8,
            0u8,
            0u8,
        ];
        assert(tags@ =~= opus_tags());
        let mut out = writer.page(2, 0, head.as_slice());
        let second = writer.page(0, 0, tags.as_slice());
        out.extend_from_slice(second.as_slice());
        (writer, out)
    }

    /// The next page of the stream, with the given data.
    fn page(&mut self, header_type: u8, granule_position: u64, data: &[u8]) -> (res: Vec<u8>)
        requires
            old(self).page_seq < u32::MAX,
        ensures
            res@ == page_bytes(old(self).next_header(header_type, granule_position), data@),
            *final(self) == old(self).turned(),
    {
        let header = PageHeader {
            header_type,
            granule_position,
            serial: self.serial,
            page_seq: self.page_seq,
        };
        self.page_seq = self.page_seq + 1;
        ogg_page(&header, data)
    }

    /// Whether there is room for another packet in the numbers of the stream.
    pub open spec fn has_room(&self) -> bool {
        self.page_seq < u32::MAX && self.granule_pos + self.samples_per_frame <= u64::MAX
    }

    /// Whether there is room for another packet.
    pub fn can_write(&self) -> (res: bool)
        ensures
            res == self.has_room(),
    {
        self.page_seq < u32::MAX && self.granule_pos <= u64::MAX - self.samples_per_frame
    }

    /// The page for the next packet. The position moves on by the samples of a frame.
    pub fn write_audio_packet(&mut self, opus_data: &[u8]) -> (res: Vec<u8>)
        requires
            old(self).has_room(),
        ensures
            res@ == page_bytes(
                old(self).next_header(
                    0,
                    (old(self).granule_pos + old(self).samples_per_frame) as u64,
                ),
                opus_data@,
            ),
            *final(self) == (OggOpusWriter {
                granule_pos: (old(self).granule_pos + old(self).samples_per_frame) as u64,
                ..old(self).turned()
            }),
    {
        self.granule_pos = self.granule_pos + self.samples_per_frame;
        let position: u64 = self.granule_pos;
        self.page(0, position, opus_data)
    }

    /// The page that ends the stream: empty, marked as the end.
    pub fn finalize(&mut self) -> (res: Vec<u8>)
        requires
            old(self).page_seq < u32::MAX,
        ensures
            res@ == page_bytes(old(self).next_header(4, old(self).granule_pos), Seq::empty()),
            *final(self) == old(self).turned(),
    {
        let nothing: Vec<u8> = Vec::new();
        let position: u64 = self.granule_pos;
        assert(nothing@ =~= Seq::<u8>::empty());
        self.page(4, position, nothing.as_slice())
    }

    /// Counts bytes that have been written out.
    pub fn wrote(&mut self, n: u64)
        requires
            old(self).bytes_written + n <= u64::MAX,
        ensures
            *final(self) == (OggOpusWriter {
                bytes_written: (old(self).bytes_written + n) as u64,
                ..*old(self)
            }),
    {
        self.bytes_written = self.bytes_written + n;
    }
}

// ---------------------------------------------------------------------------------------------
// What the checksum comes to
// ---------------------------------------------------------------------------------------------

/// One step doubles the remainder and takes the generator off where it has become too long.
pub proof fn checksum_bit_by_bit(r: u32)
    ensures
        r < 0x8000_0000 ==> crc_shift(r) == 2 * r,
        r >= 0x8000_0000 ==> crc_shift(r) == ((2 * r - 0x1_0000_0000) as u32) ^ 0x04C1_1DB7,
{
    if r < 0x8000_0000 {
        assert(r & 0x8000_0000 == 0 && r << 1 == 2 * r) by (bit_vector)
            requires
                r < 0x8000_0000,
        ;
    } else {
        assert(r & 0x8000_0000 != 0 && r << 1 == 2 * r - 0x1_0000_0000) by (bit_vector)
            requires
                r >= 0x8000_0000,
        ;
    }
}

/// A byte goes into the checksum at the top, and eight steps are made for it.
pub proof fn checksum_byte_by_byte(bytes: Seq<u8>, b: u8)
    ensures
        checksum(Seq::empty()) == 0,
        checksum(bytes.push(b)) == crc_shifts(checksum(bytes) ^ ((b as u32) << 24), 8),
        crc_shifts(checksum(bytes), 0) == checksum(bytes),
{
    let crc = checksum(bytes);
    let w = b as u32;
    let top = ((crc >> 24) ^ w) << 24;
    let low = crc & 0x00ff_ffff;
    assert(bytes.push(b).drop_last() =~= bytes);
    assert(crc ^ (w << 24) == top ^ low && low < 0x0100_0000 && low << 8 == crc << 8) by (bit_vector)
        requires
            top == ((crc >> 24) ^ w) << 24,
            low == crc & 0x00ff_ffff,
    ;
    lemma_shifts_add(top, low, 8);
    lemma_low_shifts(low);
    let t = crc_shifts(top, 8);
    let l = crc << 8;
    assert(t ^ l == l ^ t) by (bit_vector);
}

proof fn lemma_shifts_add(a: u32, b: u32, n: nat)
    ensures
        crc_shifts(a ^ b, n) == crc_shifts(a, n) ^ crc_shifts(b, n),
    decreases n,
{
    if n > 0 {
        lemma_shifts_add(a, b, (n - 1) as nat);
        let x = crc_shifts(a, (n - 1) as nat);
        let y = crc_shifts(b, (n - 1) as nat);
        let g: u32 = 0x04C1_1DB7;
        assert((if (x ^ y) & 0x8000_0000 != 0 {
            ((x ^ y) << 1) ^ g
        } else {
            (x ^ y) << 1
        }) == (if x & 0x8000_0000 != 0 {
            (x << 1) ^ g
        } else {
            x << 1
        }) ^ (if y & 0x8000_0000 != 0 {
            (y << 1) ^ g
        } else {
            y << 1
        })) by (bit_vector);
    }
}

proof fn lemma_low_shifts(low: u32)
    requires
        low < 0x0100_0000,
    ensures
        crc_shifts(low, 8) == low << 8,
{
    reveal_with_fuel(crc_shifts, 9);
    assert(low < 0x0100_0000 ==> {
        &&& low & 0x8000_0000 == 0
        &&& (low << 1) & 0x8000_0000 == 0
        &&& (low << 2) & 0x8000_0000 == 0
        &&& (low << 3) & 0x8000_0000 == 0
        &&& (low << 4) & 0x8000_0000 == 0
        &&& (low << 5) & 0x8000_0000 == 0
        &&& (low << 6) & 0x8000_0000 == 0
        &&& (low << 7) & 0x8000_0000 == 0
        &&& (low << 1) << 1 == low << 2
        &&& (low << 2) << 1 == low << 3
        &&& (low << 3) << 1 == low << 4
        &&& (low << 4) << 1 == low << 5
        &&& (low << 5) << 1 == low << 6
        &&& (low << 6) << 1 == low << 7
        &&& (low << 7) << 1 == low << 8
    }) by (bit_vector);
    assert(crc_shifts(low, 0) == low);
    assert(crc_shifts(low, 1) == low << 1);
    assert(crc_shifts(low, 2) == low << 2);
    assert(crc_shifts(low, 3) == low << 3);
    assert(crc_shifts(low, 4) == low << 4);
    assert(crc_shifts(low, 5) == low << 5);
    assert(crc_shifts(low, 6) == low << 6);
    assert(crc_shifts(low, 7) == low << 7);
}

/// A page starts with `OggS` and the version, and the checksum in it is that of the page with nothing
/// in the checksum's place.
pub proof fn pages_hold_their_checksum(h: PageHeader, data: Seq<u8>)
    ensures
        ({
            let page = page_bytes(h, data);
            let blank = page.update(22, 0).update(23, 0).update(24, 0).update(25, 0);
            &&& page[0] as char == 'O'
            &&& page[1] as char == 'g'
            &&& page[2] as char == 'g'
            &&& page[3] as char == 'S'
            &&& page[4] == 0
            &&& page[26] as int == (data.len() / 255 + 1) % 256
            &&& little_endian_value(page.subrange(22, 26)) == checksum(blank)
        }),
{
    let page = page_bytes(h, data);
    let crc = checksum(header_bytes(h, 0, data.len()) + data);
    lemma_header_len(h, crc, data.len());
    lemma_header_len(h, 0, data.len());
    lacing_meaning(data.len());
    reveal_with_fuel(byte_power, 9);
    lemma_little_endian_len(h.granule_position as nat, 8);
    lemma_little_endian_len(h.serial as nat, 4);
    lemma_little_endian_len(h.page_seq as nat, 4);
    little_endian_reads_back(crc as nat, 4);
    lemma_little_endian_len(0, 4);
    assert(page.subrange(22, 26) =~= little_endian(crc as nat, 4));
    reveal_with_fuel(little_endian, 5);
    assert(little_endian(0, 4) =~= seq![0u8, 0u8, 0u8, 0u8]);
    let blank = page.update(22, 0).update(23, 0).update(24, 0).update(25, 0);
    let start = seq![0x4fu8, 0x67u8, 0x67u8, 0x53u8, 0u8, h.header_type] + little_endian(
        h.granule_position as nat,
        8,
    ) + little_endian(h.serial as nat, 4) + little_endian(h.page_seq as nat, 4);
    let end = seq![(lacing(data.len()).len() % 256) as u8] + lacing(data.len()) + data;
    assert(page =~= start + little_endian(crc as nat, 4) + end);
    assert(header_bytes(h, 0, data.len()) + data =~= start + seq![0u8, 0u8, 0u8, 0u8] + end);
    assert(blank =~= start + seq![0u8, 0u8, 0u8, 0u8] + end);
}

/// A number is written from its lowest byte to its highest.
pub proof fn lowest_byte_first(value: nat, b: u8, n: nat)
    ensures
        little_endian(256 * value + b as nat, n + 1) == seq![b] + little_endian(value, n),
        little_endian(value, 0).len() == 0,
        little_endian_value(seq![b] + little_endian(value, n)) == b as nat + 256
            * little_endian_value(little_endian(value, n)),
{
    assert((256 * value + b as nat) % 256 == b as nat);
    assert((256 * value + b as nat) / 256 == value);
    assert((seq![b] + little_endian(value, n)).skip(1) =~= little_endian(value, n));
}

/// The headers of a stream name it, its channels, its rate and who made it.
pub proof fn headers_of_a_stream(sample_rate: u32, channels: u8, i: int)
    ensures
        opus_head(sample_rate, channels).len() == 19,
        0 <= i < 8 ==> opus_head(sample_rate, channels)[i] as char == "OpusHead"@[i],
        opus_head(sample_rate, channels)[8] == 1,
        opus_head(sample_rate, channels)[9] == channels,
        little_endian_value(opus_head(sample_rate, channels).subrange(12, 16)) == sample_rate,
        10 <= i < 12 || 16 <= i < 19 ==> opus_head(sample_rate, channels)[i] == 0,
        opus_tags().len() == 22,
        0 <= i < 8 ==> opus_tags()[i] as char == "OpusTags"@[i],
        opus_tags()[8] == 6,
        0 <= i < 6 ==> opus_tags()[12 + i] as char == "trx-rs"@[i],
        9 <= i < 12 || 18 <= i < 22 ==> opus_tags()[i] == 0,
{
    reveal_strlit("OpusHead");
    reveal_strlit("OpusTags");
    reveal_strlit("trx-rs");
    reveal_with_fuel(byte_power, 9);
    little_endian_reads_back(sample_rate as nat, 4);
    let head = opus_head(sample_rate, channels);
    assert(head.subrange(12, 16) =~= little_endian(sample_rate as nat, 4));
}

/// The next page of a writer has its serial number and its sequence number, and turning the page
/// raises the latter by one.
pub proof fn pages_are_numbered(w: OggOpusWriter, header_type: u8, granule_position: u64)
    ensures
        w.next_header(header_type, granule_position).header_type == header_type,
        w.next_header(header_type, granule_position).granule_position == granule_position,
        w.next_header(header_type, granule_position).serial == w.serial,
        w.next_header(header_type, granule_position).page_seq == w.page_seq,
        w.page_seq < u32::MAX ==> w.turned().page_seq == w.page_seq + 1,
        w.turned().serial == w.serial,
        w.turned().granule_pos == w.granule_pos,
        w.turned().samples_per_frame == w.samples_per_frame,
        w.turned().bytes_written == w.bytes_written,
        w.has_room() <==> w.page_seq < u32::MAX && w.granule_pos + w.samples_per_frame <= u64::MAX,
{
}

} // verus!
