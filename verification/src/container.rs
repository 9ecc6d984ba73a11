//! Container writer: the byte layout of the output stream.  A
//! non-raw container starts with the ASCII magic "DCA" plus a single
//! version digit, a little-endian signed 32-bit metadata length and
//! the metadata document; raw output omits all of that.  Either way
//! the packets follow as (little-endian signed 16-bit length, payload)
//! pairs in arrival order.

use crate::settings::OutputSettings;
use vstd::arithmetic::div_mod::{lemma_fundamental_div_mod, lemma_mod_bound};
use vstd::prelude::*;

verus! {

/// Largest value the signed 16-bit packet length field can carry.
pub const MAX_PACKET_LEN: usize = 32767;

/// The two little-endian bytes of a non-negative 16-bit length.
pub open spec fn spec_le16(n: int) -> Seq<u8>
    recommends
        0 <= n <= MAX_PACKET_LEN,
{
    seq![(n % 256) as u8, (n / 256) as u8]
}

/// The four little-endian bytes of a non-negative 32-bit length.
pub open spec fn spec_le32(n: int) -> Seq<u8>
    recommends
        0 <= n <= 0x7fff_ffff,
{
    seq![
        (n % 256) as u8,
        ((n / 256) % 256) as u8,
        ((n / 256 / 256) % 256) as u8,
        ((n / 256 / 256 / 256) % 256) as u8,
    ]
}

/// One packet as written to the container: its length field, then its
/// payload.
pub open spec fn spec_packet_record(p: Seq<u8>) -> Seq<u8>
    recommends
        p.len() <= MAX_PACKET_LEN,
{
    spec_le16(p.len() as int) + p
}

/// All packets in order, each as its record.
pub open spec fn spec_records(ps: Seq<Seq<u8>>) -> Seq<u8>
    decreases ps.len(),
{
    if ps.len() == 0 {
        Seq::empty()
    } else {
        spec_packet_record(ps.first()) + spec_records(ps.drop_first())
    }
}

/// The ASCII magic tag: "DCA" followed by one version digit.
pub open spec fn spec_magic(version: i8) -> Seq<u8>
    recommends
        0 <= version <= 9,
{
    seq![0x44u8, 0x43u8, 0x41u8, (0x30 + version) as u8]
}

/// The container header: empty in raw mode, otherwise magic tag,
/// metadata length and metadata document.
pub open spec fn spec_header(raw: bool, version: i8, doc: Seq<u8>) -> Seq<u8>
    recommends
        0 <= version <= 9,
        doc.len() <= 0x7fff_ffff,
{
    if raw {
        Seq::empty()
    } else {
        spec_magic(version) + spec_le32(doc.len() as int) + doc
    }
}

/// The whole container: header, then every packet record in order.
pub open spec fn spec_container(raw: bool, version: i8, doc: Seq<u8>, ps: Seq<Seq<u8>>) -> Seq<
    u8,
>
    recommends
        0 <= version <= 9,
        doc.len() <= 0x7fff_ffff,
{
    spec_header(raw, version, doc) + spec_records(ps)
}

/// Appends the two little-endian bytes of a non-negative 16-bit
/// length.
pub fn write_le16(out: &mut Vec<u8>, n: i16)
    requires
        n >= 0,
    ensures
        final(out)@ == old(out)@ + spec_le16(n as int),
{
    out.push((n % 256) as u8);
    out.push((n / 256) as u8);
    assert(final(out)@ =~= old(out)@ + spec_le16(n as int));
}

/// Appends the four little-endian bytes of a non-negative 32-bit
/// length.
pub fn write_le32(out: &mut Vec<u8>, n: i32)
    requires
        n >= 0,
    ensures
        final(out)@ == old(out)@ + spec_le32(n as int),
{
    out.push((n % 256) as u8);
    out.push(((n / 256) % 256) as u8);
    out.push(((n / 256 / 256) % 256) as u8);
    out.push(((n / 256 / 256 / 256) % 256) as u8);
    assert(final(out)@ =~= old(out)@ + spec_le32(n as int));
}

/// One packet's record: little-endian signed 16-bit payload length,
/// then the payload itself.
pub fn packet_record(packet: &Vec<u8>) -> (r: Vec<u8>)
    requires
        packet@.len() <= MAX_PACKET_LEN,
    ensures
        r@ == spec_packet_record(packet@),
{
    let mut out: Vec<u8> = Vec::new();
    write_le16(&mut out, packet.len() as i16);
    out.extend_from_slice(packet.as_slice());
    assert(out@ =~= spec_packet_record(packet@));
    out
}

/// The container header for the given writer configuration: nothing
/// in raw mode; otherwise the magic tag, the metadata length and the
/// metadata document, in that order and nothing else.
pub fn header_bytes(settings: &OutputSettings) -> (r: Vec<u8>)
    requires
        settings.wf(),
    ensures
        r@ == spec_header(settings.raw_output, settings.format_file_version, settings.metadata_json@),
{
    let mut out: Vec<u8> = Vec::new();
    if !settings.raw_output {
        out.push(0x44u8);
        out.push(0x43u8);
        out.push(0x41u8);
        out.push(0x30u8 + settings.format_file_version as u8);
        write_le32(&mut out, settings.metadata_json_size);
        out.extend_from_slice(settings.metadata_json.as_slice());
        assert(out@ =~= spec_magic(settings.format_file_version) + spec_le32(
            settings.metadata_json@.len() as int,
        ) + settings.metadata_json@);
    }
    out
}

/// Extends `spec_records` by one packet at the back.
pub proof fn lemma_records_snoc(ps: Seq<Seq<u8>>, i: int)
    requires
        0 <= i < ps.len(),
    ensures
        spec_records(ps.take(i + 1)) == spec_records(ps.take(i)) + spec_packet_record(ps[i]),
    decreases i,
{
    if i == 0 {
        assert(ps.take(1).first() == ps[0]);
        assert(ps.take(1).drop_first() =~= Seq::<Seq<u8>>::empty());
        assert(ps.take(0) =~= Seq::<Seq<u8>>::empty());
        assert(spec_records(ps.take(1)) == spec_packet_record(ps[0]) + spec_records(
            Seq::<Seq<u8>>::empty(),
        ));
        assert(spec_packet_record(ps[0]) + Seq::<u8>::empty() =~= spec_packet_record(ps[0]));
        assert(Seq::<u8>::empty() + spec_packet_record(ps[0]) =~= spec_packet_record(ps[0]));
    } else {
        lemma_records_snoc(ps.drop_first(), i - 1);
        assert(ps.drop_first().take(i) =~= ps.take(i + 1).drop_first());
        assert(ps.drop_first().take(i - 1) =~= ps.take(i).drop_first());
        assert(ps.drop_first()[i - 1] == ps[i]);
        assert(ps.take(i + 1).first() == ps.first());
        assert(ps.take(i).first() == ps.first());
        assert(spec_records(ps.take(i + 1)) == spec_packet_record(ps.first()) + spec_records(
            ps.take(i + 1).drop_first(),
        ));
        assert(spec_records(ps.take(i)) + spec_packet_record(ps[i]) =~= spec_packet_record(
            ps.first(),
        ) + (spec_records(ps.take(i).drop_first()) + spec_packet_record(ps[i])));
    }
}

/// The whole container for the given writer configuration and packet
/// list: the header, then every packet record in order.
pub fn container_bytes(settings: &OutputSettings, packets: &Vec<Vec<u8>>) -> (r: Vec<u8>)
    requires
        settings.wf(),
        forall|i: int| 0 <= i < packets@.len() ==> #[trigger] packets@[i]@.len() <= MAX_PACKET_LEN,
    ensures
        r@ == spec_container(
            settings.raw_output,
            settings.format_file_version,
            settings.metadata_json@,
            packets.deep_view(),
        ),
{
    let mut out = header_bytes(settings);
    let ghost header = out@;
    let mut i: usize = 0;
    proof {
        assert(packets.deep_view().take(0) =~= Seq::<Seq<u8>>::empty());
        assert(out@ =~= header + spec_records(packets.deep_view().take(0)));
    }
    while i < packets.len()
        invariant
            i <= packets@.len(),
            packets.deep_view().len() == packets@.len(),
            forall|j: int|
                0 <= j < packets@.len() ==> #[trigger] packets@[j]@.len() <= MAX_PACKET_LEN,
            forall|j: int|
                0 <= j < packets@.len() ==> packets.deep_view()[j] == #[trigger] packets@[j]@,
            out@ == header + spec_records(packets.deep_view().take(i as int)),
        decreases packets@.len() - i,
    {
        let mut rec = packet_record(&packets[i]);
        out.append(&mut rec);
        proof {
            lemma_records_snoc(packets.deep_view(), i as int);
            assert(out@ =~= header + spec_records(packets.deep_view().take(i + 1)));
        }
        i = i + 1;
    }
    proof {
        assert(packets.deep_view().take(packets@.len() as int) =~= packets.deep_view());
    }
    out
}

/// What a length field holds when read back: the little-endian value
/// of its two bytes.
pub open spec fn spec_len16(b0: u8, b1: u8) -> int {
    b0 + 256 * b1
}

/// Reading the packet stream back: each record's length field, read
/// little-endian, counts the payload bytes that immediately follow;
/// a negative length (high bit set) or truncated record is malformed.
pub open spec fn spec_parse_records(b: Seq<u8>) -> Option<Seq<Seq<u8>>>
    decreases b.len(),
{
    if b.len() == 0 {
        Some(Seq::empty())
    } else if b.len() < 2 {
        None
    } else {
        let n = spec_len16(b[0], b[1]);
        if n > MAX_PACKET_LEN {
            None
        } else if b.len() < 2 + n {
            None
        } else {
            match spec_parse_records(b.skip(2 + n)) {
                Some(rest) => Some(seq![b.subrange(2, 2 + n)] + rest),
                None => None,
            }
        }
    }
}

/// The little-endian bytes of a 16-bit length read back as the length
/// itself.
pub proof fn lemma_le16_value(n: int)
    requires
        0 <= n <= MAX_PACKET_LEN,
    ensures
        spec_len16(spec_le16(n)[0], spec_le16(n)[1]) == n,
        spec_le16(n).len() == 2,
{
    lemma_fundamental_div_mod(n, 256);
    lemma_mod_bound(n, 256);
    assert(0 <= n / 256 <= 127) by (nonlinear_arith)
        requires 0 <= n <= 32767;
}

/// Round trip of the packet stream: writing any packets (each within
/// the 16-bit length bound) and parsing the bytes back yields exactly
/// the same packets, index for index.  In particular every length
/// field read back equals the byte length of the payload following
/// it, and packet order is preserved.
pub proof fn lemma_records_round_trip(ps: Seq<Seq<u8>>)
    requires
        forall|i: int| 0 <= i < ps.len() ==> #[trigger] ps[i].len() <= MAX_PACKET_LEN,
    ensures
        spec_parse_records(spec_records(ps)) == Some(ps),
    decreases ps.len(),
{
    let b = spec_records(ps);
    if ps.len() == 0 {
        assert(b =~= Seq::<u8>::empty());
        assert(spec_parse_records(b) == Some(Seq::<Seq<u8>>::empty()));
    } else {
        let p0 = ps.first();
        let n0 = p0.len() as int;
        lemma_le16_value(n0);
        assert(b == (spec_le16(n0) + p0) + spec_records(ps.drop_first()));
        assert(b.len() >= 2 + n0);
        assert(b[0] == spec_le16(n0)[0] && b[1] == spec_le16(n0)[1]);
        assert(spec_len16(b[0], b[1]) == n0);
        assert(b.subrange(2, 2 + n0) =~= p0);
        assert(b.skip(2 + n0) =~= spec_records(ps.drop_first()));
        assert(forall|i: int|
            0 <= i < ps.drop_first().len() ==> #[trigger] ps.drop_first()[i].len()
                <= MAX_PACKET_LEN);
        lemma_records_round_trip(ps.drop_first());
        assert(seq![b.subrange(2, 2 + n0)] + ps.drop_first() =~= ps);
    }
}

/// In raw mode the container holds no byte before the first packet
/// length field: it is exactly the packet records.
pub proof fn lemma_raw_container(version: i8, doc: Seq<u8>, ps: Seq<Seq<u8>>)
    ensures
        spec_header(true, version, doc) == Seq::<u8>::empty(),
        spec_container(true, version, doc, ps) == spec_records(ps),
{
    assert(spec_header(true, version, doc) + spec_records(ps) =~= spec_records(ps));
}

/// In non-raw mode the container starts with the four magic bytes
/// ("DCA1" for format version one), then the four little-endian bytes
/// of the metadata length, then exactly that many metadata bytes,
/// then the packet records.
pub proof fn lemma_header_layout(version: i8, doc: Seq<u8>, ps: Seq<Seq<u8>>)
    requires
        0 <= version <= 9,
        doc.len() <= 0x7fff_ffff,
    ensures
        ({
            let c = spec_container(false, version, doc, ps);
            &&& c.len() == 8 + doc.len() + spec_records(ps).len()
            &&& c.subrange(0, 4) == spec_magic(version)
            &&& c.subrange(4, 8) == spec_le32(doc.len() as int)
            &&& c.subrange(8, 8 + doc.len() as int) == doc
            &&& c.skip(8 + doc.len() as int) == spec_records(ps)
            &&& (version == 1 ==> c.subrange(0, 4) == seq![0x44u8, 0x43u8, 0x41u8, 0x31u8])
        }),
{
    let c = spec_container(false, version, doc, ps);
    assert(c.subrange(0, 4) =~= spec_magic(version));
    assert(c.subrange(4, 8) =~= spec_le32(doc.len() as int));
    assert(c.subrange(8, 8 + doc.len() as int) =~= doc);
    assert(c.skip(8 + doc.len() as int) =~= spec_records(ps));
    if version == 1 {
        assert(spec_magic(1) =~= seq![0x44u8, 0x43u8, 0x41u8, 0x31u8]);
    }
}

/// An empty input stream in non-raw mode: the chunker emits no
/// frame, so the container is exactly the header, with no packet
/// record after it.
pub proof fn lemma_empty_stream(version: i8, doc: Seq<u8>, frame_len: nat)
    requires
        frame_len >= 1,
    ensures
        crate::chunker::spec_frames(Seq::empty(), frame_len) == Seq::<Seq<i16>>::empty(),
        spec_container(false, version, doc, Seq::empty()) == spec_header(false, version, doc),
{
    assert(spec_container(false, version, doc, Seq::empty()) =~= spec_header(
        false,
        version,
        doc,
    ));
}

/// Round trip of a whole container: in raw mode the container bytes
/// themselves, and in non-raw mode the bytes after the header, parse
/// back to exactly the packets that were written, index for index.
pub proof fn lemma_container_round_trip(version: i8, doc: Seq<u8>, ps: Seq<Seq<u8>>)
    requires
        0 <= version <= 9,
        doc.len() <= 0x7fff_ffff,
        forall|i: int| 0 <= i < ps.len() ==> #[trigger] ps[i].len() <= MAX_PACKET_LEN,
    ensures
        spec_parse_records(spec_container(true, version, doc, ps)) == Some(ps),
        spec_parse_records(
            spec_container(false, version, doc, ps).skip(8 + doc.len() as int),
        ) == Some(ps),
{
    lemma_records_round_trip(ps);
    lemma_raw_container(version, doc, ps);
    lemma_header_layout(version, doc, ps);
}

/// The metadata document embedded in a non-raw container parses back
/// to the very record it was built from, field for field.
pub proof fn lemma_container_metadata_parse(m: crate::metadata::Metadata, ps: Seq<Seq<u8>>)
    requires
        crate::json::spec_metadata_json(m).len() <= 0x7fff_ffff,
    ensures
        ({
            let doc = crate::json::spec_metadata_json(m);
            let c = spec_container(false, 1, doc, ps);
            crate::json::spec_parse_metadata(c.subrange(8, 8 + doc.len() as int))
                == Some(crate::json::spec_model(m))
        }),
{
    let doc = crate::json::spec_metadata_json(m);
    lemma_header_layout(1, doc, ps);
    crate::json::lemma_metadata_round_trip(m);
}

} // verus!
