//! The metadata document's JSON form, written by hand so the exact
//! bytes of the container header are pinned down: decimal numbers,
//! escaped strings, and the fixed key layout of the schema.

use crate::metadata::{DCAToolMetadata, Metadata, OpusMetadata, OriginMetadata, SongMetadata};
use vstd::arithmetic::div_mod::lemma_fundamental_div_mod;
use vstd::prelude::*;
use vstd::string::StrSliceExecFns;
use vstd::utf8::{decode_utf8, encode_scalar, encode_utf8, valid_utf8};

verus! {

/// The decimal digits of a number, most significant first.
pub open spec fn spec_dec(n: nat) -> Seq<u8>
    decreases n,
{
    if n < 10 {
        seq![(0x30 + n) as u8]
    } else {
        spec_dec(n / 10).push((0x30 + n % 10) as u8)
    }
}

/// The decimal form of a signed byte-sized number: a minus sign for
/// negative values, then the digits of the magnitude.
pub open spec fn spec_dec_i8(v: i8) -> Seq<u8> {
    if v >= 0 {
        spec_dec(v as nat)
    } else {
        seq![0x2du8] + spec_dec((-(v as int)) as nat)
    }
}

/// Appends the decimal digits of a 32-bit number.
pub fn write_dec_u32(out: &mut Vec<u8>, n: u32)
    ensures
        final(out)@ == old(out)@ + spec_dec(n as nat),
    decreases n,
{
    if n < 10 {
        out.push(0x30u8 + n as u8);
        assert(final(out)@ =~= old(out)@ + spec_dec(n as nat));
    } else {
        write_dec_u32(out, n / 10);
        out.push(0x30u8 + (n % 10) as u8);
        assert(final(out)@ =~= old(out)@ + spec_dec(n as nat));
    }
}

/// Appends the decimal form of a signed byte-sized number.
pub fn write_dec_i8(out: &mut Vec<u8>, v: i8)
    ensures
        final(out)@ == old(out)@ + spec_dec_i8(v),
{
    if v >= 0 {
        write_dec_u32(out, v as u32);
    } else {
        out.push(0x2du8);
        let magnitude = -(v as i32);
        write_dec_u32(out, magnitude as u32);
        assert(final(out)@ =~= old(out)@ + spec_dec_i8(v));
    }
}

/// True when every byte is an ASCII decimal digit.
pub open spec fn all_digits(bs: Seq<u8>) -> bool {
    forall|i: int| 0 <= i < bs.len() ==> 0x30 <= #[trigger] bs[i] <= 0x39
}

/// The number a run of decimal digits denotes.
pub open spec fn digits_val(bs: Seq<u8>) -> nat
    decreases bs.len(),
{
    if bs.len() == 0 {
        0
    } else {
        digits_val(bs.drop_last()) * 10 + (bs.last() - 0x30) as nat
    }
}

/// How a decimal string is read as an unsigned 32-bit number: an
/// optional leading plus sign, then at least one digit and nothing
/// else, with the value within the 32-bit range.
pub open spec fn spec_parse_u32_dec(bs: Seq<u8>) -> Option<u32> {
    let digits = if bs.len() >= 1 && bs[0] == 0x2b {
        bs.drop_first()
    } else {
        bs
    };
    if digits.len() == 0 {
        None
    } else if !all_digits(digits) {
        None
    } else if digits_val(digits) > u32::MAX {
        None
    } else {
        Some(digits_val(digits) as u32)
    }
}

/// A longer digit run never denotes a smaller number.
proof fn lemma_digits_val_prefix(bs: Seq<u8>, i: int)
    requires
        0 <= i <= bs.len(),
    ensures
        digits_val(bs.take(i)) <= digits_val(bs),
    decreases bs.len() - i,
{
    if i == bs.len() {
        assert(bs.take(i) =~= bs);
    } else {
        lemma_digits_val_prefix(bs, i + 1);
        assert(bs.take(i + 1).drop_last() =~= bs.take(i));
        assert(digits_val(bs.take(i + 1)) == digits_val(bs.take(i)) * 10 + (bs.take(i + 1).last()
            - 0x30) as nat);
        assert(digits_val(bs.take(i)) <= digits_val(bs.take(i)) * 10) by (nonlinear_arith);
    }
}

/// Reads a decimal string as an unsigned 32-bit number: an optional
/// leading plus sign, then at least one digit and nothing else, the
/// value within range; anything else is rejected.
pub fn parse_u32_ascii(s: &str) -> (r: Option<u32>)
    ensures
        r == spec_parse_u32_dec(encode_utf8(s@)),
{
    let bs = s.as_bytes_vec();
    let start: usize = if bs.len() >= 1 && bs[0] == 0x2b {
        1
    } else {
        0
    };
    let ghost digits = if bs@.len() >= 1 && bs@[0] == 0x2b {
        bs@.drop_first()
    } else {
        bs@
    };
    proof {
        assert(digits =~= bs@.skip(start as int));
    }
    if bs.len() == start {
        return None;
    }
    let mut acc: u64 = 0;
    let mut i: usize = start;
    while i < bs.len()
        invariant
            bs@ == encode_utf8(s@),
            start <= i <= bs@.len(),
            bs@.len() >= start + 1,
            digits == bs@.skip(start as int),
            digits == (if bs@.len() >= 1 && bs@[0] == 0x2b {
                bs@.drop_first()
            } else {
                bs@
            }),
            acc == digits_val(bs@.skip(start as int).take(i - start)),
            acc <= u32::MAX,
            all_digits(bs@.skip(start as int).take(i - start)),
        decreases bs@.len() - i,
    {
        let b = bs[i];
        if b < 0x30 || b > 0x39 {
            proof {
                assert(digits[i - start] == b);
                assert(!all_digits(digits));
            }
            return None;
        }
        acc = acc * 10 + (b - 0x30) as u64;
        proof {
            assert(digits.take(i - start + 1).drop_last() =~= digits.take(i - start));
            assert(digits.take(i - start + 1).last() == b);
        }
        i = i + 1;
        if acc > 0xffff_ffff {
            proof {
                lemma_digits_val_prefix(digits, i - start);
                assert(digits_val(digits) > u32::MAX);
            }
            return None;
        }
    }
    proof {
        assert(digits.take(i - start) =~= digits);
        assert(digits.len() >= 1);
    }
    Some(acc as u32)
}

/// The ASCII hex digit (lowercase) of a value below sixteen.
pub open spec fn spec_hex_digit(n: u8) -> u8
    recommends
        n < 16,
{
    if n < 10 {
        (0x30 + n) as u8
    } else {
        (0x57 + n) as u8
    }
}

/// One byte's form inside a JSON string: quote and backslash get a
/// backslash escape, control bytes a six-byte \u escape, every other
/// byte passes through unchanged (multi-byte UTF-8 sequences pass
/// through bytewise).
pub open spec fn spec_esc_byte(b: u8) -> Seq<u8> {
    if b == 0x22 {
        seq![0x5cu8, 0x22u8]
    } else if b == 0x5c {
        seq![0x5cu8, 0x5cu8]
    } else if b < 0x20 {
        seq![0x5cu8, 0x75u8, 0x30u8, 0x30u8, spec_hex_digit(b / 16), spec_hex_digit(b % 16)]
    } else {
        seq![b]
    }
}

/// A byte string escaped for a JSON string, byte by byte.
pub open spec fn spec_esc(bs: Seq<u8>) -> Seq<u8>
    decreases bs.len(),
{
    if bs.len() == 0 {
        Seq::empty()
    } else {
        spec_esc_byte(bs.first()) + spec_esc(bs.drop_first())
    }
}

/// Extends an escaped prefix by one more byte.
proof fn lemma_esc_snoc(bs: Seq<u8>, i: int)
    requires
        0 <= i < bs.len(),
    ensures
        spec_esc(bs.take(i + 1)) == spec_esc(bs.take(i)) + spec_esc_byte(bs[i]),
    decreases i,
{
    if i == 0 {
        assert(bs.take(1).first() == bs[0]);
        assert(bs.take(1).drop_first() =~= Seq::<u8>::empty());
        assert(bs.take(0) =~= Seq::<u8>::empty());
        assert(spec_esc(bs.take(1)) =~= Seq::empty() + spec_esc_byte(bs[0]));
    } else {
        lemma_esc_snoc(bs.drop_first(), i - 1);
        assert(bs.drop_first().take(i) =~= bs.take(i + 1).drop_first());
        assert(bs.drop_first().take(i - 1) =~= bs.take(i).drop_first());
        assert(bs.drop_first()[i - 1] == bs[i]);
        assert(bs.take(i + 1).first() == bs.first());
        assert(bs.take(i).first() == bs.first());
        assert(spec_esc(bs.take(i)) + spec_esc_byte(bs[i]) =~= spec_esc_byte(bs.first()) + (
        spec_esc(bs.take(i).drop_first()) + spec_esc_byte(bs[i])));
    }
}

/// The ASCII hex digit (lowercase) of a value below sixteen.
fn hex_digit(n: u8) -> (r: u8)
    requires
        n < 16,
    ensures
        r == spec_hex_digit(n),
{
    if n < 10 {
        0x30 + n
    } else {
        0x57 + n
    }
}

/// Appends a byte string escaped for a JSON string.
fn write_escaped(out: &mut Vec<u8>, bs: &Vec<u8>)
    ensures
        final(out)@ == old(out)@ + spec_esc(bs@),
{
    let ghost pre = out@;
    let mut i: usize = 0;
    proof {
        assert(bs@.take(0) =~= Seq::<u8>::empty());
        assert(out@ =~= pre + spec_esc(bs@.take(0)));
    }
    while i < bs.len()
        invariant
            i <= bs@.len(),
            out@ == pre + spec_esc(bs@.take(i as int)),
        decreases bs@.len() - i,
    {
        let b = bs[i];
        if b == 0x22 {
            out.push(0x5cu8);
            out.push(0x22u8);
        } else if b == 0x5c {
            out.push(0x5cu8);
            out.push(0x5cu8);
        } else if b < 0x20 {
            out.push(0x5cu8);
            out.push(0x75u8);
            out.push(0x30u8);
            out.push(0x30u8);
            out.push(hex_digit(b / 16));
            out.push(hex_digit(b % 16));
        } else {
            out.push(b);
        }
        proof {
            lemma_esc_snoc(bs@, i as int);
            assert(out@ =~= pre + spec_esc(bs@.take(i + 1)));
        }
        i = i + 1;
    }
    proof {
        assert(bs@.take(i as int) =~= bs@);
    }
}

/// The JSON string form of a character sequence: a quote, the escaped
/// UTF-8 encoding, a quote.
pub open spec fn spec_jstr(s: Seq<char>) -> Seq<u8> {
    seq![0x22u8] + spec_esc(encode_utf8(s)) + seq![0x22u8]
}

/// Appends the JSON string form of a string value.
fn write_jstring(out: &mut Vec<u8>, s: &String)
    ensures
        final(out)@ == old(out)@ + spec_jstr(s@),
{
    out.push(0x22u8);
    let bs = s.as_str().as_bytes_vec();
    write_escaped(out, &bs);
    out.push(0x22u8);
    assert(final(out)@ =~= old(out)@ + spec_jstr(s@));
}

/// Appends the UTF-8 bytes of a fixed text, most often a key segment
/// of the document.
fn write_lit(out: &mut Vec<u8>, lit: &str)
    ensures
        final(out)@ == old(out)@ + encode_utf8(lit@),
{
    let mut bs = lit.as_bytes_vec();
    out.append(&mut bs);
}

/// One extension entry: key, colon, value, all in JSON string form.
pub open spec fn spec_extra_entry(p: (String, String)) -> Seq<u8> {
    spec_jstr(p.0@) + seq![0x3au8] + spec_jstr(p.1@)
}

/// The comma-separated extension entries, in stored order.
pub open spec fn spec_extra_entries(s: Seq<(String, String)>) -> Seq<u8>
    decreases s.len(),
{
    if s.len() == 0 {
        Seq::empty()
    } else if s.len() == 1 {
        spec_extra_entry(s[0])
    } else {
        spec_extra_entry(s[0]) + seq![0x2cu8] + spec_extra_entries(s.drop_first())
    }
}

/// The extension object: the entries inside braces.
pub open spec fn spec_extra_obj(s: Seq<(String, String)>) -> Seq<u8> {
    seq![0x7bu8] + spec_extra_entries(s) + seq![0x7du8]
}

/// Extends the serialized entries by one more entry, with its comma
/// when it is not the first.
proof fn lemma_extra_snoc(s: Seq<(String, String)>, i: int)
    requires
        0 <= i < s.len(),
    ensures
        spec_extra_entries(s.take(i + 1)) == spec_extra_entries(s.take(i)) + (if i == 0 {
            Seq::<u8>::empty()
        } else {
            seq![0x2cu8]
        }) + spec_extra_entry(s[i]),
    decreases i,
{
    if i == 0 {
        assert(s.take(1).len() == 1);
        assert(s.take(1)[0] == s[0]);
        assert(s.take(0) =~= Seq::<(String, String)>::empty());
        assert(spec_extra_entries(s.take(1)) =~= Seq::<u8>::empty() + Seq::<u8>::empty()
            + spec_extra_entry(s[0]));
    } else {
        lemma_extra_snoc(s.drop_first(), i - 1);
        assert(s.drop_first().take(i) =~= s.take(i + 1).drop_first());
        assert(s.drop_first().take(i - 1) =~= s.take(i).drop_first());
        assert(s.drop_first()[i - 1] == s[i]);
        assert(s.take(i + 1)[0] == s[0]);
        assert(s.take(i)[0] == s[0]);
        assert(s.take(i + 1).len() == i + 1);
        if i == 1 {
            assert(spec_extra_entries(s.take(2)) == spec_extra_entry(s[0]) + seq![0x2cu8]
                + spec_extra_entries(s.take(2).drop_first()));
            assert(spec_extra_entries(s.take(2).drop_first()) == spec_extra_entry(s[1]));
            assert(spec_extra_entries(s.take(1)) == spec_extra_entry(s[0]));
            assert(spec_extra_entries(s.take(2)) =~= spec_extra_entries(s.take(1)) + seq![0x2cu8]
                + spec_extra_entry(s[1]));
        } else {
            assert(spec_extra_entries(s.take(i + 1)) == spec_extra_entry(s[0]) + seq![0x2cu8]
                + spec_extra_entries(s.drop_first().take(i)));
            assert(spec_extra_entries(s.take(i)) == spec_extra_entry(s[0]) + seq![0x2cu8]
                + spec_extra_entries(s.drop_first().take(i - 1)));
            assert(spec_extra_entries(s.take(i)) + seq![0x2cu8] + spec_extra_entry(s[i])
                =~= spec_extra_entry(s[0]) + seq![0x2cu8] + (spec_extra_entries(
                s.drop_first().take(i - 1),
            ) + seq![0x2cu8] + spec_extra_entry(s.drop_first()[i - 1])));
        }
    }
}

/// Appends the extension object.
fn write_extra(out: &mut Vec<u8>, extra: &Vec<(String, String)>)
    ensures
        final(out)@ == old(out)@ + spec_extra_obj(extra@),
{
    let ghost pre = out@;
    out.push(0x7bu8);
    let mut i: usize = 0;
    proof {
        assert(extra@.take(0) =~= Seq::<(String, String)>::empty());
        assert(out@ =~= pre + seq![0x7bu8] + spec_extra_entries(extra@.take(0)));
    }
    while i < extra.len()
        invariant
            i <= extra@.len(),
            out@ == pre + seq![0x7bu8] + spec_extra_entries(extra@.take(i as int)),
        decreases extra@.len() - i,
    {
        if i > 0 {
            out.push(0x2cu8);
        }
        write_jstring(out, &extra[i].0);
        out.push(0x3au8);
        write_jstring(out, &extra[i].1);
        proof {
            lemma_extra_snoc(extra@, i as int);
            assert(out@ =~= pre + seq![0x7bu8] + spec_extra_entries(extra@.take(i + 1)));
        }
        i = i + 1;
    }
    out.push(0x7du8);
    proof {
        assert(extra@.take(i as int) =~= extra@);
        assert(final(out)@ =~= pre + spec_extra_obj(extra@));
    }
}

/// The exact JSON document of a metadata record: the fixed keys in
/// fixed order, numbers in decimal, string values quoted and escaped,
/// and the extension map last.
pub open spec fn spec_metadata_json(m: Metadata) -> Seq<u8> {
    encode_utf8("{\"dca\":{\"version\":"@) + spec_dec_i8(m.dca.version) + spec_tool_json(
        m.dca.tool,
    ) + spec_song_json(m.song_info) + spec_origin_json(m.origin) + spec_opus_json(m.opus)
        + encode_utf8("},\"extra\":"@) + spec_extra_obj(m.extra@) + encode_utf8("}"@)
}

/// The tool object's segment of the document.
pub open spec fn spec_tool_json(t: DCAToolMetadata) -> Seq<u8> {
    encode_utf8(",\"tool\":{\"name\":"@) + spec_jstr(t.name@) + encode_utf8(",\"version\":"@)
        + spec_jstr(t.version@) + encode_utf8(",\"url\":"@) + spec_jstr(t.url@) + encode_utf8(
        ",\"author\":"@,
    ) + spec_jstr(t.author@)
}

/// The song object's segment of the document.
pub open spec fn spec_song_json(sg: SongMetadata) -> Seq<u8> {
    encode_utf8("}},\"song_info\":{\"title\":"@) + spec_jstr(sg.title@) + encode_utf8(
        ",\"artist\":"@,
    ) + spec_jstr(sg.artist@) + encode_utf8(",\"album\":"@) + spec_jstr(sg.album@) + encode_utf8(
        ",\"genre\":"@,
    ) + spec_jstr(sg.genre@) + encode_utf8(",\"comments\":"@) + spec_jstr(sg.comments@)
        + encode_utf8(",\"cover\":"@) + spec_jstr(sg.cover@)
}

/// The origin object's segment of the document.
pub open spec fn spec_origin_json(o: OriginMetadata) -> Seq<u8> {
    encode_utf8("},\"origin\":{\"source\":"@) + spec_jstr(o.source@) + encode_utf8(
        ",\"bitrate\":"@,
    ) + spec_dec(o.bitrate as nat) + encode_utf8(",\"channels\":"@) + spec_dec(o.channels as nat)
        + encode_utf8(",\"encoding\":"@) + spec_jstr(o.encoding@) + encode_utf8(",\"url\":"@)
        + spec_jstr(o.url@)
}

/// The codec object's segment of the document.
pub open spec fn spec_opus_json(op: OpusMetadata) -> Seq<u8> {
    encode_utf8("},\"opus\":{\"bitrate\":"@) + spec_dec(op.bitrate as nat) + encode_utf8(
        ",\"sample_rate\":"@,
    ) + spec_dec(op.sample_rate as nat) + encode_utf8(",\"application\":"@) + spec_jstr(
        op.application@,
    ) + encode_utf8(",\"frame_size\":"@) + spec_dec(op.frame_size as nat) + encode_utf8(
        ",\"channels\":"@,
    ) + spec_dec(op.channels as nat)
}

/// Serializes a metadata record to its JSON document, exactly once
/// and byte for byte as `spec_metadata_json` lays it out.
#[verifier::rlimit(80)]
pub fn metadata_json_bytes(m: &Metadata) -> (r: Vec<u8>)
    ensures
        r@ == spec_metadata_json(*m),
{
    let mut out: Vec<u8> = Vec::new();
    write_lit(&mut out, "{\"dca\":{\"version\":");
    write_dec_i8(&mut out, m.dca.version);
    let ghost p1 = encode_utf8("{\"dca\":{\"version\":"@) + spec_dec_i8(m.dca.version);
    proof {
        assert(out@ =~= p1);
    }
    write_lit(&mut out, ",\"tool\":{\"name\":");
    write_jstring(&mut out, &m.dca.tool.name);
    write_lit(&mut out, ",\"version\":");
    write_jstring(&mut out, &m.dca.tool.version);
    write_lit(&mut out, ",\"url\":");
    write_jstring(&mut out, &m.dca.tool.url);
    write_lit(&mut out, ",\"author\":");
    write_jstring(&mut out, &m.dca.tool.author);
    let ghost p2 = p1 + spec_tool_json(m.dca.tool);
    proof {
        assert(out@ =~= p2);
    }
    write_lit(&mut out, "}},\"song_info\":{\"title\":");
    write_jstring(&mut out, &m.song_info.title);
    write_lit(&mut out, ",\"artist\":");
    write_jstring(&mut out, &m.song_info.artist);
    write_lit(&mut out, ",\"album\":");
    write_jstring(&mut out, &m.song_info.album);
    write_lit(&mut out, ",\"genre\":");
    write_jstring(&mut out, &m.song_info.genre);
    write_lit(&mut out, ",\"comments\":");
    write_jstring(&mut out, &m.song_info.comments);
    write_lit(&mut out, ",\"cover\":");
    write_jstring(&mut out, &m.song_info.cover);
    let ghost p3 = p2 + spec_song_json(m.song_info);
    proof {
        assert(out@ =~= p3);
    }
    write_lit(&mut out, "},\"origin\":{\"source\":");
    write_jstring(&mut out, &m.origin.source);
    write_lit(&mut out, ",\"bitrate\":");
    write_dec_u32(&mut out, m.origin.bitrate);
    write_lit(&mut out, ",\"channels\":");
    write_dec_u32(&mut out, m.origin.channels);
    write_lit(&mut out, ",\"encoding\":");
    write_jstring(&mut out, &m.origin.encoding);
    write_lit(&mut out, ",\"url\":");
    write_jstring(&mut out, &m.origin.url);
    let ghost p4 = p3 + spec_origin_json(m.origin);
    proof {
        assert(out@ =~= p4);
    }
    write_lit(&mut out, "},\"opus\":{\"bitrate\":");
    write_dec_u32(&mut out, m.opus.bitrate);
    write_lit(&mut out, ",\"sample_rate\":");
    write_dec_u32(&mut out, m.opus.sample_rate);
    write_lit(&mut out, ",\"application\":");
    write_jstring(&mut out, &m.opus.application);
    write_lit(&mut out, ",\"frame_size\":");
    write_dec_u32(&mut out, m.opus.frame_size);
    write_lit(&mut out, ",\"channels\":");
    write_dec_u32(&mut out, m.opus.channels);
    let ghost p5 = p4 + spec_opus_json(m.opus);
    proof {
        assert(out@ =~= p5);
    }
    write_lit(&mut out, "},\"extra\":");
    write_extra(&mut out, &m.extra);
    let ghost p6 = p5 + encode_utf8("},\"extra\":"@) + spec_extra_obj(m.extra@);
    proof {
        assert(out@ =~= p6);
    }
    write_lit(&mut out, "}");
    proof {
        assert(out@ =~= p6 + encode_utf8("}"@));
        assert(out@ == spec_metadata_json(*m));
    }
    out
}

/// An ASCII decimal digit.
pub open spec fn is_digit(b: u8) -> bool {
    0x30 <= b <= 0x39
}

/// How many leading bytes of a byte string are decimal digits.
pub open spec fn spec_scan_digits(b: Seq<u8>) -> int
    decreases b.len(),
{
    if b.len() > 0 && is_digit(b[0]) {
        1 + spec_scan_digits(b.drop_first())
    } else {
        0
    }
}

/// Reading an unsigned decimal number off the front of a byte
/// string: the maximal digit run, rejected when empty or past the
/// 32-bit range; what follows the run is handed back.
pub open spec fn spec_parse_num_u32(b: Seq<u8>) -> Option<(u32, Seq<u8>)> {
    let k = spec_scan_digits(b);
    if k == 0 {
        None
    } else if digits_val(b.take(k)) > u32::MAX {
        None
    } else {
        Some((digits_val(b.take(k)) as u32, b.skip(k)))
    }
}

/// Reading a signed byte-sized decimal number off the front of a
/// byte string.
pub open spec fn spec_parse_num_i8(b: Seq<u8>) -> Option<(i8, Seq<u8>)> {
    if b.len() > 0 && b[0] == 0x2d {
        let t = b.drop_first();
        let k = spec_scan_digits(t);
        if k == 0 {
            None
        } else if digits_val(t.take(k)) > 128 {
            None
        } else {
            Some(((0 - digits_val(t.take(k))) as i8, t.skip(k)))
        }
    } else {
        let k = spec_scan_digits(b);
        if k == 0 {
            None
        } else if digits_val(b.take(k)) > 127 {
            None
        } else {
            Some((digits_val(b.take(k)) as i8, b.skip(k)))
        }
    }
}

/// Every byte of a number's decimal form is a digit, and there is at
/// least one.
proof fn lemma_dec_all_digits(n: nat)
    ensures
        spec_dec(n).len() >= 1,
        all_digits(spec_dec(n)),
    decreases n,
{
    if n < 10 {
    } else {
        lemma_dec_all_digits(n / 10);
        let d = spec_dec(n / 10);
        assert forall|i: int| 0 <= i < spec_dec(n).len() implies 0x30 <= #[trigger] spec_dec(
            n,
        )[i] <= 0x39 by {
            if i < d.len() {
                assert(spec_dec(n)[i] == d[i]);
            }
        }
    }
}

/// The digit scan of a digit run followed by a non-digit covers
/// exactly the run.
proof fn lemma_scan_concat(d: Seq<u8>, rest: Seq<u8>)
    requires
        all_digits(d),
        rest.len() == 0 || !is_digit(rest[0]),
    ensures
        spec_scan_digits(d + rest) == d.len(),
    decreases d.len(),
{
    if d.len() == 0 {
        assert(d + rest =~= rest);
    } else {
        assert((d + rest)[0] == d[0]);
        assert((d + rest).drop_first() =~= d.drop_first() + rest);
        assert(all_digits(d.drop_first())) by {
            assert(forall|i: int|
                0 <= i < d.drop_first().len() ==> #[trigger] d.drop_first()[i] == d[i + 1]);
        }
        lemma_scan_concat(d.drop_first(), rest);
    }
}

/// A number's decimal form denotes the number itself.
proof fn lemma_val_dec(n: nat)
    ensures
        digits_val(spec_dec(n)) == n,
    decreases n,
{
    if n < 10 {
        assert(spec_dec(n).drop_last() =~= Seq::<u8>::empty());
        assert(spec_dec(n).last() == (0x30 + n) as u8);
        assert(digits_val(spec_dec(n)) == digits_val(Seq::<u8>::empty()) * 10 + n);
    } else {
        lemma_val_dec(n / 10);
        assert(spec_dec(n).drop_last() =~= spec_dec(n / 10));
        lemma_fundamental_div_mod(n as int, 10);
        assert(spec_dec(n).last() == (0x30 + n % 10) as u8);
        assert(0 <= n % 10 < 10);
        assert(digits_val(spec_dec(n)) == digits_val(spec_dec(n / 10)) * 10 + n % 10);
    }
}

/// Reading back an unsigned number written in decimal, with anything
/// non-numeric after it, recovers the number and the rest.
proof fn lemma_num_u32_round(n: u32, rest: Seq<u8>)
    requires
        rest.len() == 0 || !is_digit(rest[0]),
    ensures
        spec_parse_num_u32(spec_dec(n as nat) + rest) == Some((n, rest)),
{
    let d = spec_dec(n as nat);
    lemma_dec_all_digits(n as nat);
    lemma_scan_concat(d, rest);
    lemma_val_dec(n as nat);
    assert((d + rest).take(d.len() as int) =~= d);
    assert((d + rest).skip(d.len() as int) =~= rest);
}

/// Reading back a signed byte-sized number written in decimal.
proof fn lemma_num_i8_round(v: i8, rest: Seq<u8>)
    requires
        rest.len() == 0 || !is_digit(rest[0]),
    ensures
        spec_parse_num_i8(spec_dec_i8(v) + rest) == Some((v, rest)),
{
    if v >= 0 {
        let d = spec_dec(v as nat);
        lemma_dec_all_digits(v as nat);
        lemma_scan_concat(d, rest);
        lemma_val_dec(v as nat);
        assert((d + rest).len() > 0 && is_digit((d + rest)[0]));
        assert((d + rest)[0] != 0x2d);
        assert((d + rest).take(d.len() as int) =~= d);
        assert((d + rest).skip(d.len() as int) =~= rest);
    } else {
        let m = (-(v as int)) as nat;
        let d = spec_dec(m);
        let b = spec_dec_i8(v) + rest;
        assert(b[0] == 0x2d);
        assert(!is_digit(0x2d));
        assert(b.drop_first() =~= d + rest);
        lemma_dec_all_digits(m);
        lemma_scan_concat(d, rest);
        lemma_val_dec(m);
        assert((d + rest).take(d.len() as int) =~= d);
        assert((d + rest).skip(d.len() as int) =~= rest);
    }
}

/// An ASCII hex digit the escaper can produce (lowercase).
pub open spec fn is_hex(b: u8) -> bool {
    is_digit(b) || (0x61 <= b <= 0x66)
}

/// The value of such a hex digit.
pub open spec fn hex_val(b: u8) -> u8
    recommends
        is_hex(b),
{
    if is_digit(b) {
        (b - 0x30) as u8
    } else {
        (b - 0x57) as u8
    }
}

/// Undoing a JSON string body: bytes up to the closing quote, with
/// backslash escapes folded back; yields the content bytes and how
/// many input bytes were consumed, closing quote included.  Only the
/// escapes the serializer emits are understood.
pub open spec fn spec_unesc(b: Seq<u8>) -> Option<(Seq<u8>, int)>
    decreases b.len(),
{
    if b.len() == 0 {
        None
    } else if b[0] == 0x22 {
        Some((Seq::empty(), 1))
    } else if b[0] == 0x5c {
        if b.len() < 2 {
            None
        } else if b[1] == 0x22 || b[1] == 0x5c {
            match spec_unesc(b.skip(2)) {
                Some((content, k)) => Some((seq![b[1]] + content, 2 + k)),
                None => None,
            }
        } else if b[1] == 0x75 {
            if b.len() < 6 {
                None
            } else if b[2] == 0x30 && b[3] == 0x30 && is_hex(b[4]) && is_hex(b[5]) {
                match spec_unesc(b.skip(6)) {
                    Some((content, k)) => Some(
                        (seq![(hex_val(b[4]) * 16 + hex_val(b[5])) as u8] + content, 6 + k),
                    ),
                    None => None,
                }
            } else {
                None
            }
        } else {
            None
        }
    } else {
        match spec_unesc(b.skip(1)) {
            Some((content, k)) => Some((seq![b[0]] + content, 1 + k)),
            None => None,
        }
    }
}

/// A hex digit the escaper wrote reads back as its value.
proof fn lemma_hex_round(n: u8)
    requires
        n < 16,
    ensures
        is_hex(spec_hex_digit(n)),
        hex_val(spec_hex_digit(n)) == n,
{
}

/// Undoing what the escaper wrote, up to the closing quote, recovers
/// the original bytes and stops exactly at the quote.
proof fn lemma_unesc_round(content: Seq<u8>, rest: Seq<u8>)
    ensures
        spec_unesc(spec_esc(content) + seq![0x22u8] + rest) == Some(
            (content, spec_esc(content).len() as int + 1),
        ),
    decreases content.len(),
{
    let b = spec_esc(content) + seq![0x22u8] + rest;
    if content.len() == 0 {
        assert(spec_esc(content) =~= Seq::<u8>::empty());
        assert(b[0] == 0x22);
        assert(Some((Seq::<u8>::empty(), 1int)) == Some((content, spec_esc(content).len() as int + 1)));
    } else {
        let e = content.first();
        let tail = content.drop_first();
        assert(spec_esc(content) == spec_esc_byte(e) + spec_esc(tail));
        lemma_unesc_round(tail, rest);
        let inner = spec_esc(tail) + seq![0x22u8] + rest;
        if e == 0x22 {
            assert(b[0] == 0x5c && b[1] == 0x22);
            assert(b.skip(2) =~= inner);
            assert(seq![b[1]] + tail =~= content);
        } else if e == 0x5c {
            assert(b[0] == 0x5c && b[1] == 0x5c);
            assert(b.skip(2) =~= inner);
            assert(seq![b[1]] + tail =~= content);
        } else if e < 0x20 {
            assert(b[0] == 0x5c && b[1] == 0x75 && b[2] == 0x30 && b[3] == 0x30);
            assert(b[4] == spec_hex_digit(e / 16) && b[5] == spec_hex_digit(e % 16));
            lemma_hex_round(e / 16);
            lemma_hex_round(e % 16);
            assert(hex_val(b[4]) * 16 + hex_val(b[5]) == e) by {
                lemma_fundamental_div_mod(e as int, 16);
            }
            assert(b.skip(6) =~= inner);
            assert(seq![(hex_val(b[4]) * 16 + hex_val(b[5])) as u8] + tail =~= content);
        } else {
            assert(spec_esc_byte(e) =~= seq![e]);
            assert(b[0] == e);
            assert(b[0] != 0x22 && b[0] != 0x5c);
            assert(b.skip(1) =~= inner);
            assert(seq![b[0]] + tail =~= content);
        }
    }
}

/// Reading a JSON string value off the front of a byte string: an
/// opening quote, the unescaped body, and the characters the body's
/// UTF-8 denotes; what follows the closing quote is handed back.
pub open spec fn spec_parse_str(b: Seq<u8>) -> Option<(Seq<char>, Seq<u8>)> {
    if b.len() >= 1 && b[0] == 0x22 {
        match spec_unesc(b.skip(1)) {
            Some((content, k)) => if valid_utf8(content) {
                Some((decode_utf8(content), b.skip(1 + k)))
            } else {
                None
            },
            None => None,
        }
    } else {
        None
    }
}

/// Reading back a serialized string value recovers it, character for
/// character.
proof fn lemma_str_round(t: Seq<char>, rest: Seq<u8>)
    ensures
        spec_parse_str(spec_jstr(t) + rest) == Some((t, rest)),
{
    let b = spec_jstr(t) + rest;
    let content = encode_utf8(t);
    assert(b[0] == 0x22);
    assert(b.skip(1) =~= spec_esc(content) + seq![0x22u8] + rest);
    lemma_unesc_round(content, rest);
    broadcast use vstd::utf8::encode_utf8_valid_utf8;
    broadcast use vstd::utf8::encode_utf8_decode_utf8;
    assert(valid_utf8(content));
    assert(decode_utf8(content) == t);
    assert(b.skip(1).skip(spec_esc(content).len() as int + 1) =~= rest);
    assert(b.skip(1 + (spec_esc(content).len() as int + 1)) =~= rest);
}

/// Reading a fixed text off the front of a byte string; what follows
/// is handed back.
pub open spec fn spec_after_lit(b: Seq<u8>, l: Seq<u8>) -> Option<Seq<u8>> {
    if l.len() <= b.len() && b.take(l.len() as int) == l {
        Some(b.skip(l.len() as int))
    } else {
        None
    }
}

/// Reading a fixed text that is in fact there succeeds and hands
/// back what follows.
proof fn lemma_after_lit(l: Seq<u8>, r: Seq<u8>)
    ensures
        spec_after_lit(l + r, l) == Some(r),
{
    assert((l + r).take(l.len() as int) =~= l);
    assert((l + r).skip(l.len() as int) =~= r);
}

/// The mathematical content of a tool record: its fields as
/// character sequences.
pub ghost struct ToolModel {
    pub name: Seq<char>,
    pub version: Seq<char>,
    pub url: Seq<char>,
    pub author: Seq<char>,
}

/// The mathematical content of a song record.
pub ghost struct SongModel {
    pub title: Seq<char>,
    pub artist: Seq<char>,
    pub album: Seq<char>,
    pub genre: Seq<char>,
    pub comments: Seq<char>,
    pub cover: Seq<char>,
}

/// The mathematical content of an origin record.
pub ghost struct OriginModel {
    pub source: Seq<char>,
    pub bitrate: u32,
    pub channels: u32,
    pub encoding: Seq<char>,
    pub url: Seq<char>,
}

/// The mathematical content of a codec record.
pub ghost struct OpusModel {
    pub bitrate: u32,
    pub sample_rate: u32,
    pub application: Seq<char>,
    pub frame_size: u32,
    pub channels: u32,
}

/// The mathematical content of a whole metadata record, field for
/// field.
pub ghost struct MetaModel {
    pub version: i8,
    pub tool: ToolModel,
    pub song_info: SongModel,
    pub origin: OriginModel,
    pub opus: OpusModel,
    pub extra: Seq<(Seq<char>, Seq<char>)>,
}

/// The extension entries' content.
pub open spec fn extra_model(s: Seq<(String, String)>) -> Seq<(Seq<char>, Seq<char>)> {
    s.map_values(|p: (String, String)| (p.0@, p.1@))
}

/// What a metadata record says, field for field.
pub open spec fn spec_model(m: Metadata) -> MetaModel {
    MetaModel {
        version: m.dca.version,
        tool: ToolModel {
            name: m.dca.tool.name@,
            version: m.dca.tool.version@,
            url: m.dca.tool.url@,
            author: m.dca.tool.author@,
        },
        song_info: SongModel {
            title: m.song_info.title@,
            artist: m.song_info.artist@,
            album: m.song_info.album@,
            genre: m.song_info.genre@,
            comments: m.song_info.comments@,
            cover: m.song_info.cover@,
        },
        origin: OriginModel {
            source: m.origin.source@,
            bitrate: m.origin.bitrate,
            channels: m.origin.channels,
            encoding: m.origin.encoding@,
            url: m.origin.url@,
        },
        opus: OpusModel {
            bitrate: m.opus.bitrate,
            sample_rate: m.opus.sample_rate,
            application: m.opus.application@,
            frame_size: m.opus.frame_size,
            channels: m.opus.channels,
        },
        extra: extra_model(m.extra@),
    }
}

/// Reading the tool object's segment back.
pub open spec fn spec_parse_tool(b: Seq<u8>) -> Option<(ToolModel, Seq<u8>)> {
    match spec_after_lit(b, encode_utf8(",\"tool\":{\"name\":"@)) {
        Some(b1) => match spec_parse_str(b1) {
            Some((name, b2)) => match spec_after_lit(b2, encode_utf8(",\"version\":"@)) {
                Some(b3) => match spec_parse_str(b3) {
                    Some((version, b4)) => match spec_after_lit(b4, encode_utf8(",\"url\":"@)) {
                        Some(b5) => match spec_parse_str(b5) {
                            Some((url, b6)) => match spec_after_lit(
                                b6,
                                encode_utf8(",\"author\":"@),
                            ) {
                                Some(b7) => match spec_parse_str(b7) {
                                    Some((author, b8)) => Some(
                                        (ToolModel { name, version, url, author }, b8),
                                    ),
                                    None => None,
                                },
                                None => None,
                            },
                            None => None,
                        },
                        None => None,
                    },
                    None => None,
                },
                None => None,
            },
            None => None,
        },
        None => None,
    }
}

/// Reading the song object's segment back.
pub open spec fn spec_parse_song(b: Seq<u8>) -> Option<(SongModel, Seq<u8>)> {
    match spec_after_lit(b, encode_utf8("}},\"song_info\":{\"title\":"@)) {
        Some(b1) => match spec_parse_str(b1) {
            Some((title, b2)) => match spec_after_lit(b2, encode_utf8(",\"artist\":"@)) {
                Some(b3) => match spec_parse_str(b3) {
                    Some((artist, b4)) => match spec_after_lit(b4, encode_utf8(",\"album\":"@)) {
                        Some(b5) => match spec_parse_str(b5) {
                            Some((album, b6)) => match spec_after_lit(
                                b6,
                                encode_utf8(",\"genre\":"@),
                            ) {
                                Some(b7) => match spec_parse_str(b7) {
                                    Some((genre, b8)) => match spec_after_lit(
                                        b8,
                                        encode_utf8(",\"comments\":"@),
                                    ) {
                                        Some(b9) => match spec_parse_str(b9) {
                                            Some((comments, b10)) => match spec_after_lit(
                                                b10,
                                                encode_utf8(",\"cover\":"@),
                                            ) {
                                                Some(b11) => match spec_parse_str(b11) {
                                                    Some((cover, b12)) => Some(
                                                        (
                                                            SongModel {
                                                                title,
                                                                artist,
                                                                album,
                                                                genre,
                                                                comments,
                                                                cover,
                                                            },
                                                            b12,
                                                        ),
                                                    ),
                                                    None => None,
                                                },
                                                None => None,
                                            },
                                            None => None,
                                        },
                                        None => None,
                                    },
                                    None => None,
                                },
                                None => None,
                            },
                            None => None,
                        },
                        None => None,
                    },
                    None => None,
                },
                None => None,
            },
            None => None,
        },
        None => None,
    }
}

/// Reading the origin object's segment back.
pub open spec fn spec_parse_origin(b: Seq<u8>) -> Option<(OriginModel, Seq<u8>)> {
    match spec_after_lit(b, encode_utf8("},\"origin\":{\"source\":"@)) {
        Some(b1) => match spec_parse_str(b1) {
            Some((source, b2)) => match spec_after_lit(b2, encode_utf8(",\"bitrate\":"@)) {
                Some(b3) => match spec_parse_num_u32(b3) {
                    Some((bitrate, b4)) => match spec_after_lit(
                        b4,
                        encode_utf8(",\"channels\":"@),
                    ) {
                        Some(b5) => match spec_parse_num_u32(b5) {
                            Some((channels, b6)) => match spec_after_lit(
                                b6,
                                encode_utf8(",\"encoding\":"@),
                            ) {
                                Some(b7) => match spec_parse_str(b7) {
                                    Some((encoding, b8)) => match spec_after_lit(
                                        b8,
                                        encode_utf8(",\"url\":"@),
                                    ) {
                                        Some(b9) => match spec_parse_str(b9) {
                                            Some((url, b10)) => Some(
                                                (
                                                    OriginModel {
                                                        source,
                                                        bitrate,
                                                        channels,
                                                        encoding,
                                                        url,
                                                    },
                                                    b10,
                                                ),
                                            ),
                                            None => None,
                                        },
                                        None => None,
                                    },
                                    None => None,
                                },
                                None => None,
                            },
                            None => None,
                        },
                        None => None,
                    },
                    None => None,
                },
                None => None,
            },
            None => None,
        },
        None => None,
    }
}

/// Reading the codec object's segment back.
pub open spec fn spec_parse_opus(b: Seq<u8>) -> Option<(OpusModel, Seq<u8>)> {
    match spec_after_lit(b, encode_utf8("},\"opus\":{\"bitrate\":"@)) {
        Some(b1) => match spec_parse_num_u32(b1) {
            Some((bitrate, b2)) => match spec_after_lit(b2, encode_utf8(",\"sample_rate\":"@)) {
                Some(b3) => match spec_parse_num_u32(b3) {
                    Some((sample_rate, b4)) => match spec_after_lit(
                        b4,
                        encode_utf8(",\"application\":"@),
                    ) {
                        Some(b5) => match spec_parse_str(b5) {
                            Some((application, b6)) => match spec_after_lit(
                                b6,
                                encode_utf8(",\"frame_size\":"@),
                            ) {
                                Some(b7) => match spec_parse_num_u32(b7) {
                                    Some((frame_size, b8)) => match spec_after_lit(
                                        b8,
                                        encode_utf8(",\"channels\":"@),
                                    ) {
                                        Some(b9) => match spec_parse_num_u32(b9) {
                                            Some((channels, b10)) => Some(
                                                (
                                                    OpusModel {
                                                        bitrate,
                                                        sample_rate,
                                                        application,
                                                        frame_size,
                                                        channels,
                                                    },
                                                    b10,
                                                ),
                                            ),
                                            None => None,
                                        },
                                        None => None,
                                    },
                                    None => None,
                                },
                                None => None,
                            },
                            None => None,
                        },
                        None => None,
                    },
                    None => None,
                },
                None => None,
            },
            None => None,
        },
        None => None,
    }
}

/// Reading the extension entries back, one key/value pair per step;
/// the step count is bounded by the byte count.
pub open spec fn spec_parse_entries(b: Seq<u8>, fuel: nat) -> Option<
    (Seq<(Seq<char>, Seq<char>)>, Seq<u8>),
>
    decreases fuel,
{
    if fuel == 0 {
        None
    } else {
        match spec_parse_str(b) {
            Some((key, b1)) => if b1.len() >= 1 && b1[0] == 0x3a {
                match spec_parse_str(b1.skip(1)) {
                    Some((value, b2)) => if b2.len() >= 1 && b2[0] == 0x2c {
                        match spec_parse_entries(b2.skip(1), (fuel - 1) as nat) {
                            Some((entries, b3)) => Some((seq![(key, value)] + entries, b3)),
                            None => None,
                        }
                    } else if b2.len() >= 1 && b2[0] == 0x7d {
                        Some((seq![(key, value)], b2.skip(1)))
                    } else {
                        None
                    },
                    None => None,
                }
            } else {
                None
            },
            None => None,
        }
    }
}

/// Reading the extension object back.
pub open spec fn spec_parse_extra(b: Seq<u8>) -> Option<(Seq<(Seq<char>, Seq<char>)>, Seq<u8>)> {
    if b.len() >= 1 && b[0] == 0x7b {
        let t = b.skip(1);
        if t.len() >= 1 && t[0] == 0x7d {
            Some((Seq::empty(), t.skip(1)))
        } else {
            spec_parse_entries(t, t.len())
        }
    } else {
        None
    }
}

/// Reading a whole document back: every segment in order, with
/// nothing left after the closing brace.
pub open spec fn spec_parse_metadata(b: Seq<u8>) -> Option<MetaModel> {
    match spec_after_lit(b, encode_utf8("{\"dca\":{\"version\":"@)) {
        Some(b1) => match spec_parse_num_i8(b1) {
            Some((version, b2)) => match spec_parse_tool(b2) {
                Some((tool, b3)) => match spec_parse_song(b3) {
                    Some((song_info, b4)) => match spec_parse_origin(b4) {
                        Some((origin, b5)) => match spec_parse_opus(b5) {
                            Some((opus, b6)) => match spec_after_lit(
                                b6,
                                encode_utf8("},\"extra\":"@),
                            ) {
                                Some(b7) => match spec_parse_extra(b7) {
                                    Some((extra, b8)) => if b8 == encode_utf8("}"@) {
                                        Some(
                                            MetaModel {
                                                version,
                                                tool,
                                                song_info,
                                                origin,
                                                opus,
                                                extra,
                                            },
                                        )
                                    } else {
                                        None
                                    },
                                    None => None,
                                },
                                None => None,
                            },
                            None => None,
                        },
                        None => None,
                    },
                    None => None,
                },
                None => None,
            },
            None => None,
        },
        None => None,
    }
}

/// The first byte of the UTF-8 encoding of text that starts with an
/// ASCII character is that character.
proof fn lemma_ascii_first_byte(t: Seq<char>)
    requires
        t.len() > 0,
        (t[0] as u32) < 0x80,
    ensures
        encode_utf8(t).len() > 0,
        encode_utf8(t)[0] == (t[0] as u32) as u8,
{
    let v = t[0] as u32;
    assert(vstd::utf8::has_width_1_encoding(v));
    assert(encode_scalar(v) =~= seq![vstd::utf8::leading_byte_width_1(v)]);
    assert((v & 0x7f) == v) by (bit_vector)
        requires v < 0x80;
    assert(encode_utf8(t) == encode_scalar(v) + encode_utf8(t.drop_first()));
}

/// Key segments of the document start with a comma or closing brace,
/// so their encoding never begins with a digit.
proof fn lemma_lit_starts_nondigit(t: Seq<char>)
    requires
        t.len() > 0,
        t[0] == ',' || t[0] == '}',
    ensures
        encode_utf8(t).len() > 0,
        !is_digit(encode_utf8(t)[0]),
        encode_utf8(t)[0] != 0x2d,
{
    lemma_ascii_first_byte(t);
}

/// Reading the serialized tool object back recovers it.
#[verifier::rlimit(100)]
#[verifier::spinoff_prover]
proof fn lemma_tool_round(t: DCAToolMetadata, rest: Seq<u8>)
    ensures
        spec_parse_tool(spec_tool_json(t) + rest) == Some(
            (
                ToolModel {
                    name: t.name@,
                    version: t.version@,
                    url: t.url@,
                    author: t.author@,
                },
                rest,
            ),
        ),
{
    let b = spec_tool_json(t) + rest;
    let z7 = spec_jstr(t.author@) + rest;
    let z6 = encode_utf8(",\"author\":"@) + z7;
    let z5 = spec_jstr(t.url@) + z6;
    let z4 = encode_utf8(",\"url\":"@) + z5;
    let z3 = spec_jstr(t.version@) + z4;
    let z2 = encode_utf8(",\"version\":"@) + z3;
    let z1 = spec_jstr(t.name@) + z2;
    let l1 = encode_utf8(",\"tool\":{\"name\":"@);
    let l2 = encode_utf8(",\"version\":"@);
    let l3 = encode_utf8(",\"url\":"@);
    let l4 = encode_utf8(",\"author\":"@);
    let j1 = spec_jstr(t.name@);
    let j2 = spec_jstr(t.version@);
    let j3 = spec_jstr(t.url@);
    let j4 = spec_jstr(t.author@);
    seq_assoc3(l1 + j1 + l2 + j2 + l3 + j3 + l4, j4, rest);
    seq_assoc3(l1 + j1 + l2 + j2 + l3 + j3, l4, j4 + rest);
    seq_assoc3(l1 + j1 + l2 + j2 + l3, j3, l4 + (j4 + rest));
    seq_assoc3(l1 + j1 + l2 + j2, l3, j3 + (l4 + (j4 + rest)));
    seq_assoc3(l1 + j1 + l2, j2, l3 + (j3 + (l4 + (j4 + rest))));
    seq_assoc3(l1 + j1, l2, j2 + (l3 + (j3 + (l4 + (j4 + rest)))));
    seq_assoc3(l1, j1, l2 + (j2 + (l3 + (j3 + (l4 + (j4 + rest))))));
    assert(b == l1 + z1);
    lemma_after_lit(encode_utf8(",\"tool\":{\"name\":"@), z1);
    lemma_str_round(t.name@, z2);
    lemma_after_lit(encode_utf8(",\"version\":"@), z3);
    lemma_str_round(t.version@, z4);
    lemma_after_lit(encode_utf8(",\"url\":"@), z5);
    lemma_str_round(t.url@, z6);
    lemma_after_lit(encode_utf8(",\"author\":"@), z7);
    lemma_str_round(t.author@, rest);
}

/// Reading the serialized song object back recovers it.
#[verifier::rlimit(100)]
#[verifier::spinoff_prover]
proof fn lemma_song_round(sg: SongMetadata, rest: Seq<u8>)
    ensures
        spec_parse_song(spec_song_json(sg) + rest) == Some(
            (
                SongModel {
                    title: sg.title@,
                    artist: sg.artist@,
                    album: sg.album@,
                    genre: sg.genre@,
                    comments: sg.comments@,
                    cover: sg.cover@,
                },
                rest,
            ),
        ),
{
    let b = spec_song_json(sg) + rest;
    let z11 = spec_jstr(sg.cover@) + rest;
    let z10 = encode_utf8(",\"cover\":"@) + z11;
    let z9 = spec_jstr(sg.comments@) + z10;
    let z8 = encode_utf8(",\"comments\":"@) + z9;
    let z7 = spec_jstr(sg.genre@) + z8;
    let z6 = encode_utf8(",\"genre\":"@) + z7;
    let z5 = spec_jstr(sg.album@) + z6;
    let z4 = encode_utf8(",\"album\":"@) + z5;
    let z3 = spec_jstr(sg.artist@) + z4;
    let z2 = encode_utf8(",\"artist\":"@) + z3;
    let z1 = spec_jstr(sg.title@) + z2;
    let l1 = encode_utf8("}},\"song_info\":{\"title\":"@);
    let l2 = encode_utf8(",\"artist\":"@);
    let l3 = encode_utf8(",\"album\":"@);
    let l4 = encode_utf8(",\"genre\":"@);
    let l5 = encode_utf8(",\"comments\":"@);
    let l6 = encode_utf8(",\"cover\":"@);
    let j1 = spec_jstr(sg.title@);
    let j2 = spec_jstr(sg.artist@);
    let j3 = spec_jstr(sg.album@);
    let j4 = spec_jstr(sg.genre@);
    let j5 = spec_jstr(sg.comments@);
    let j6 = spec_jstr(sg.cover@);
    seq_assoc3(l1 + j1 + l2 + j2 + l3 + j3 + l4 + j4 + l5 + j5 + l6, j6, rest);
    seq_assoc3(l1 + j1 + l2 + j2 + l3 + j3 + l4 + j4 + l5 + j5, l6, j6 + rest);
    seq_assoc3(l1 + j1 + l2 + j2 + l3 + j3 + l4 + j4 + l5, j5, l6 + (j6 + rest));
    seq_assoc3(l1 + j1 + l2 + j2 + l3 + j3 + l4 + j4, l5, j5 + (l6 + (j6 + rest)));
    seq_assoc3(l1 + j1 + l2 + j2 + l3 + j3 + l4, j4, l5 + (j5 + (l6 + (j6 + rest))));
    seq_assoc3(l1 + j1 + l2 + j2 + l3 + j3, l4, j4 + (l5 + (j5 + (l6 + (j6 + rest)))));
    seq_assoc3(l1 + j1 + l2 + j2 + l3, j3, l4 + (j4 + (l5 + (j5 + (l6 + (j6 + rest))))));
    seq_assoc3(l1 + j1 + l2 + j2, l3, j3 + (l4 + (j4 + (l5 + (j5 + (l6 + (j6 + rest)))))));
    seq_assoc3(l1 + j1 + l2, j2, l3 + (j3 + (l4 + (j4 + (l5 + (j5 + (l6 + (j6 + rest))))))));
    seq_assoc3(l1 + j1, l2, j2 + (l3 + (j3 + (l4 + (j4 + (l5 + (j5 + (l6 + (j6 + rest)))))))));
    seq_assoc3(l1, j1, l2 + (j2 + (l3 + (j3 + (l4 + (j4 + (l5 + (j5 + (l6 + (j6 + rest))))))))));
    assert(b == l1 + z1);
    lemma_after_lit(encode_utf8("}},\"song_info\":{\"title\":"@), z1);
    lemma_str_round(sg.title@, z2);
    lemma_after_lit(encode_utf8(",\"artist\":"@), z3);
    lemma_str_round(sg.artist@, z4);
    lemma_after_lit(encode_utf8(",\"album\":"@), z5);
    lemma_str_round(sg.album@, z6);
    lemma_after_lit(encode_utf8(",\"genre\":"@), z7);
    lemma_str_round(sg.genre@, z8);
    lemma_after_lit(encode_utf8(",\"comments\":"@), z9);
    lemma_str_round(sg.comments@, z10);
    lemma_after_lit(encode_utf8(",\"cover\":"@), z11);
    lemma_str_round(sg.cover@, rest);
}


/// The segment texts that can follow a number all start with a comma
/// or a closing brace.
proof fn lemma_seg_nondigit(t: Seq<char>)
    requires
        t == ",\"tool\":{\"name\":"@ || t == ",\"channels\":"@ || t == ",\"encoding\":"@
            || t == ",\"sample_rate\":"@ || t == ",\"application\":"@ || t == "},\"extra\":"@,
    ensures
        encode_utf8(t).len() > 0,
        !is_digit(encode_utf8(t)[0]),
        encode_utf8(t)[0] != 0x2d,
{
    reveal_strlit(",\"tool\":{\"name\":");
    reveal_strlit(",\"channels\":");
    reveal_strlit(",\"encoding\":");
    reveal_strlit(",\"sample_rate\":");
    reveal_strlit(",\"application\":");
    reveal_strlit("},\"extra\":");
    lemma_lit_starts_nondigit(t);
}

/// Reading the serialized origin object back recovers it.
#[verifier::rlimit(100)]
#[verifier::spinoff_prover]
proof fn lemma_origin_round(o: OriginMetadata, rest: Seq<u8>)
    ensures
        spec_parse_origin(spec_origin_json(o) + rest) == Some(
            (
                OriginModel {
                    source: o.source@,
                    bitrate: o.bitrate,
                    channels: o.channels,
                    encoding: o.encoding@,
                    url: o.url@,
                },
                rest,
            ),
        ),
{
    let b = spec_origin_json(o) + rest;
    let z9 = spec_jstr(o.url@) + rest;
    let z8 = encode_utf8(",\"url\":"@) + z9;
    let z7 = spec_jstr(o.encoding@) + z8;
    let z6 = encode_utf8(",\"encoding\":"@) + z7;
    let z5 = spec_dec(o.channels as nat) + z6;
    let z4 = encode_utf8(",\"channels\":"@) + z5;
    let z3 = spec_dec(o.bitrate as nat) + z4;
    let z2 = encode_utf8(",\"bitrate\":"@) + z3;
    let z1 = spec_jstr(o.source@) + z2;
    let l1 = encode_utf8("},\"origin\":{\"source\":"@);
    let l2 = encode_utf8(",\"bitrate\":"@);
    let l3 = encode_utf8(",\"channels\":"@);
    let l4 = encode_utf8(",\"encoding\":"@);
    let l5 = encode_utf8(",\"url\":"@);
    let j1 = spec_jstr(o.source@);
    let d1 = spec_dec(o.bitrate as nat);
    let d2 = spec_dec(o.channels as nat);
    let j2 = spec_jstr(o.encoding@);
    let j3 = spec_jstr(o.url@);
    seq_assoc3(l1 + j1 + l2 + d1 + l3 + d2 + l4 + j2 + l5, j3, rest);
    seq_assoc3(l1 + j1 + l2 + d1 + l3 + d2 + l4 + j2, l5, j3 + rest);
    seq_assoc3(l1 + j1 + l2 + d1 + l3 + d2 + l4, j2, l5 + (j3 + rest));
    seq_assoc3(l1 + j1 + l2 + d1 + l3 + d2, l4, j2 + (l5 + (j3 + rest)));
    seq_assoc3(l1 + j1 + l2 + d1 + l3, d2, l4 + (j2 + (l5 + (j3 + rest))));
    seq_assoc3(l1 + j1 + l2 + d1, l3, d2 + (l4 + (j2 + (l5 + (j3 + rest)))));
    seq_assoc3(l1 + j1 + l2, d1, l3 + (d2 + (l4 + (j2 + (l5 + (j3 + rest))))));
    seq_assoc3(l1 + j1, l2, d1 + (l3 + (d2 + (l4 + (j2 + (l5 + (j3 + rest)))))));
    seq_assoc3(l1, j1, l2 + (d1 + (l3 + (d2 + (l4 + (j2 + (l5 + (j3 + rest))))))));
    assert(b == l1 + z1);
    lemma_after_lit(encode_utf8("},\"origin\":{\"source\":"@), z1);
    lemma_str_round(o.source@, z2);
    lemma_after_lit(encode_utf8(",\"bitrate\":"@), z3);
    lemma_seg_nondigit(",\"channels\":"@);
    assert(z4[0] == encode_utf8(",\"channels\":"@)[0]);
    lemma_num_u32_round(o.bitrate, z4);
    lemma_after_lit(encode_utf8(",\"channels\":"@), z5);
    lemma_seg_nondigit(",\"encoding\":"@);
    assert(z6[0] == encode_utf8(",\"encoding\":"@)[0]);
    lemma_num_u32_round(o.channels, z6);
    lemma_after_lit(encode_utf8(",\"encoding\":"@), z7);
    lemma_str_round(o.encoding@, z8);
    lemma_after_lit(encode_utf8(",\"url\":"@), z9);
    lemma_str_round(o.url@, rest);
}


/// Regrouping of the codec segment for reading it back.
#[verifier::rlimit(100)]
#[verifier::spinoff_prover]
proof fn lemma_opus_assoc(op: OpusMetadata, rest: Seq<u8>)
    ensures
        spec_opus_json(op) + rest == encode_utf8("},\"opus\":{\"bitrate\":"@) + (spec_dec(
            op.bitrate as nat,
        ) + (encode_utf8(",\"sample_rate\":"@) + (spec_dec(op.sample_rate as nat) + (encode_utf8(
            ",\"application\":"@,
        ) + (spec_jstr(op.application@) + (encode_utf8(",\"frame_size\":"@) + (spec_dec(
            op.frame_size as nat,
        ) + (encode_utf8(",\"channels\":"@) + (spec_dec(op.channels as nat) + rest))))))))),
{
    let l1 = encode_utf8("},\"opus\":{\"bitrate\":"@);
    let l2 = encode_utf8(",\"sample_rate\":"@);
    let l3 = encode_utf8(",\"application\":"@);
    let l4 = encode_utf8(",\"frame_size\":"@);
    let l5 = encode_utf8(",\"channels\":"@);
    let d1 = spec_dec(op.bitrate as nat);
    let d2 = spec_dec(op.sample_rate as nat);
    let j1 = spec_jstr(op.application@);
    let d3 = spec_dec(op.frame_size as nat);
    let d4 = spec_dec(op.channels as nat);
    seq_assoc3(l1 + d1 + l2 + d2 + l3 + j1 + l4 + d3 + l5, d4, rest);
    seq_assoc3(l1 + d1 + l2 + d2 + l3 + j1 + l4 + d3, l5, d4 + rest);
    seq_assoc3(l1 + d1 + l2 + d2 + l3 + j1 + l4, d3, l5 + (d4 + rest));
    seq_assoc3(l1 + d1 + l2 + d2 + l3 + j1, l4, d3 + (l5 + (d4 + rest)));
    seq_assoc3(l1 + d1 + l2 + d2 + l3, j1, l4 + (d3 + (l5 + (d4 + rest))));
    seq_assoc3(l1 + d1 + l2 + d2, l3, j1 + (l4 + (d3 + (l5 + (d4 + rest)))));
    seq_assoc3(l1 + d1 + l2, d2, l3 + (j1 + (l4 + (d3 + (l5 + (d4 + rest))))));
    seq_assoc3(l1 + d1, l2, d2 + (l3 + (j1 + (l4 + (d3 + (l5 + (d4 + rest)))))));
    seq_assoc3(l1, d1, l2 + (d2 + (l3 + (j1 + (l4 + (d3 + (l5 + (d4 + rest))))))));
}

/// Reading the serialized codec object back recovers it; whatever
/// follows the object must not begin with a digit, as the document's
/// next segment never does.
#[verifier::rlimit(100)]
#[verifier::spinoff_prover]
proof fn lemma_opus_round(op: OpusMetadata, rest: Seq<u8>)
    requires
        rest.len() > 0,
        !is_digit(rest[0]),
    ensures
        spec_parse_opus(spec_opus_json(op) + rest) == Some(
            (
                OpusModel {
                    bitrate: op.bitrate,
                    sample_rate: op.sample_rate,
                    application: op.application@,
                    frame_size: op.frame_size,
                    channels: op.channels,
                },
                rest,
            ),
        ),
{
    let b = spec_opus_json(op) + rest;
    let z9 = spec_dec(op.channels as nat) + rest;
    let z8 = encode_utf8(",\"channels\":"@) + z9;
    let z7 = spec_dec(op.frame_size as nat) + z8;
    let z6 = encode_utf8(",\"frame_size\":"@) + z7;
    let z5 = spec_jstr(op.application@) + z6;
    let z4 = encode_utf8(",\"application\":"@) + z5;
    let z3 = spec_dec(op.sample_rate as nat) + z4;
    let z2 = encode_utf8(",\"sample_rate\":"@) + z3;
    let z1 = spec_dec(op.bitrate as nat) + z2;
    lemma_opus_assoc(op, rest);
    lemma_after_lit(encode_utf8("},\"opus\":{\"bitrate\":"@), z1);
    lemma_seg_nondigit(",\"sample_rate\":"@);
    assert(z2[0] == encode_utf8(",\"sample_rate\":"@)[0]);
    lemma_num_u32_round(op.bitrate, z2);
    lemma_after_lit(encode_utf8(",\"sample_rate\":"@), z3);
    lemma_seg_nondigit(",\"application\":"@);
    assert(z4[0] == encode_utf8(",\"application\":"@)[0]);
    lemma_num_u32_round(op.sample_rate, z4);
    lemma_after_lit(encode_utf8(",\"application\":"@), z5);
    lemma_str_round(op.application@, z6);
    lemma_after_lit(encode_utf8(",\"frame_size\":"@), z7);
    lemma_seg_nondigit(",\"channels\":"@);
    assert(z8[0] == encode_utf8(",\"channels\":"@)[0]);
    lemma_num_u32_round(op.frame_size, z8);
    lemma_after_lit(encode_utf8(",\"channels\":"@), z9);
    lemma_num_u32_round(op.channels, rest);
}

/// Serialized extension entries take at least one byte each.
proof fn lemma_entries_len(s: Seq<(String, String)>)
    ensures
        spec_extra_entries(s).len() >= s.len(),
    decreases s.len(),
{
    if s.len() == 0 {
    } else if s.len() == 1 {
    } else {
        lemma_entries_len(s.drop_first());
    }
}

/// Reading serialized extension entries back recovers them; the step
/// budget just has to cover the entry count.
#[verifier::rlimit(100)]
#[verifier::spinoff_prover]
proof fn lemma_entries_round(s: Seq<(String, String)>, rest: Seq<u8>, fuel: nat)
    requires
        s.len() >= 1,
        fuel >= s.len(),
    ensures
        spec_parse_entries(spec_extra_entries(s) + seq![0x7du8] + rest, fuel) == Some(
            (extra_model(s), rest),
        ),
    decreases s.len(),
{
    let b = spec_extra_entries(s) + seq![0x7du8] + rest;
    let k = s[0].0;
    let v = s[0].1;
    if s.len() == 1 {
        let z3 = seq![0x7du8] + rest;
        let z2 = spec_jstr(v@) + z3;
        let z1 = seq![0x3au8] + z2;
        assert(b =~= spec_jstr(k@) + z1);
        lemma_str_round(k@, z1);
        assert(z1[0] == 0x3a);
        assert(z1.skip(1) =~= z2);
        lemma_str_round(v@, z3);
        assert(z3[0] == 0x7d);
        assert(z3.skip(1) =~= rest);
        assert(extra_model(s) =~= seq![(k@, v@)]);
    } else {
        let tail = s.drop_first();
        let z4 = spec_extra_entries(tail) + seq![0x7du8] + rest;
        let z3 = seq![0x2cu8] + z4;
        let z2 = spec_jstr(v@) + z3;
        let z1 = seq![0x3au8] + z2;
        assert(b =~= spec_jstr(k@) + z1);
        lemma_str_round(k@, z1);
        assert(z1[0] == 0x3a);
        assert(z1.skip(1) =~= z2);
        lemma_str_round(v@, z3);
        assert(z3[0] == 0x2c);
        assert(z3.skip(1) =~= z4);
        lemma_entries_round(tail, rest, (fuel - 1) as nat);
        assert(extra_model(s) =~= seq![(k@, v@)] + extra_model(tail));
    }
}

/// Reading the serialized extension object back recovers it.
proof fn lemma_extra_round(s: Seq<(String, String)>, rest: Seq<u8>)
    ensures
        spec_parse_extra(spec_extra_obj(s) + rest) == Some((extra_model(s), rest)),
{
    let b = spec_extra_obj(s) + rest;
    assert(b[0] == 0x7b);
    let t = b.skip(1);
    assert(t =~= spec_extra_entries(s) + seq![0x7du8] + rest);
    if s.len() == 0 {
        assert(spec_extra_entries(s) =~= Seq::<u8>::empty());
        assert(t[0] == 0x7d);
        assert(t.skip(1) =~= rest);
        assert(extra_model(s) =~= Seq::<(Seq<char>, Seq<char>)>::empty());
    } else {
        assert(spec_extra_entries(s)[0] == 0x22) by {
            if s.len() == 1 {
                assert(spec_extra_entries(s) == spec_extra_entry(s[0]));
            }
            assert(spec_extra_entry(s[0])[0] == 0x22);
        }
        assert(t[0] == 0x22);
        lemma_entries_len(s);
        assert(t.len() >= s.len());
        lemma_entries_round(s, rest, t.len());
    }
}


/// Concatenation of byte strings associates.
proof fn seq_assoc3(a: Seq<u8>, b: Seq<u8>, c: Seq<u8>)
    ensures
        a + b + c == a + (b + c),
{
    assert(a + b + c =~= a + (b + c));
}

/// Regrouping of the whole document for reading it back.
proof fn lemma_doc_assoc(m: Metadata)
    ensures
        spec_metadata_json(m) == encode_utf8("{\"dca\":{\"version\":"@) + (spec_dec_i8(
            m.dca.version,
        ) + (spec_tool_json(m.dca.tool) + (spec_song_json(m.song_info) + (spec_origin_json(
            m.origin,
        ) + (spec_opus_json(m.opus) + (encode_utf8("},\"extra\":"@) + (spec_extra_obj(m.extra@)
            + encode_utf8("}"@)))))))),
{
    let l = encode_utf8("{\"dca\":{\"version\":"@);
    let d = spec_dec_i8(m.dca.version);
    let t = spec_tool_json(m.dca.tool);
    let sg = spec_song_json(m.song_info);
    let o = spec_origin_json(m.origin);
    let p = spec_opus_json(m.opus);
    let e = encode_utf8("},\"extra\":"@);
    let x = spec_extra_obj(m.extra@);
    let z = encode_utf8("}"@);
    seq_assoc3(l + d + t + sg + o + p + e, x, z);
    seq_assoc3(l + d + t + sg + o + p, e, x + z);
    seq_assoc3(l + d + t + sg + o, p, e + (x + z));
    seq_assoc3(l + d + t + sg, o, p + (e + (x + z)));
    seq_assoc3(l + d + t, sg, o + (p + (e + (x + z))));
    seq_assoc3(l + d, t, sg + (o + (p + (e + (x + z)))));
    seq_assoc3(l, d, t + (sg + (o + (p + (e + (x + z))))));
}

/// Round trip of the metadata document: serializing any metadata
/// record and reading the document back recovers the record field
/// for field, every tag, number and extension entry included.
#[verifier::rlimit(100)]
#[verifier::spinoff_prover]
pub proof fn lemma_metadata_round_trip(m: Metadata)
    ensures
        spec_parse_metadata(spec_metadata_json(m)) == Some(spec_model(m)),
{
    let b = spec_metadata_json(m);
    let z7 = encode_utf8("}"@);
    let z6 = spec_extra_obj(m.extra@) + z7;
    let z5 = encode_utf8("},\"extra\":"@) + z6;
    let z4 = spec_opus_json(m.opus) + z5;
    let z3 = spec_origin_json(m.origin) + z4;
    let z2 = spec_song_json(m.song_info) + z3;
    let z1 = spec_tool_json(m.dca.tool) + z2;
    let z0 = spec_dec_i8(m.dca.version) + z1;
    lemma_doc_assoc(m);
    lemma_after_lit(encode_utf8("{\"dca\":{\"version\":"@), z0);
    lemma_seg_nondigit(",\"tool\":{\"name\":"@);
    assert(z1[0] == encode_utf8(",\"tool\":{\"name\":"@)[0]);
    lemma_num_i8_round(m.dca.version, z1);
    lemma_tool_round(m.dca.tool, z2);
    lemma_song_round(m.song_info, z3);
    lemma_origin_round(m.origin, z4);
    lemma_seg_nondigit("},\"extra\":"@);
    assert(z5[0] == encode_utf8("},\"extra\":"@)[0]);
    lemma_opus_round(m.opus, z5);
    lemma_after_lit(encode_utf8("},\"extra\":"@), z6);
    lemma_extra_round(m.extra@, z7);
}

} // verus!
