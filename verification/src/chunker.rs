//! Frame chunker: groups a little-endian 16-bit PCM byte stream into
//! fixed-size frames, zero-padding the final short frame.

use vstd::arithmetic::div_mod::{
    lemma_fundamental_div_mod,
    lemma_fundamental_div_mod_converse,
    lemma_mod_bound,
};
use vstd::prelude::*;

verus! {

/// The sample a little-endian byte pair denotes.
pub open spec fn spec_sample_from_le(lo: u8, hi: u8) -> i16 {
    ((lo as u16) | ((hi as u16) << 8)) as i16
}

/// The samples a raw byte stream denotes: consecutive little-endian
/// byte pairs; a trailing odd byte carries no complete sample and is
/// discarded.
pub open spec fn spec_samples(bytes: Seq<u8>) -> Seq<i16> {
    Seq::new(bytes.len() / 2, |i: int| spec_sample_from_le(bytes[2 * i], bytes[2 * i + 1]))
}

/// A run of zero samples.
pub open spec fn zero_samples(n: nat) -> Seq<i16> {
    Seq::new(n, |i: int| 0i16)
}

/// The frames a sample stream is chunked into: full frames of
/// `frame_len` samples in stream order, the final short frame padded
/// with zeros up to `frame_len`; an empty stream yields no frame.
pub open spec fn spec_frames(samples: Seq<i16>, frame_len: nat) -> Seq<Seq<i16>>
    recommends
        frame_len >= 1,
    decreases samples.len(),
    when frame_len >= 1
{
    if samples.len() == 0 {
        Seq::empty()
    } else if samples.len() >= frame_len {
        seq![samples.take(frame_len as int)] + spec_frames(samples.skip(frame_len as int), frame_len)
    } else {
        seq![samples + zero_samples((frame_len - samples.len()) as nat)]
    }
}

/// Decodes one sample from its little-endian byte pair.
pub fn sample_from_le(lo: u8, hi: u8) -> (r: i16)
    ensures
        r == spec_sample_from_le(lo, hi),
{
    ((lo as u16) | ((hi as u16) << 8)) as i16
}

/// Decodes a raw byte stream into its samples, discarding a trailing
/// odd byte.
pub fn samples_from_bytes(bytes: &Vec<u8>) -> (r: Vec<i16>)
    ensures
        r@ == spec_samples(bytes@),
{
    let blen = bytes.len();
    let n = blen / 2;
    let mut out: Vec<i16> = Vec::new();
    let mut i: usize = 0;
    while i < n
        invariant
            blen == bytes@.len(),
            n == bytes@.len() / 2,
            i <= n,
            out@.len() == i,
            forall|j: int| 0 <= j < i ==> out@[j] == #[trigger] spec_samples(bytes@)[j],
        decreases n - i,
    {
        assert(2 * i + 1 < bytes@.len());
        out.push(sample_from_le(bytes[2 * i], bytes[2 * i + 1]));
        i = i + 1;
    }
    assert(out@ =~= spec_samples(bytes@));
    out
}

/// Pads a non-empty short frame with zero samples until its length is
/// a multiple of the frame length, which for a short frame means
/// exactly the frame length.
pub fn pad_frame(frame: &mut Vec<i16>, frame_len: usize)
    requires
        frame_len >= 1,
        1 <= old(frame)@.len() <= frame_len,
    ensures
        final(frame)@ == old(frame)@ + zero_samples((frame_len - old(frame)@.len()) as nat),
        final(frame)@.len() == frame_len,
{
    while frame.len() % frame_len != 0
        invariant
            frame_len >= 1,
            1 <= frame@.len() <= frame_len,
            old(frame)@.len() <= frame@.len(),
            frame@ == old(frame)@ + zero_samples((frame@.len() - old(frame)@.len()) as nat),
        decreases frame_len - frame@.len(),
    {
        assert(frame@.len() < frame_len) by {
            if frame@.len() == frame_len {
                assert(frame@.len() as int % frame_len as int == 0) by (nonlinear_arith)
                    requires frame@.len() == frame_len, frame_len >= 1;
            }
        }
        frame.push(0i16);
        assert(frame@ =~= old(frame)@ + zero_samples((frame@.len() - old(frame)@.len()) as nat));
    }
    assert(frame@.len() == frame_len) by {
        assert(frame@.len() as int % frame_len as int == 0);
        assert(1 <= frame@.len() <= frame_len);
        assert(frame@.len() as int % frame_len as int == frame@.len() as int || frame@.len()
            == frame_len) by (nonlinear_arith)
            requires 1 <= frame@.len() <= frame_len;
    }
}

/// Chunks a whole sample stream into frames, in stream order, padding
/// the final short frame with zeros.
pub fn chunk_frames(samples: &Vec<i16>, frame_len: usize) -> (frames: Vec<Vec<i16>>)
    requires
        frame_len >= 1,
    ensures
        frames.deep_view() == spec_frames(samples@, frame_len as nat),
{
    let mut frames: Vec<Vec<i16>> = Vec::new();
    let mut pos: usize = 0;
    let total = samples.len();
    proof {
        assert(total == samples@.len());
        assert(samples@.skip(0) =~= samples@);
        assert(frames.deep_view() =~= Seq::<Seq<i16>>::empty());
        assert(frames.deep_view() + spec_frames(samples@, frame_len as nat) =~= spec_frames(
            samples@,
            frame_len as nat,
        ));
    }
    while pos < samples.len()
        invariant
            frame_len >= 1,
            samples@.len() <= usize::MAX,
            pos <= samples@.len(),
            spec_frames(samples@, frame_len as nat) == frames.deep_view() + spec_frames(
                samples@.skip(pos as int),
                frame_len as nat,
            ),
        decreases samples@.len() - pos,
    {
        let remaining = samples.len() - pos;
        let take = if remaining < frame_len {
            remaining
        } else {
            frame_len
        };
        let mut frame: Vec<i16> = Vec::new();
        let mut j: usize = 0;
        while j < take
            invariant
                samples@.len() <= usize::MAX,
                pos + take <= samples@.len(),
                j <= take,
                frame@ == samples@.subrange(pos as int, pos + j as int),
            decreases take - j,
        {
            assert(pos + j < samples@.len());
            frame.push(samples[pos + j]);
            assert(frame@ =~= samples@.subrange(pos as int, pos + j + 1 as int));
            j = j + 1;
        }
        if take < frame_len {
            pad_frame(&mut frame, frame_len);
        }
        proof {
            let rest = samples@.skip(pos as int);
            assert(rest.len() == samples@.len() - pos);
            if remaining >= frame_len {
                assert(rest.take(frame_len as int) =~= samples@.subrange(
                    pos as int,
                    pos + frame_len as int,
                ));
                assert(rest.skip(frame_len as int) =~= samples@.skip(pos + frame_len as int));
                assert(spec_frames(rest, frame_len as nat) == seq![frame@] + spec_frames(
                    samples@.skip(pos + frame_len as int),
                    frame_len as nat,
                ));
            } else {
                assert(rest.take(remaining as int) =~= samples@.subrange(
                    pos as int,
                    pos + remaining as int,
                ));
                assert(rest =~= samples@.subrange(pos as int, pos + remaining as int));
                assert(spec_frames(rest, frame_len as nat) == seq![frame@]);
            }
        }
        let ghost old_frames = frames.deep_view();
        frames.push(frame);
        proof {
            assert(frames.deep_view() =~~= old_frames + seq![frame@]);
        }
        pos = pos + take;
        proof {
            assert(spec_frames(samples@, frame_len as nat) =~~= frames.deep_view() + spec_frames(
                samples@.skip(pos as int),
                frame_len as nat,
            ));
        }
    }
    proof {
        assert(samples@.skip(pos as int) =~= Seq::<i16>::empty());
        assert(frames.deep_view() =~~= spec_frames(samples@, frame_len as nat));
    }
    frames
}

/// Every emitted frame has exactly the frame length.
pub proof fn lemma_frames_len(samples: Seq<i16>, frame_len: nat)
    requires
        frame_len >= 1,
    ensures
        forall|i: int|
            0 <= i < spec_frames(samples, frame_len).len() ==> #[trigger] spec_frames(
                samples,
                frame_len,
            )[i].len() == frame_len,
    decreases samples.len(),
{
    let fr = spec_frames(samples, frame_len);
    if samples.len() == 0 {
    } else if samples.len() >= frame_len {
        let rest = samples.skip(frame_len as int);
        lemma_frames_len(rest, frame_len);
        assert forall|i: int| 0 <= i < fr.len() implies #[trigger] fr[i].len() == frame_len by {
            if i == 0 {
                assert(fr[0] == samples.take(frame_len as int));
            } else {
                assert(fr[i] == spec_frames(rest, frame_len)[i - 1]);
            }
        }
    } else {
        assert(fr[0].len() == frame_len);
    }
}

/// When the sample count is an exact multiple of the frame length,
/// chunking emits exactly `count / frame_len` frames and pads
/// nothing: the frames concatenated are the stream itself.
pub proof fn lemma_frames_exact(samples: Seq<i16>, frame_len: nat)
    requires
        frame_len >= 1,
        samples.len() % frame_len == 0,
    ensures
        spec_frames(samples, frame_len).len() == samples.len() / frame_len,
        spec_frames(samples, frame_len).flatten() == samples,
    decreases samples.len(),
{
    let fr = spec_frames(samples, frame_len);
    if samples.len() == 0 {
        assert(samples.len() / frame_len == 0) by (nonlinear_arith)
            requires frame_len >= 1, samples.len() == 0;
        assert(fr.flatten() =~= samples);
    } else {
        let n = samples.len() as int;
        let f = frame_len as int;
        let q = n / f;
        lemma_fundamental_div_mod(n, f);
        lemma_mod_bound(n, f);
        assert(n >= f) by (nonlinear_arith)
            requires n == f * (n / f), n >= 1, f >= 1;
        let rest = samples.skip(frame_len as int);
        assert(rest.len() == n - f);
        assert(n - f == (q - 1) * f + 0) by (nonlinear_arith)
            requires n == f * q;
        assert(q - 1 >= 0) by (nonlinear_arith)
            requires n >= f, f >= 1, n == f * q;
        lemma_fundamental_div_mod_converse(n - f, f, q - 1, 0);
        assert(rest.len() % frame_len == 0);
        assert(rest.len() / frame_len + 1 == samples.len() / frame_len);
        lemma_frames_exact(rest, frame_len);
        assert(fr == seq![samples.take(frame_len as int)] + spec_frames(rest, frame_len));
        assert(fr.drop_first() =~= spec_frames(rest, frame_len));
        seq_flatten_unfold(fr);
        assert(fr.first() == samples.take(frame_len as int));
        assert(samples.take(frame_len as int) + rest =~= samples);
        assert(fr.flatten() == samples);
    }
}

/// Unfolds `flatten` one step for a non-empty sequence of sequences.
proof fn seq_flatten_unfold<A>(s: Seq<Seq<A>>)
    requires
        s.len() >= 1,
    ensures
        s.flatten() == s.first() + s.drop_first().flatten(),
{
    reveal_with_fuel(Seq::flatten, 2);
}

/// When the sample count is not a multiple of the frame length,
/// chunking emits `count / frame_len + 1` frames; the last is the
/// remaining samples padded with zeros to the frame length (the
/// smallest multiple of the frame length at or above the remainder),
/// and every earlier frame is an unpadded slice of the stream.
pub proof fn lemma_frames_padded(samples: Seq<i16>, frame_len: nat)
    requires
        frame_len >= 1,
        samples.len() % frame_len != 0,
    ensures
        spec_frames(samples, frame_len).len() == samples.len() / frame_len + 1,
        spec_frames(samples, frame_len).last() == samples.skip(
            samples.len() - samples.len() % frame_len,
        ) + zero_samples((frame_len - samples.len() % frame_len) as nat),
        forall|i: int|
            0 <= i < samples.len() / frame_len ==> #[trigger] spec_frames(samples, frame_len)[i]
                == samples.subrange(i * frame_len, (i + 1) * frame_len),
    decreases samples.len(),
{
    let fr = spec_frames(samples, frame_len);
    let n = samples.len() as int;
    let f = frame_len as int;
    assert(samples.len() > 0) by {
        if samples.len() == 0 {
            lemma_fundamental_div_mod_converse(0, f, 0, 0);
        }
    }
    if samples.len() < frame_len {
        lemma_fundamental_div_mod_converse(n, f, 0, n);
        assert(samples.skip(0) =~= samples);
    } else {
        let q = n / f;
        let r = n % f;
        lemma_fundamental_div_mod(n, f);
        lemma_mod_bound(n, f);
        assert(q >= 1) by (nonlinear_arith)
            requires n == f * q + r, n >= f, f >= 1, 0 <= r < f;
        let rest = samples.skip(frame_len as int);
        assert(rest.len() == n - f);
        assert(n - f == (q - 1) * f + r) by (nonlinear_arith)
            requires n == f * q + r;
        lemma_fundamental_div_mod_converse(n - f, f, q - 1, r);
        assert(rest.len() % frame_len == r && rest.len() / frame_len == q - 1);
        assert(r <= rest.len()) by (nonlinear_arith)
            requires rest.len() == (q - 1) * f + r, q >= 1, f >= 1, r >= 0;
        lemma_frames_padded(rest, frame_len);
        assert(fr == seq![samples.take(frame_len as int)] + spec_frames(rest, frame_len));
        assert(fr.last() == spec_frames(rest, frame_len).last());
        assert(rest.skip(rest.len() - rest.len() % frame_len) =~= samples.skip(
            samples.len() - samples.len() % frame_len,
        ));
        assert forall|i: int| 0 <= i < samples.len() / frame_len implies #[trigger] fr[i]
            == samples.subrange(i * frame_len, (i + 1) * frame_len) by {
            if i == 0 {
                assert(fr[0] == samples.take(frame_len as int));
                assert(samples.take(frame_len as int) =~= samples.subrange(0, frame_len as int));
                assert(fr[0] == samples.subrange(0 * (frame_len as int), (0 + 1) * (frame_len as int)));
            } else {
                assert(fr[i] == spec_frames(rest, frame_len)[i - 1]);
                assert(i < q);
                assert((i - 1) * f + f == i * f && i * f + f == (i + 1) * f) by (nonlinear_arith);
                assert(0 <= (i - 1) * f) by (nonlinear_arith)
                    requires i >= 1, f >= 1;
                assert((i + 1) * f <= q * f) by (nonlinear_arith)
                    requires i + 1 <= q, f >= 1;
                assert(q * f <= n) by (nonlinear_arith)
                    requires n == f * q + r, r >= 0;
                assert(i - 1 < rest.len() / frame_len);
                assert(rest.subrange((i - 1) * frame_len, i * frame_len) =~= samples.subrange(
                    i * frame_len,
                    (i + 1) * frame_len,
                ));
                assert(fr[i] == samples.subrange(i * frame_len, (i + 1) * frame_len));
                assert(spec_frames(rest, frame_len)[i - 1] == rest.subrange(
                    (i - 1) * frame_len,
                    i * frame_len,
                ));
                assert(rest.subrange((i - 1) * frame_len, i * frame_len) =~= samples.subrange(
                    i * frame_len,
                    (i + 1) * frame_len,
                ));
            }
        }
    }
}

} // verus!
