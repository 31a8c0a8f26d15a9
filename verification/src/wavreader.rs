//! Reading and writing WAV data: hound encodes and decodes the bytes, and
//! the library turns interleaved samples into one clip per channel and a clip
//! into samples to encode.

use std::sync::Arc;
use vstd::prelude::*;
use crate::outline::{AudioReader, AudioWriter, Clip, Sample};
use crate::samplearray::SampleArray;

verus! {

/// What hound's WAV reader makes of `bytes`: None when it rejects the
/// header; otherwise the channel count, the sample rate, and the interleaved
/// samples read as 16-bit integers, or None when a sample cannot be read
/// as one.
pub uninterp spec fn wav_decoding(bytes: Seq<u8>) -> Option<(u16, u32, Option<Seq<Sample>>)>;

/// The bytes hound's WAV writer produces for 16-bit integer samples with
/// `channels` interleaved channels at `sample_rate`, or None when it fails.
pub uninterp spec fn wav_encoding(channels: u16, sample_rate: u32, samples: Seq<Sample>) -> Option<
    Seq<u8>,
>;

/// The value of a decoding result, with its sample vector seen as a sequence.
pub open spec fn decoded_view(d: Option<(u16, u32, Option<Vec<Sample>>)>) -> Option<
    (u16, u32, Option<Seq<Sample>>),
> {
    match d {
        None => None,
        Some((c, r, s)) => Some(
            (
                c,
                r,
                match s {
                    None => None,
                    Some(v) => Some(v@),
                },
            ),
        ),
    }
}

/// Decodes WAV bytes with `hound::WavReader::new` over an in-memory cursor,
/// then reads every sample through `WavReader::samples::<i16>`. The result
/// is named by `wav_decoding`. From hound's source: a header is only
/// accepted with at least one channel and with a sample count that is a
/// multiple of the channel count, and when every sample reads, exactly that
/// many samples come out.
#[verifier::external_body]
pub(crate) fn decode_wav(bytes: &[u8]) -> (r: Option<(u16, u32, Option<Vec<Sample>>)>)
    ensures
        decoded_view(r) == wav_decoding(bytes@),
        r matches Some((c, _, Some(s))) ==> c > 0 && (s@.len() as int) % (c as int) == 0,
{
    match hound::WavReader::new(std::io::Cursor::new(bytes)) {
        Ok(mut reader) => {
            let spec = reader.spec();
            let samples = reader.samples::<i16>().collect::<Result<Vec<i16>, hound::Error>>();
            Some((spec.channels, spec.sample_rate, samples.ok()))
        },
        Err(_) => None,
    }
}

/// Encodes samples as 16-bit integer WAV with `hound::WavWriter` over an
/// in-memory cursor: `WavWriter::new`, `write_sample` for each sample, then
/// `finalize`. The result is named by `wav_encoding`. From hound's source:
/// writing to memory fails only when the sample count is not a multiple of
/// the channel count, and for one or two channels (the plain PCM header) the
/// reader gives back the channel count, the rate and the samples. The
/// `requires` keeps out the inputs on which hound panics: a rate of 0 (the
/// header's block alignment is computed by dividing by the rate) and sizes on
/// which its 32-bit arithmetic would overflow.
#[verifier::external_body]
fn encode_wav(channels: u16, sample_rate: u32, samples: &[Sample]) -> (r: Option<Vec<u8>>)
    requires
        channels >= 1,
        sample_rate >= 1,
        sample_rate * 2 * channels <= u32::MAX,
        samples@.len() * 2 + 72 <= u32::MAX,
    ensures
        match r {
            None => wav_encoding(channels, sample_rate, samples@) is None,
            Some(b) => wav_encoding(channels, sample_rate, samples@) == Some(b@),
        },
        r is Some <==> (samples@.len() as int) % (channels as int) == 0,
        r matches Some(b) ==> (channels <= 2 ==> wav_decoding(b@) == Some(
            (channels, sample_rate, Some(samples@)),
        )),
{
    let spec = hound::WavSpec {
        channels,
        sample_rate,
        bits_per_sample: 16,
        sample_format: hound::SampleFormat::Int,
    };
    let mut cursor = std::io::Cursor::new(Vec::new());
    let mut writer = hound::WavWriter::new(&mut cursor, spec).ok()?;
    for s in samples {
        writer.write_sample(*s).ok()?;
    }
    writer.finalize().ok()?;
    Some(cursor.into_inner())
}

/// The number of samples channel `c` gets when `n` interleaved samples are
/// dealt out to `ch` channels in turn.
pub open spec fn channel_len(n: int, ch: int, c: int) -> int {
    n / ch + if c < n % ch {
        1int
    } else {
        0int
    }
}

/// Channel `c` of interleaved samples: the samples at `c`, `c + ch`,
/// `c + 2 ch`, ...
pub open spec fn channel_of(s: Seq<Sample>, ch: int, c: int) -> Seq<Sample> {
    Seq::new(channel_len(s.len() as int, ch, c) as nat, |k: int| s[k * ch + c])
}

proof fn lemma_channel_step(i: int, ch: int, c: int)
    requires
        0 <= i,
        0 < ch,
        0 <= c < ch,
    ensures
        c == i % ch ==> channel_len(i + 1, ch, c) == channel_len(i, ch, c) + 1 && channel_len(
            i,
            ch,
            c,
        ) * ch + c == i,
        c != i % ch ==> channel_len(i + 1, ch, c) == channel_len(i, ch, c),
        channel_len(i, ch, c) >= 0,
{
    let q = i / ch;
    let r = i % ch;
    vstd::arithmetic::div_mod::lemma_fundamental_div_mod(i, ch);
    assert(i == q * ch + r) by (nonlinear_arith)
        requires
            i == ch * q + r,
    ;
    assert(0 <= r < ch);
    assert(q >= 0) by (nonlinear_arith)
        requires
            i == q * ch + r,
            0 <= i,
            0 <= r < ch,
    ;
    if r + 1 < ch {
        assert(i + 1 == q * ch + (r + 1));
        vstd::arithmetic::div_mod::lemma_fundamental_div_mod_converse(i + 1, ch, q, r + 1);
    } else {
        assert(i + 1 == (q + 1) * ch + 0) by (nonlinear_arith)
            requires
                i == q * ch + r,
                r + 1 == ch,
        ;
        vstd::arithmetic::div_mod::lemma_fundamental_div_mod_converse(i + 1, ch, q + 1, 0);
    }
}

proof fn lemma_channel_index(i: int, ch: int, c: int, k: int)
    requires
        0 <= i,
        0 < ch,
        0 <= c < ch,
        0 <= k < channel_len(i, ch, c),
    ensures
        0 <= k * ch + c < i,
{
    let q = i / ch;
    let r = i % ch;
    vstd::arithmetic::div_mod::lemma_fundamental_div_mod(i, ch);
    assert(i == q * ch + r) by (nonlinear_arith)
        requires
            i == ch * q + r,
    ;
    if k < q {
        assert(0 <= k * ch + c < i) by (nonlinear_arith)
            requires
                i == q * ch + r,
                0 <= r,
                0 <= k < q,
                0 <= c < ch,
        ;
    } else {
        assert(k == q && c < r);
        assert(k * ch + c < i);
        assert(0 <= k * ch) by (nonlinear_arith)
            requires
                0 <= k,
                0 < ch,
        ;
    }
}

/// Deals interleaved samples out to `channels` channels in turn (the first
/// sample to channel 0, the next to channel 1, ...) and makes a clip of each
/// channel at `sample_rate`.
pub fn deinterleave(channels: usize, sample_rate: u32, samples: &Vec<Sample>) -> (r: Vec<
    Arc<SampleArray>,
>)
    requires
        channels > 0,
    ensures
        r@.len() == channels,
        forall|c: int|
            0 <= c < channels ==> (#[trigger] r@[c]).sample_rate == sample_rate && r@[c].samples@
                == channel_of(samples@, channels as int, c),
{
    let ghost ch = channels as int;
    let mut channel_samples: Vec<Vec<Sample>> = Vec::new();
    let mut c: usize = 0;
    while c < channels
        invariant
            c <= channels,
            channel_samples@.len() == c,
            forall|j: int| 0 <= j < c ==> (#[trigger] channel_samples@[j])@ == Seq::<Sample>::empty(),
        decreases channels - c,
    {
        channel_samples.push(Vec::new());
        c = c + 1;
    }
    let mut counter: usize = 0;
    let mut i: usize = 0;
    while i < samples.len()
        invariant
            0 < channels,
            ch == channels as int,
            i <= samples@.len(),
            counter == i % channels,
            channel_samples@.len() == channels,
            forall|j: int|
                0 <= j < channels ==> (#[trigger] channel_samples@[j])@ == channel_of(
                    samples@.take(i as int),
                    ch,
                    j,
                ),
        decreases samples@.len() - i,
    {
        let ghost before = channel_samples@;
        let mut bucket: Vec<Sample> = Vec::new();
        std::mem::swap(&mut bucket, &mut channel_samples[counter]);
        bucket.push(samples[i]);
        std::mem::swap(&mut bucket, &mut channel_samples[counter]);
        proof {
            assert forall|j: int| 0 <= j < channels implies (#[trigger] channel_samples@[j])@
                == channel_of(samples@.take(i + 1), ch, j) by {
                lemma_channel_step(i as int, ch, j);
                let old_seq = channel_of(samples@.take(i as int), ch, j);
                let new_seq = channel_of(samples@.take(i + 1), ch, j);
                assert forall|k: int| 0 <= k < old_seq.len() implies new_seq[k] == old_seq[k] by {
                    lemma_channel_index(i as int, ch, j, k);
                }
                if j == counter {
                    assert(new_seq =~= old_seq.push(samples@[i as int]));
                } else {
                    assert(channel_samples@[j] == before[j]);
                    assert(new_seq =~= old_seq);
                }
            }
        }
        counter = if counter + 1 == channels {
            0
        } else {
            counter + 1
        };
        proof {
            lemma_channel_step(i as int, ch, (i % channels) as int);
            vstd::arithmetic::div_mod::lemma_fundamental_div_mod(i as int, ch);
            vstd::arithmetic::div_mod::lemma_fundamental_div_mod(i + 1, ch);
            if (i % channels) + 1 == channels {
                assert(i + 1 == (i / channels + 1) * ch + 0) by (nonlinear_arith)
                    requires
                        i == ch * (i / channels) + (i % channels),
                        (i % channels) + 1 == ch,
                ;
                vstd::arithmetic::div_mod::lemma_fundamental_div_mod_converse(
                    i + 1,
                    ch,
                    i / channels + 1,
                    0,
                );
            } else {
                vstd::arithmetic::div_mod::lemma_fundamental_div_mod_converse(
                    i + 1,
                    ch,
                    (i / channels) as int,
                    (i % channels) + 1,
                );
            }
        }
        i = i + 1;
    }
    assert(samples@.take(samples@.len() as int) =~= samples@);
    let mut r: Vec<Arc<SampleArray>> = Vec::new();
    let mut j: usize = 0;
    while j < channels
        invariant
            j <= channels,
            channel_samples@.len() == channels,
            r@.len() == j,
            forall|m: int|
                j <= m < channels ==> (#[trigger] channel_samples@[m])@ == channel_of(
                    samples@,
                    ch,
                    m,
                ),
            forall|m: int|
                0 <= m < j ==> (#[trigger] r@[m]).sample_rate == sample_rate && r@[m].samples@
                    == channel_of(samples@, ch, m),
        decreases channels - j,
    {
        let mut bucket: Vec<Sample> = Vec::new();
        std::mem::swap(&mut bucket, &mut channel_samples[j]);
        r.push(Arc::new(SampleArray::new(sample_rate, bucket)));
        j = j + 1;
    }
    r
}

/// The channels, each a sample rate and the samples, that a decoding result
/// stands for: one per channel, dealt out from the interleaved samples.
/// None when the bytes were rejected or a sample could not be read.
pub open spec fn channels_from(d: Option<(u16, u32, Option<Seq<Sample>>)>) -> Option<
    Seq<(u32, Seq<Sample>)>,
> {
    match d {
        Some((c, rate, Some(s))) => if c > 0 || s.len() == 0 {
            Some(Seq::new(c as nat, |k: int| (rate, channel_of(s, c as int, k))))
        } else {
            None
        },
        _ => None,
    }
}

/// Whether `samples` holds exactly the samples of `s` at `k`, `k + c`,
/// `k + 2c`, ... in order: each sample it holds is the one at its place, and
/// its length leaves none of those indices out (`s.len() <= len * c + k <
/// s.len() + c`).
pub open spec fn dealt_to(s: Seq<Sample>, c: int, k: int, samples: Seq<Sample>) -> bool {
    &&& s.len() <= samples.len() * c + k < s.len() + c
    &&& forall|i: int|
        0 <= i < samples.len() ==> #[trigger] samples[i] == s[i * c + k] && i * c + k < s.len()
}

/// How decoded samples are dealt out: a decoding with `c > 0` channels whose
/// samples all read gives exactly `c` channels, each at the decoded rate,
/// channel `k` holding the samples at `k`, `k + c`, `k + 2c`, ... in order.
pub proof fn channels_law(c: u16, rate: u32, s: Seq<Sample>)
    requires
        c > 0,
    ensures
        channels_from(Some((c, rate, Some(s)))) matches Some(res) && res.len() == c && forall|
            k: int,
        |
            0 <= k < c ==> (#[trigger] res[k]).0 == rate && dealt_to(s, c as int, k, res[k].1),
{
    let res = Seq::new(c as nat, |k: int| (rate, channel_of(s, c as int, k)));
    assert(channels_from(Some((c, rate, Some(s)))) == Some(res));
    let n = s.len() as int;
    let ch = c as int;
    assert forall|k: int| 0 <= k < c implies (#[trigger] res[k]).0 == rate && dealt_to(
        s,
        ch,
        k,
        res[k].1,
    ) by {
        lemma_channel_dealt(s, ch, k);
    }
}

proof fn lemma_channel_dealt(s: Seq<Sample>, ch: int, k: int)
    requires
        0 < ch,
        0 <= k < ch,
    ensures
        dealt_to(s, ch, k, channel_of(s, ch, k)),
{
    let n = s.len() as int;
    let q = n / ch;
    let r = n % ch;
    vstd::arithmetic::div_mod::lemma_fundamental_div_mod(n, ch);
    let len = channel_len(n, ch, k);
    if k < r {
        assert(len * ch == q * ch + ch) by (nonlinear_arith)
            requires
                len == q + 1,
        ;
    }
    assert(ch * q == q * ch) by (nonlinear_arith);
    assert(channel_of(s, ch, k).len() == len);
    assert forall|i: int| 0 <= i < channel_of(s, ch, k).len() implies #[trigger] channel_of(
        s,
        ch,
        k,
    )[i] == s[i * ch + k] && i * ch + k < s.len() by {
        lemma_channel_index(n, ch, k, i);
    }
}

/// The channels that WAV bytes decode to.
pub open spec fn decoded_channels(bytes: Seq<u8>) -> Option<Seq<(u32, Seq<Sample>)>> {
    channels_from(wav_decoding(bytes))
}

/// The rate and samples of each clip of a list.
pub open spec fn clip_views(v: Seq<Arc<SampleArray>>) -> Seq<(u32, Seq<Sample>)> {
    Seq::new(v.len(), |k: int| (v[k].sample_rate, v[k].samples@))
}

/// Turns a decoding result into one clip per channel. None when the bytes
/// were rejected or a sample could not be read (or when samples come without
/// any channel to hold them).
pub fn channels_of(decoded: Option<(u16, u32, Option<Vec<Sample>>)>) -> (r: Option<
    Vec<Arc<SampleArray>>,
>)
    ensures
        match r {
            None => channels_from(decoded_view(decoded)) is None,
            Some(v) => channels_from(decoded_view(decoded)) == Some(clip_views(v@)),
        },
        decoded matches Some((c, _, Some(_))) && c > 0 ==> r is Some,
{
    proof {
        if let Some((c, rate, Some(sq))) = decoded_view(decoded) {
            if c > 0 {
                channels_law(c, rate, sq);
            }
        }
    }
    match decoded {
        Some((channels, sample_rate, Some(samples))) => {
            if channels == 0 {
                if samples.len() == 0 {
                    let v: Vec<Arc<SampleArray>> = Vec::new();
                    proof {
                        assert(clip_views(v@) =~= Seq::new(0, |k: int| (sample_rate, channel_of(samples@, 0, k))));
                    }
                    Some(v)
                } else {
                    None
                }
            } else {
                let v = deinterleave(channels as usize, sample_rate, &samples);
                proof {
                    assert(clip_views(v@) =~= Seq::new(
                        channels as nat,
                        |k: int| (sample_rate, channel_of(samples@, channels as int, k)),
                    ));
                }
                Some(v)
            }
        },
        _ => None,
    }
}

/// WAV-encoded audio held in memory.
pub struct WavBytes {
    pub bytes: Vec<u8>,
}

impl WavBytes {
    pub fn new(bytes: Vec<u8>) -> (r: Self)
        ensures
            r.bytes@ == bytes@,
    {
        WavBytes { bytes }
    }
}

/// Whether hound can write `len` samples of one channel at `sample_rate`:
/// the rate is not 0, and the 32-bit sizes of a WAV header do not overflow.
pub open spec fn wav_writable(sample_rate: u32, len: int) -> bool {
    1 <= sample_rate && sample_rate * 2 <= u32::MAX && len * 2 + 72 <= u32::MAX
}

impl AudioReader for WavBytes {
    /// Decodes the bytes into one clip per channel; None when they are not
    /// WAV data that hound can read as 16-bit samples.
    fn read(&mut self) -> (r: Option<Vec<Arc<SampleArray>>>)
        ensures
            *final(self) == *old(self),
            match r {
                None => decoded_channels(old(self).bytes@) is None,
                Some(v) => decoded_channels(old(self).bytes@) == Some(clip_views(v@)),
            },
            wav_decoding(old(self).bytes@) matches Some((_, _, Some(_))) ==> r is Some,
            r matches Some(v) ==> wav_decoding(old(self).bytes@) matches Some((c, rate, Some(s)))
                && v@.len() == c && forall|k: int|
                0 <= k < c ==> (#[trigger] v@[k]).sample_rate == rate && dealt_to(
                    s,
                    c as int,
                    k,
                    v@[k].samples@,
                ),
    {
        let decoded = decode_wav(self.bytes.as_slice());
        proof {
            if let Some((c, rate, Some(sq))) = decoded_view(decoded) {
                channels_law(c, rate, sq);
            }
        }
        let r = channels_of(decoded);
        proof {
            if r is Some {
                let v = r->0;
                if let Some((c, rate, Some(sq))) = decoded_view(decoded) {
                    let res = channels_from(Some((c, rate, Some(sq)))).unwrap();
                    assert forall|k: int| 0 <= k < c implies (#[trigger] v@[k]).sample_rate == rate
                        && dealt_to(sq, c as int, k, v@[k].samples@) by {
                        assert(clip_views(v@)[k] == res[k]);
                    }
                }
            }
        }
        r
    }
}

impl AudioWriter for WavBytes {
    /// Replaces the bytes with the clip encoded as one-channel 16-bit WAV.
    /// Returns false, and keeps the bytes, when the clip is too long, or its
    /// rate 0 or too high, for a WAV header.
    fn write<C: Clip>(&mut self, clip: &C) -> (r: bool)
        ensures
            r == wav_writable(clip.clip_rate(), clip.clip_audio().len() as int),
            1 <= clip.clip_rate() && clip.clip_rate() * 2 <= u32::MAX && clip.clip_audio().len() * 2
                + 72 <= u32::MAX ==> r,
            r ==> Some(final(self).bytes@) == wav_encoding(1, clip.clip_rate(), clip.clip_audio()),
            r ==> wav_decoding(final(self).bytes@) == Some(
                (1u16, clip.clip_rate(), Some(clip.clip_audio())),
            ),
            !r ==> final(self).bytes@ == old(self).bytes@,
    {
        let sample_rate = clip.sample_rate();
        let duration = clip.duration();
        if sample_rate == 0 || sample_rate > u32::MAX / 2 || duration > (u32::MAX as u64 - 72) / 2 {
            return false;
        }
        let mut samples: Vec<Sample> = Vec::new();
        let mut i: u64 = 0;
        while i < duration
            invariant
                i <= duration,
                duration == clip.clip_audio().len(),
                samples@ == clip.clip_audio().subrange(0, i as int),
            decreases duration - i,
        {
            samples.push(clip.get(i));
            i = i + 1;
        }
        assert(samples@ =~= clip.clip_audio());
        match encode_wav(1, sample_rate, samples.as_slice()) {
            Some(bytes) => {
                self.bytes = bytes;
                true
            },
            None => false,
        }
    }
}

/// What a write stores, a read gives back: bytes that decode to one channel
/// with `sample_rate` and `audio` read as exactly one clip with that rate
/// and those samples.
pub proof fn read_gives_back_written(bytes: Seq<u8>, sample_rate: u32, audio: Seq<Sample>)
    requires
        wav_decoding(bytes) == Some((1u16, sample_rate, Some(audio))),
    ensures
        decoded_channels(bytes) == Some(seq![(sample_rate, audio)]),
{
    assert(channel_of(audio, 1, 0) =~= audio);
    assert(Seq::new(1, |k: int| (sample_rate, channel_of(audio, 1, k))) =~= seq![(sample_rate, audio)]);
}

} // verus!
