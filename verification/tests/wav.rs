use std::sync::Arc;

use raw_workbench::compounds::Reverse;
use raw_workbench::outline::{AudioReader, AudioWriter, Clip, ClipRef};
use raw_workbench::samplearray::SampleArray;
use raw_workbench::wavreader::{channels_of, deinterleave, WavBytes};

fn wav_bytes(channels: u16, rate: u32, samples: &[i16]) -> Vec<u8> {
    let spec = hound::WavSpec {
        channels,
        sample_rate: rate,
        bits_per_sample: 16,
        sample_format: hound::SampleFormat::Int,
    };
    let mut cursor = std::io::Cursor::new(Vec::new());
    {
        let mut writer = hound::WavWriter::new(&mut cursor, spec).unwrap();
        for s in samples {
            writer.write_sample(*s).unwrap();
        }
        writer.finalize().unwrap();
    }
    cursor.into_inner()
}

#[test]
fn deinterleave_deals_samples_in_turn() {
    let v = deinterleave(2, 44100, &vec![1, -1, 2, -2, 3]);
    assert_eq!(v.len(), 2);
    assert_eq!(v[0].samples, vec![1, 2, 3]);
    assert_eq!(v[1].samples, vec![-1, -2]);
    assert_eq!(v[0].sample_rate, 44100);
    assert_eq!(v[1].sample_rate, 44100);
}

#[test]
fn deinterleave_one_channel_keeps_everything() {
    let v = deinterleave(1, 8000, &vec![4, 5, 6]);
    assert_eq!(v.len(), 1);
    assert_eq!(v[0].samples, vec![4, 5, 6]);
}

#[test]
fn channels_of_rejections() {
    assert!(channels_of(None).is_none());
    assert!(channels_of(Some((2, 10, None))).is_none());
    assert!(channels_of(Some((0, 10, Some(vec![1])))).is_none());
    assert_eq!(channels_of(Some((0, 10, Some(vec![])))).unwrap().len(), 0);
    let v = channels_of(Some((3, 10, Some(vec![1, 2, 3, 4, 5, 6])))).unwrap();
    assert_eq!(v.len(), 3);
    assert_eq!(v[2].samples, vec![3, 6]);
}

#[test]
fn reading_stereo_wav_gives_two_channels() {
    let mut w = WavBytes::new(wav_bytes(2, 22050, &[1, 10, 2, 20, 3, 30]));
    let v = w.read().unwrap();
    assert_eq!(v.len(), 2);
    assert_eq!(v[0].samples, vec![1, 2, 3]);
    assert_eq!(v[1].samples, vec![10, 20, 30]);
    assert_eq!(v[1].sample_rate, 22050);
}

#[test]
fn reading_garbage_is_none() {
    let mut w = WavBytes::new(vec![1, 2, 3, 4, 5]);
    assert!(w.read().is_none());
    let mut empty = WavBytes::new(Vec::new());
    assert!(empty.read().is_none());
}

#[test]
fn reading_24_bit_samples_as_16_bit_fails() {
    let spec = hound::WavSpec {
        channels: 1,
        sample_rate: 8000,
        bits_per_sample: 24,
        sample_format: hound::SampleFormat::Int,
    };
    let mut cursor = std::io::Cursor::new(Vec::new());
    {
        let mut writer = hound::WavWriter::new(&mut cursor, spec).unwrap();
        writer.write_sample(5i32).unwrap();
        writer.finalize().unwrap();
    }
    let mut w = WavBytes::new(cursor.into_inner());
    assert!(w.read().is_none());
}

#[test]
fn write_then_read_gives_the_clip_back() {
    let clip = SampleArray::new(44100, vec![0, 1, -1, i16::MAX, i16::MIN]);
    let mut w = WavBytes::new(Vec::new());
    assert!(w.write(&clip));
    assert_eq!(&w.bytes[0..4], b"RIFF");
    let v = w.read().unwrap();
    assert_eq!(v.len(), 1);
    assert_eq!(v[0].sample_rate, 44100);
    assert_eq!(v[0].samples, clip.samples);
}

#[test]
fn writing_a_compound_clip_writes_its_samples() {
    let src = ClipRef::Samples(Arc::new(SampleArray::new(8000, vec![1, 2, 3])));
    let rev = Reverse::new(src);
    let mut w = WavBytes::new(Vec::new());
    assert!(w.write(&rev));
    let v = w.read().unwrap();
    assert_eq!(v[0].samples, vec![3, 2, 1]);
    assert_eq!(v[0].sample_rate, rev.sample_rate());
}

#[test]
fn writing_at_too_high_a_rate_is_refused() {
    let clip = SampleArray::new(u32::MAX, vec![1]);
    let mut w = WavBytes::new(vec![7]);
    assert!(!w.write(&clip));
    assert_eq!(w.bytes, vec![7]);
}

#[test]
fn writing_at_rate_zero_is_refused() {
    let clip = SampleArray::new(0, vec![1, 2]);
    let mut w = WavBytes::new(vec![3]);
    assert!(!w.write(&clip));
    assert_eq!(w.bytes, vec![3]);
}

#[test]
fn writing_an_empty_clip_reads_back_empty() {
    let clip = SampleArray::new(1000, vec![]);
    let mut w = WavBytes::new(Vec::new());
    assert!(w.write(&clip));
    let v = w.read().unwrap();
    assert_eq!(v.len(), 1);
    assert!(v[0].samples.is_empty());
}
