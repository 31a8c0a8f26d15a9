use std::sync::Arc;

use raw_workbench::outline::{Clip, ClipRef};
use raw_workbench::samplearray::SampleArray;
use raw_workbench::track::Track;
use raw_workbench::rawcli::{
    check_extension, check_keyword, check_num_args, command_kind, copy_clips, copy_target,
    find_track, import_file, import_target, unknown_command, CommandKind, ImportRequest,
    RawCliEnvironment,
};

fn wav_bytes(channels: u16, rate: u32, samples: &[i16]) -> Vec<u8> {
    let spec = hound::WavSpec {
        channels,
        sample_rate: rate,
        bits_per_sample: 16,
        sample_format: hound::SampleFormat::Int,
    };
    let mut cursor = std::io::Cursor::new(Vec::new());
    {
        let mut writer = hound::WavWriter::new(&mut cursor, spec).unwrap();
        for s in samples {
            writer.write_sample(*s).unwrap();
        }
        writer.finalize().unwrap();
    }
    cursor.into_inner()
}

fn request(file: &str, track: &str) -> ImportRequest {
    ImportRequest { file_name: file.to_string(), track_name: track.to_string() }
}

#[test]
fn check_num_args_counts_words() {
    let w = check_num_args("copy a 1 2", 3, "syntax").unwrap();
    assert_eq!(w, vec!["copy", "a", "1", "2"]);
    assert_eq!(
        check_num_args("copy a", 3, "copy <x>").unwrap_err(),
        "Expected 3 arguments, found 1. Syntax is: 'copy <x>'"
    );
    assert_eq!(
        check_num_args("   ", 2, "s").unwrap_err(),
        "Expected 2 arguments, found -1. Syntax is: 's'"
    );
    assert_eq!(
        check_num_args("a b c d e f g h i j k l", 0, "q").unwrap_err(),
        "Expected 0 arguments, found 11. Syntax is: 'q'"
    );
}

#[test]
fn check_keyword_cases() {
    assert!(check_keyword(Some("copy"), "copy").is_ok());
    assert_eq!(check_keyword(None, "copy").unwrap_err(), "Expected keyword copy");
    assert_eq!(
        check_keyword(Some("cpy"), "copy").unwrap_err(),
        "Expected keyword copy, found cpy"
    );
}

#[test]
fn environment_starts_empty() {
    let env = RawCliEnvironment::new((), ());
    assert_eq!(env.tracks().len(), 0);
    assert_eq!(env.clips().len(), 0);
}

#[test]
fn import_target_checks_command() {
    assert_eq!(
        import_target("import a.wav").err().unwrap(),
        "Expected 2 arguments, found 1. Syntax is: 'import <file name> <track name>'"
    );
    assert_eq!(
        import_target("load a.wav t").err().unwrap(),
        "Expected keyword import, found load"
    );
    assert_eq!(
        import_target("import song.mp3 t").err().unwrap(),
        "Unsupported file type mp3."
    );
    assert_eq!(import_target("import song t").err().unwrap(), "Unsupported file type ?.");
    let r = import_target("import dir/song.wav lead").ok().unwrap();
    assert_eq!(r.file_name, "dir/song.wav");
    assert_eq!(r.track_name, "lead");
}

#[test]
fn check_extension_cases() {
    assert!(check_extension(Some(Some("wav".to_string()))).is_ok());
    assert_eq!(
        check_extension(Some(Some("WAV".to_string()))).unwrap_err(),
        "Unsupported file type WAV."
    );
    assert_eq!(check_extension(Some(None)).unwrap_err(), "Unsupported file type ?.");
    assert_eq!(check_extension(None).unwrap_err(), "Unsupported file type ?.");
}

#[test]
fn import_file_errors_leave_the_environment() {
    let mut env = RawCliEnvironment::new((), ());
    assert_eq!(
        import_file(&mut env, &request("a.wav", "t"), None).unwrap_err(),
        "Error reading from file a.wav"
    );
    assert_eq!(
        import_file(&mut env, &request("a.wav", "t"), Some(vec![0, 1, 2])).unwrap_err(),
        "Error reading from file a.wav"
    );
    let mut truncated = wav_bytes(1, 8000, &[1, 2, 3, 4]);
    truncated.truncate(truncated.len() - 3);
    assert_eq!(
        import_file(&mut env, &request("a.wav", "t"), Some(truncated)).unwrap_err(),
        "Error reading from file a.wav."
    );
    assert_eq!(env.tracks().len(), 0);
}

#[test]
fn import_mono_file_creates_a_track_with_its_audio() {
    let mut env = RawCliEnvironment::new((), ());
    let msg = import_file(&mut env, &request("a.wav", "lead"), Some(wav_bytes(1, 8000, &[5, 6, 7])))
        .unwrap();
    assert_eq!(msg, "Created track lead");
    assert_eq!(env.tracks().len(), 1);
    let t = &env.tracks()[0];
    assert_eq!(t.name(), "lead");
    assert_eq!(t.sample_rate(), 8000);
    assert_eq!(t.duration(), 3);
    let c = t.left_channel_as_clip();
    assert_eq!((0..3).map(|i| c.get(i)).collect::<Vec<_>>(), vec![5, 6, 7]);
}

#[test]
fn import_stereo_and_wider_files() {
    let mut env = RawCliEnvironment::new((), ());
    let msg = import_file(&mut env, &request("s.wav", "st"), Some(wav_bytes(2, 8000, &[1, 2])))
        .unwrap();
    assert_eq!(msg, "Created track st");
    assert_eq!(env.tracks()[0].duration(), 0);
    let msg = import_file(&mut env, &request("w.wav", "wide"), Some(wav_bytes(3, 8000, &[1, 2, 3])))
        .unwrap();
    assert_eq!(
        msg,
        "Warning: w.wav contains more than 2 channels; channels beyond the first two were truncated."
    );
    assert_eq!(env.tracks().len(), 2);
    assert_eq!(env.tracks()[1].name(), "wide");
}

#[test]
fn copy_finds_tracks_and_copies_both_channels() {
    let mut env = RawCliEnvironment::new((), ());
    import_file(&mut env, &request("a.wav", "lead"), Some(wav_bytes(1, 10, &[1, 2, 3, 4, 5])))
        .unwrap();
    assert_eq!(
        copy_target(&env, "copy lead 1").err().unwrap(),
        "Expected 3 arguments, found 2. Syntax is: 'copy <track name> <start time> <duration>'"
    );
    assert_eq!(
        copy_target(&env, "paste lead 1 2").err().unwrap(),
        "Expected keyword copy, found paste"
    );
    assert_eq!(
        copy_target(&env, "copy bass 1 2").err().unwrap(),
        "Track with name bass not found."
    );
    let req = copy_target(&env, "copy lead 0.1 0.2").ok().unwrap();
    assert_eq!(req.track, 0);
    assert_eq!(req.start_time, "0.1");
    assert_eq!(req.duration, "0.2");
    assert_eq!(find_track(&env, "lead"), Some(0));
    assert_eq!(find_track(&env, "bass"), None);

    assert_eq!(
        copy_clips(&mut env, 0, 1u64, 2u64).unwrap(),
        "Left copied to Clip 0, right copied to Clip 1"
    );
    assert_eq!(env.clips().len(), 2);
    let l = &env.clips()[0];
    assert_eq!((0..l.duration()).map(|i| l.get(i)).collect::<Vec<_>>(), vec![2, 3]);
    let r = &env.clips()[1];
    assert_eq!((0..r.duration()).map(|i| r.get(i)).collect::<Vec<_>>(), vec![2, 3]);
    assert_eq!(
        copy_clips(&mut env, 0, 4u64, 2u64).unwrap_err(),
        "Start or duration out of bounds"
    );
    assert_eq!(env.clips().len(), 2);
    assert_eq!(
        copy_clips(&mut env, 0, 0u64, 5u64).unwrap(),
        "Left copied to Clip 2, right copied to Clip 3"
    );
}

#[test]
fn import_target_reads_plain_file_names() {
    let r = import_target("import song.wav lead").ok().unwrap();
    assert_eq!(r.file_name, "song.wav");
    assert_eq!(r.track_name, "lead");
    assert!(import_target("import a.b.wav t").is_ok());
    assert_eq!(import_target("import .wav t").err().unwrap(), "Unsupported file type ?.");
    assert_eq!(import_target("import song. t").err().unwrap(), "Unsupported file type .");
    assert_eq!(import_target("import song.wav.mp3 t").err().unwrap(), "Unsupported file type mp3.");
}

#[test]
fn command_kinds() {
    assert!(matches!(command_kind("  "), CommandKind::Blank));
    assert!(matches!(command_kind(" copy a 1 2"), CommandKind::Copy));
    assert!(matches!(command_kind("import x.wav t"), CommandKind::Import));
    match command_kind("export a b") {
        CommandKind::Unknown(name) => assert_eq!(name, "export"),
        _ => panic!("expected an unknown command"),
    }
    assert_eq!(unknown_command("export"), "Unknown command export");
}

#[test]
fn insert_mono_rate_mismatch_refused_near_overflow() {
    let mut t = Track::new("t".to_string(), 10);
    let c = ClipRef::Samples(Arc::new(SampleArray::new(11, vec![1])));
    assert!(!t.insert_mono(c, u64::MAX));
    assert_eq!(t.duration(), 0);
}

#[test]
fn import_target_reads_paths_with_directories() {
    let r = import_target("import music/song.wav lead").ok().unwrap();
    assert_eq!(r.file_name, "music/song.wav");
    assert_eq!(r.track_name, "lead");
    assert!(import_target("import ./a/./b.wav t").is_ok());
    assert!(import_target("import takes/dir.wav/ t").is_ok());
    assert_eq!(import_target("import a.wav/.. t").err().unwrap(), "Unsupported file type ?.");
    assert_eq!(import_target("import dir.x/song t").err().unwrap(), "Unsupported file type ?.");
    assert_eq!(import_target("import ./clip.mp3 t").err().unwrap(), "Unsupported file type mp3.");
    assert_eq!(import_target("import a/.hidden t").err().unwrap(), "Unsupported file type ?.");
}

#[test]
fn import_mono_file_arranges_one_clip() {
    let mut env = RawCliEnvironment::new((), ());
    import_file(&mut env, &request("m.wav", "m"), Some(wav_bytes(1, 100, &[3, 4]))).unwrap();
    let t = &env.tracks()[0];
    assert_eq!(t.duration(), 2);
    let r = t.right_channel_as_clip();
    assert_eq!((0..r.duration()).map(|i| r.get(i)).collect::<Vec<_>>(), vec![3, 4]);
}

#[test]
fn import_target_reads_absolute_paths() {
    let r = import_target("import /tmp/song.wav lead").ok().unwrap();
    assert_eq!(r.file_name, "/tmp/song.wav");
    assert_eq!(import_target("import /tmp/song.mp3 t").err().unwrap(), "Unsupported file type mp3.");
    assert_eq!(import_target("import / t").err().unwrap(), "Unsupported file type ?.");
    assert!(import_target("import /song.wav t").is_ok());
}
