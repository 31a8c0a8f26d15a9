//! The raw command-line environment: the tracks and clips a session works
//! on, and the handlers of its `copy` and `import` commands.

use std::sync::Arc;
use vstd::prelude::*;
use vstd::string::StringExecFns;
use crate::compounds::Subclip;
use crate::outline::{ClipRef, Sample, Time};
use crate::text::{
    decimal,
    push_char,
    push_decimal,
    push_str,
    same_text,
    signed_decimal,
    split_words,
    texts,
    words,
};
use crate::track::{Track, inserted_arrangement};
use crate::wavreader::{channels_of, clip_views, decode_wav, decoded_channels, wav_decoding};

verus! {

/// The state of a command-line session: the reader and writer it talks
/// through, the tracks it has created and the clips it has copied.
pub struct RawCliEnvironment<R, W> {
    reader: R,
    writer: W,
    tracks: Vec<Track>,
    clips: Vec<ClipRef>,
}

impl<R, W> RawCliEnvironment<R, W> {
    /// Where the session reads commands from.
    pub closed spec fn spec_reader(self) -> R {
        self.reader
    }

    /// Where the session writes replies to.
    pub closed spec fn spec_writer(self) -> W {
        self.writer
    }

    /// The reader, to read the next command from.
    pub fn reader(&mut self) -> (r: &mut R)
        ensures
            *r == old(self).spec_reader(),
            final(self).spec_reader() == *final(r),
            final(self).spec_writer() == old(self).spec_writer(),
            final(self).spec_tracks() == old(self).spec_tracks(),
            final(self).spec_clips() == old(self).spec_clips(),
    {
        &mut self.reader
    }

    /// The writer, to write a reply to.
    pub fn writer(&mut self) -> (r: &mut W)
        ensures
            *r == old(self).spec_writer(),
            final(self).spec_writer() == *final(r),
            final(self).spec_reader() == old(self).spec_reader(),
            final(self).spec_tracks() == old(self).spec_tracks(),
            final(self).spec_clips() == old(self).spec_clips(),
    {
        &mut self.writer
    }

    /// The tracks, in the order they were created.
    pub closed spec fn spec_tracks(self) -> Seq<Track> {
        self.tracks@
    }

    /// The copied clips, in the order they were copied.
    pub closed spec fn spec_clips(self) -> Seq<ClipRef> {
        self.clips@
    }

    pub fn new(reader: R, writer: W) -> (r: Self)
        ensures
            r.spec_reader() == reader,
            r.spec_writer() == writer,
            r.spec_tracks().len() == 0,
            r.spec_clips().len() == 0,
    {
        RawCliEnvironment { reader, writer, tracks: Vec::new(), clips: Vec::new() }
    }

    /// The tracks of the session.
    pub fn tracks(&self) -> (r: &Vec<Track>)
        ensures
            r@ == self.spec_tracks(),
    {
        &self.tracks
    }

    /// The clips of the session.
    pub fn clips(&self) -> (r: &Vec<ClipRef>)
        ensures
            r@ == self.spec_clips(),
    {
        &self.clips
    }
}

/// The message for a command with the wrong number of arguments.
pub open spec fn arg_count_message(num: nat, found: int, syntax: Seq<char>) -> Seq<char> {
    "Expected "@ + decimal(num) + " arguments, found "@ + signed_decimal(found)
        + ". Syntax is: '"@ + syntax + "'"@
}

/// Checks that `cmd` is a command word followed by exactly `num` arguments,
/// and returns its words.
pub fn check_num_args(cmd: &str, num: usize, syntax: &str) -> (r: Result<Vec<String>, String>)
    ensures
        match r {
            Ok(w) => words(cmd@).len() == num + 1 && texts(w@) == words(cmd@),
            Err(m) => words(cmd@).len() != num + 1 && m@ == arg_count_message(
                num as nat,
                words(cmd@).len() - 1,
                syntax@,
            ),
        },
{
    let w = split_words(cmd);
    assert(w@.len() == words(cmd@).len());
    if w.len() == 0 || w.len() - 1 != num {
        let mut m = String::new();
        push_str(&mut m, "Expected ");
        push_decimal(&mut m, num as u64);
        push_str(&mut m, " arguments, found ");
        if w.len() == 0 {
            push_char(&mut m, '-');
            push_decimal(&mut m, 1);
        } else {
            push_decimal(&mut m, (w.len() - 1) as u64);
        }
        push_str(&mut m, ". Syntax is: '");
        push_str(&mut m, syntax);
        push_str(&mut m, "'");
        assert(m@ =~= arg_count_message(num as nat, words(cmd@).len() - 1, syntax@));
        Err(m)
    } else {
        Ok(w)
    }
}

/// The message for a missing keyword.
pub open spec fn missing_keyword_message(expected: Seq<char>) -> Seq<char> {
    "Expected keyword "@ + expected
}

/// The message for a wrong keyword.
pub open spec fn wrong_keyword_message(expected: Seq<char>, found: Seq<char>) -> Seq<char> {
    "Expected keyword "@ + expected + ", found "@ + found
}

/// Checks that the command word `found` is `expected`.
pub fn check_keyword(found: Option<&str>, expected: &str) -> (r: Result<(), String>)
    ensures
        match found {
            None => r matches Err(m) && m@ == missing_keyword_message(expected@),
            Some(f) => if f@ == expected@ {
                r is Ok
            } else {
                r matches Err(m) && m@ == wrong_keyword_message(expected@, f@)
            },
        },
{
    match found {
        None => {
            let mut m = String::new();
            push_str(&mut m, "Expected keyword ");
            push_str(&mut m, expected);
            Err(m)
        },
        Some(f) => {
            if same_text(f, expected) {
                Ok(())
            } else {
                let mut m = String::new();
                push_str(&mut m, "Expected keyword ");
                push_str(&mut m, expected);
                push_str(&mut m, ", found ");
                push_str(&mut m, f);
                Err(m)
            }
        },
    }
}

/// Finds the first track named `name`.
pub fn find_track<R, W>(env: &RawCliEnvironment<R, W>, name: &str) -> (r: Option<usize>)
    ensures
        match r {
            Some(i) => {
                &&& i < env.spec_tracks().len()
                &&& env.spec_tracks()[i as int].name_view() == name@
                &&& forall|j: int| 0 <= j < i ==> (#[trigger] env.spec_tracks()[j]).name_view() != name@
            },
            None => forall|j: int|
                0 <= j < env.spec_tracks().len() ==> (#[trigger] env.spec_tracks()[j]).name_view()
                    != name@,
        },
{
    let tracks = env.tracks();
    let mut i: usize = 0;
    while i < tracks.len()
        invariant
            i <= tracks@.len(),
            tracks@ == env.spec_tracks(),
            forall|j: int| 0 <= j < i ==> (#[trigger] tracks@[j]).name_view() != name@,
        decreases tracks@.len() - i,
    {
        if same_text(tracks[i].name(), name) {
            return Some(i);
        }
        i = i + 1;
    }
    None
}

/// What a well-formed `copy` command names: the track to copy from and the
/// words of the start time and duration, which the caller parses.
pub struct CopyRequest {
    pub track: usize,
    pub start_time: String,
    pub duration: String,
}

/// The message for a track that does not exist.
pub open spec fn no_track_message(name: Seq<char>) -> Seq<char> {
    "Track with name "@ + name + " not found."@
}

/// First stage of `copy <track name> <start time> <duration>`: checks the
/// arguments and the keyword and finds the track.
pub fn copy_target<R, W>(env: &RawCliEnvironment<R, W>, cmd: &str) -> (r: Result<CopyRequest, String>)
    ensures
        ({
            let w = words(cmd@);
            let tracks = env.spec_tracks();
            if w.len() != 4 {
                r matches Err(m) && m@ == arg_count_message(
                    3,
                    w.len() - 1,
                    "copy <track name> <start time> <duration>"@,
                )
            } else if w[0] != "copy"@ {
                r matches Err(m) && m@ == wrong_keyword_message("copy"@, w[0])
            } else if forall|j: int|
                0 <= j < tracks.len() ==> (#[trigger] tracks[j]).name_view() != w[1] {
                r matches Err(m) && m@ == no_track_message(w[1])
            } else {
                r matches Ok(req) && {
                    &&& req.track < tracks.len()
                    &&& tracks[req.track as int].name_view() == w[1]
                    &&& forall|j: int| 0 <= j < req.track ==> (#[trigger] tracks[j]).name_view() != w[1]
                    &&& req.start_time@ == w[2]
                    &&& req.duration@ == w[3]
                }
            }
        }),
{
    let w = check_num_args(cmd, 3, "copy <track name> <start time> <duration>")?;
    check_keyword(Some(w[0].as_str()), "copy")?;
    let trackname = w[1].as_str();
    match find_track(env, trackname) {
        None => {
            let mut m = String::new();
            push_str(&mut m, "Track with name ");
            push_str(&mut m, trackname);
            push_str(&mut m, " not found.");
            Err(m)
        },
        Some(track) => Ok(CopyRequest { track, start_time: w[2].clone(), duration: w[3].clone() }),
    }
}

/// The message for a successful copy.
pub open spec fn copied_message(n: nat) -> Seq<char> {
    "Left copied to Clip "@ + decimal(n) + ", right copied to Clip "@ + decimal(n + 1)
}

/// Second stage of `copy`: copies `duration` from `start` of both channels
/// of a track into two new clips.
pub fn copy_clips<R, W, S: Time, T: Time>(
    env: &mut RawCliEnvironment<R, W>,
    track: usize,
    start: S,
    duration: T,
) -> (r: Result<String, String>)
    requires
        track < old(env).spec_tracks().len(),
    ensures
        final(env).spec_reader() == old(env).spec_reader(),
        final(env).spec_writer() == old(env).spec_writer(),
        final(env).spec_tracks() == old(env).spec_tracks(),
        ({
            let tr = old(env).spec_tracks()[track as int];
            let s = start.samples_in(tr.rate()) as int;
            let d = duration.samples_in(tr.rate()) as int;
            let n = old(env).spec_clips().len();
            if s + d > tr.length() {
                &&& r matches Err(m) && m@ == "Start or duration out of bounds"@
                &&& final(env).spec_clips() == old(env).spec_clips()
            } else {
                &&& r matches Ok(m) && m@ == copied_message(n)
                &&& final(env).spec_clips().len() == n + 2
                &&& final(env).spec_clips().subrange(0, n as int) == old(env).spec_clips()
                &&& final(env).spec_clips()[n as int].audio() == tr.left_audio().subrange(s, s + d)
                &&& final(env).spec_clips()[n + 1int].audio() == tr.right_audio().subrange(s, s + d)
                &&& final(env).spec_clips()[n as int].rate() == tr.rate()
                &&& final(env).spec_clips()[n + 1int].rate() == tr.rate()
            }
        }),
{
    let t = &env.tracks[track];
    let rate = t.sample_rate();
    let start_samples = start.to_samples(rate);
    let duration_samples = duration.to_samples(rate);
    let left = Subclip::new(t.left_channel_as_clip(), start_samples, duration_samples);
    let right = Subclip::new(t.right_channel_as_clip(), start_samples, duration_samples);
    match (left, right) {
        (Some(l), Some(rt)) => {
            let n = env.clips.len();
            env.clips.push(ClipRef::Sub(l));
            env.clips.push(ClipRef::Sub(rt));
            let mut m = String::new();
            push_str(&mut m, "Left copied to Clip ");
            push_decimal(&mut m, n as u64);
            push_str(&mut m, ", right copied to Clip ");
            assert(n + 1 < env.clips.len());
            push_decimal(&mut m, (n + 1) as u64);
            proof {
                assert(m@ =~= copied_message(n as nat));
                assert(env.clips@.subrange(0, n as int) =~= old(env).spec_clips());
            }
            Ok(m)
        },
        _ => {
            let m = String::from_str("Start or duration out of bounds");
            assert(m@ == "Start or duration out of bounds"@);
            Err(m)
        },
    }
}

/// What a well-formed `import` command names.
pub struct ImportRequest {
    pub file_name: String,
    pub track_name: String,
}

/// The message for a file of a type other than WAV.
pub open spec fn unsupported_message(extension: Option<Option<Seq<char>>>) -> Seq<char> {
    match extension {
        Some(Some(e)) => "Unsupported file type "@ + e + "."@,
        _ => "Unsupported file type ?."@,
    }
}

/// The index of the last `.` in `name`, or -1 when there is none.
pub open spec fn last_dot(name: Seq<char>) -> int
    decreases name.len(),
{
    if name.len() == 0 {
        -1
    } else if name.last() == '.' {
        name.len() - 1
    } else {
        last_dot(name.drop_last())
    }
}

/// The extension of a plain file name as std documents `Path::extension`:
/// none when the name has no `.`, or when its only `.` begins it; otherwise
/// the part after the last `.`.
pub open spec fn plain_extension(name: Seq<char>) -> Option<Seq<char>> {
    let k = last_dot(name);
    if k <= 0 {
        None
    } else {
        Some(name.subrange(k + 1, name.len() as int))
    }
}

/// The extension result for a file name.
pub open spec fn plain_extension_result(name: Seq<char>) -> Option<Option<Seq<char>>> {
    match plain_extension(name) {
        Some(e) => Some(Some(e)),
        None => None,
    }
}

/// Whether the path syntax of every platform reads `path` the same way: it
/// holds no `\` and no `:`, and does not start with `//`. (A single leading
/// `/` is the root on every platform; the root has no file name.)
pub open spec fn portable_path(path: Seq<char>) -> bool {
    &&& !(path.len() > 1 && path[0] == '/' && path[1] == '/')
    &&& forall|i: int| 0 <= i < path.len() ==> path[i] != '\\' && path[i] != ':'
}

/// The non-empty runs of characters of `path` between `/` separators, in
/// order.
pub open spec fn slash_pieces(path: Seq<char>) -> Seq<Seq<char>>
    decreases path.len(),
{
    if path.len() == 0 {
        seq![]
    } else {
        let w = slash_pieces(path.drop_last());
        let c = path.last();
        if c == '/' {
            w
        } else if path.len() >= 2 && path[path.len() - 2] != '/' {
            w.update(w.len() - 1, w.last().push(c))
        } else {
            w.push(seq![c])
        }
    }
}

/// The components of a portable path that can name a file: its pieces
/// without the `.` ones, which std's `Path::components` normalizes away (or
/// reads as the current directory when first).
pub open spec fn path_components(path: Seq<char>) -> Seq<Seq<char>> {
    slash_pieces(path).filter(|c: Seq<char>| c != seq!['.'])
}

/// The file name of a portable path as std documents `Path::file_name`: its
/// last component, or None when there is none or it is `..`.
pub open spec fn path_file_name(path: Seq<char>) -> Option<Seq<char>> {
    let comps = path_components(path);
    if comps.len() == 0 || comps.last() == seq!['.', '.'] {
        None
    } else {
        Some(comps.last())
    }
}

/// The extension result for a portable path: that of its file name, or None
/// when it has none.
pub open spec fn path_extension_result(path: Seq<char>) -> Option<Option<Seq<char>>> {
    match path_file_name(path) {
        Some(f) => plain_extension_result(f),
        None => None,
    }
}

/// Whether `c` separates the parts of a path on some platform: `/` on all,
/// `\` on Windows, and `:` after a Windows drive letter.
pub open spec fn path_separator(c: char) -> bool {
    c == '/' || c == '\\' || c == ':'
}

/// What follows the last separator of `path` (all of it when it has none).
pub open spec fn last_part(path: Seq<char>) -> Seq<char>
    decreases path.len(),
{
    if path.len() == 0 {
        seq![]
    } else if path_separator(path.last()) {
        seq![]
    } else {
        last_part(path.drop_last()).push(path.last())
    }
}

/// The extension that `path` has on every platform: that of its last part,
/// when that part is not `..` and the path does not begin with two slashes
/// or backslashes (which Windows reads as the prefix of a network or device
/// path). Whatever a platform takes for the file name, it ends with the last
/// part, so the last `.` of the last part, with something before it, is the
/// last `.` of the file name.
pub open spec fn sure_extension(path: Seq<char>) -> Option<Seq<char>> {
    if path.len() > 1 && (path[0] == '/' || path[0] == '\\') && (path[1] == '/' || path[1]
        == '\\') {
        None
    } else if last_part(path) == seq!['.', '.'] {
        None
    } else {
        plain_extension(last_part(path))
    }
}

/// A file name made of a stem and `.wav` has the extension `wav`, on every
/// platform, when the stem ends in something other than a separator and does
/// not begin with two slashes or backslashes.
pub proof fn wav_suffix_law(stem: Seq<char>)
    requires
        stem.len() > 0,
        !path_separator(stem.last()),
        !(stem.len() > 1 && (stem[0] == '/' || stem[0] == '\\') && (stem[1] == '/' || stem[1]
            == '\\')),
    ensures
        sure_extension(stem + seq!['.', 'w', 'a', 'v']) == Some("wav"@),
{
    reveal_strlit("wav");
    let p = stem + seq!['.', 'w', 'a', 'v'];
    let base = last_part(stem);
    assert(base.len() > 0) by {
        assert(stem =~= stem.drop_last().push(stem.last()));
    }
    assert(p.drop_last().drop_last().drop_last().drop_last() =~= stem);
    assert(last_part(p.drop_last().drop_last().drop_last()) == base.push('.'));
    assert(last_part(p.drop_last().drop_last()) == base.push('.').push('w'));
    assert(last_part(p.drop_last()) == base.push('.').push('w').push('a'));
    let part = base.push('.').push('w').push('a').push('v');
    assert(last_part(p) == part);
    assert(part.len() == base.len() + 4);
    assert(part != seq!['.', '.']);
    let b1 = base.push('.');
    let b2 = b1.push('w');
    let b3 = b2.push('a');
    assert(b1.drop_last() =~= base);
    assert(last_dot(b1) == base.len());
    assert(b2.drop_last() =~= b1);
    assert(last_dot(b2) == base.len());
    assert(b3.drop_last() =~= b2);
    assert(last_dot(b3) == base.len());
    assert(part.drop_last() =~= b3);
    assert(last_dot(part) == base.len());
    assert(part.subrange(base.len() + 1int, part.len() as int) =~= "wav"@);
    assert(p[0] == stem[0]);
    assert(stem.len() > 1 ==> p[1] == stem[1]);
}

/// The extension of a file name, as found by `std::path::Path::extension`,
/// and converted by `OsStr::to_str` (None inside when it is not UTF-8).
/// For a portable path the result is what std documents on every platform:
/// the extension of the path's file name (its last component): the part
/// after the last `.`, or None when the name has no `.` or its only `.`
/// begins it. The extension, a part of a `&str` cut at a `.`, is always
/// UTF-8. Of any other path it states the extension when `sure_extension`
/// finds one, which every platform's path syntax agrees on; the rest is left
/// unsaid, as what std takes for the file name there depends on the
/// platform.
#[verifier::external_body]
fn file_extension(file_name: &str) -> (r: Option<Option<String>>)
    ensures
        portable_path(file_name@) ==> extension_view(r) == path_extension_result(file_name@),
        sure_extension(file_name@) matches Some(e) ==> extension_view(r) == Some(Some(e)),
{
    match std::path::Path::new(file_name).extension() {
        None => None,
        Some(ext) => match ext.to_str() {
            Some(e) => Some(Some(e.to_string())),
            None => Some(None),
        },
    }
}

/// The characters of an extension result.
pub open spec fn extension_view(extension: Option<Option<String>>) -> Option<Option<Seq<char>>> {
    match extension {
        Some(Some(e)) => Some(Some(e@)),
        Some(None) => Some(None),
        None => None,
    }
}

/// Accepts the extension `wav` and refuses any other.
pub fn check_extension(extension: Option<Option<String>>) -> (r: Result<(), String>)
    ensures
        match extension {
            Some(Some(e)) => if e@ == "wav"@ {
                r is Ok
            } else {
                r matches Err(m) && m@ == unsupported_message(Some(Some(e@)))
            },
            _ => r matches Err(m) && m@ == unsupported_message(None),
        },
{
    match extension {
        Some(Some(e)) => {
            if same_text(e.as_str(), "wav") {
                Ok(())
            } else {
                let mut m = String::new();
                push_str(&mut m, "Unsupported file type ");
                push_str(&mut m, e.as_str());
                push_str(&mut m, ".");
                Err(m)
            }
        },
        _ => Err(String::from_str("Unsupported file type ?.")),
    }
}

/// First stage of `import <file name> <track name>`: checks the arguments,
/// the keyword and the file's extension.
pub fn import_target(cmd: &str) -> (r: Result<ImportRequest, String>)
    ensures
        ({
            let w = words(cmd@);
            if w.len() != 3 {
                r matches Err(m) && m@ == arg_count_message(
                    2,
                    w.len() - 1,
                    "import <file name> <track name>"@,
                )
            } else if w[0] != "import"@ {
                r matches Err(m) && m@ == wrong_keyword_message("import"@, w[0])
            } else if portable_path(w[1]) {
                if path_extension_result(w[1]) == Some(Some("wav"@)) {
                    r matches Ok(req) && req.file_name@ == w[1] && req.track_name@ == w[2]
                } else {
                    r matches Err(m) && m@ == unsupported_message(path_extension_result(w[1]))
                }
            } else {
                match r {
                    Ok(req) => req.file_name@ == w[1] && req.track_name@ == w[2],
                    Err(m) => exists|e: Option<Option<Seq<char>>>|
                        m@ == unsupported_message(e) && e != Some(Some("wav"@)),
                }
            }
        }),
        ({
            let w = words(cmd@);
            w.len() == 3 && w[0] == "import"@ ==> match sure_extension(w[1]) {
                Some(e) => if e == "wav"@ {
                    r matches Ok(req) && req.file_name@ == w[1] && req.track_name@ == w[2]
                } else {
                    r matches Err(m) && m@ == unsupported_message(Some(Some(e)))
                },
                None => true,
            }
        }),
{
    let w = check_num_args(cmd, 2, "import <file name> <track name>")?;
    check_keyword(Some(w[0].as_str()), "import")?;
    let file_name = w[1].clone();
    let track_name = w[2].clone();
    let extension = file_extension(file_name.as_str());
    let ghost ext_view = extension_view(extension);
    match check_extension(extension) {
        Ok(()) => Ok(ImportRequest { file_name, track_name }),
        Err(m) => {
            assert(m@ == unsupported_message(ext_view));
            Err(m)
        },
    }
}

/// The message for a file that could not be read, or whose header hound
/// rejects.
pub open spec fn read_error_message(file: Seq<char>) -> Seq<char> {
    "Error reading from file "@ + file
}

/// The message for an import of a file with `channels` channels.
pub open spec fn imported_message(channels: nat, file: Seq<char>, track: Seq<char>) -> Seq<char> {
    if channels == 1 || channels == 2 {
        "Created track "@ + track
    } else if channels > 2 {
        "Warning: "@ + file
            + " contains more than 2 channels; channels beyond the first two were truncated."@
    } else {
        "File was empty; created empty track "@ + track
    }
}

fn read_error(file_name: &str) -> (m: String)
    ensures
        m@ == read_error_message(file_name@),
{
    let mut m = String::new();
    push_str(&mut m, "Error reading from file ");
    push_str(&mut m, file_name);
    m
}

/// Second stage of `import`: makes a track named after the request from the
/// contents of the file (None when the file could not be read). A
/// one-channel file becomes the track's audio; the track of a file with more
/// channels stays empty.
pub fn import_file<R, W>(
    env: &mut RawCliEnvironment<R, W>,
    request: &ImportRequest,
    contents: Option<Vec<u8>>,
) -> (r: Result<String, String>)
    ensures
        final(env).spec_reader() == old(env).spec_reader(),
        final(env).spec_writer() == old(env).spec_writer(),
        final(env).spec_clips() == old(env).spec_clips(),
        ({
            let file = request.file_name@;
            let old_tracks = old(env).spec_tracks();
            let tracks = final(env).spec_tracks();
            match contents {
                None => r matches Err(m) && m@ == read_error_message(file) && tracks == old_tracks,
                Some(b) => match wav_decoding(b@) {
                    None => r matches Err(m) && m@ == read_error_message(file) && tracks
                        == old_tracks,
                    Some((_, rate, _)) => match decoded_channels(b@) {
                        None => r matches Err(m) && m@ == read_error_message(file) + "."@ && tracks
                            == old_tracks,
                        Some(chs) => {
                            &&& r matches Ok(m) && m@ == imported_message(
                                chs.len(),
                                file,
                                request.track_name@,
                            )
                            &&& tracks.len() == old_tracks.len() + 1
                            &&& tracks.subrange(0, old_tracks.len() as int) == old_tracks
                            &&& tracks.last().name_view() == request.track_name@
                            &&& tracks.last().rate() == rate
                            &&& tracks.last().left_audio() == (if chs.len() == 1 {
                                chs[0].1
                            } else {
                                Seq::empty()
                            })
                            &&& tracks.last().right_audio() == (if chs.len() == 1 {
                                chs[0].1
                            } else {
                                Seq::empty()
                            })
                            &&& tracks.last().left_arrangement().len() == (if chs.len() == 1 {
                                1int
                            } else {
                                0int
                            })
                            &&& tracks.last().right_arrangement().len() == (if chs.len() == 1 {
                                1int
                            } else {
                                0int
                            })
                            &&& chs.len() == 1 ==> {
                                &&& tracks.last().left_arrangement()[0].position == 0
                                &&& tracks.last().left_arrangement()[0].clip.audio() == chs[0].1
                                &&& tracks.last().right_arrangement()[0].position == 0
                                &&& tracks.last().right_arrangement()[0].clip.audio() == chs[0].1
                            }
                        },
                    },
                },
            }
        }),
{
    let file_name = request.file_name.as_str();
    let bytes = match contents {
        Some(b) => b,
        None => {
            return Err(read_error(file_name));
        },
    };
    let decoded = decode_wav(bytes.as_slice());
    let sample_rate = match &decoded {
        None => {
            return Err(read_error(file_name));
        },
        Some((_, rate, _)) => *rate,
    };
    match channels_of(decoded) {
        None => {
            let mut m = read_error(file_name);
            push_str(&mut m, ".");
            Err(m)
        },
        Some(channels) => {
            let ghost old_tracks = env.tracks@;
            let mut track = Track::new(request.track_name.clone(), sample_rate);
            let n = channels.len();
            if n == 1 {
                proof {
                    assert(channels@[0].samples.len() <= usize::MAX);
                    assert(clip_views(channels@)[0].0 == channels@[0].sample_rate);
                    assert(clip_views(channels@)[0].0 == sample_rate);
                }
                let first = ClipRef::Samples(Arc::clone(&channels[0]));
                let ghost audio = first.audio();
                let ghost inserted = first;
                let ghost before = track;
                track.insert_mono(first, 0);
                proof {
                    let li = choose|idx: int|
                        inserted_arrangement(
                            before.left_arrangement(),
                            track.left_arrangement(),
                            inserted,
                            0,
                            idx,
                        );
                    let ri = choose|idx: int|
                        inserted_arrangement(
                            before.right_arrangement(),
                            track.right_arrangement(),
                            inserted,
                            0,
                            idx,
                        );
                    assert(li == 0 && ri == 0);
                    assert(track.left_audio() =~= audio);
                    assert(track.right_audio() =~= audio);
                }
            } else {
                proof {
                    assert(track.left_audio() =~= Seq::<Sample>::empty());
                    assert(track.right_audio() =~= Seq::<Sample>::empty());
                }
            }
            env.tracks.push(track);
            proof {
                assert(env.tracks@.subrange(0, old_tracks.len() as int) =~= old_tracks);
            }
            let mut m = String::new();
            if n == 1 || n == 2 {
                push_str(&mut m, "Created track ");
                push_str(&mut m, request.track_name.as_str());
            } else if n > 2 {
                push_str(&mut m, "Warning: ");
                push_str(&mut m, file_name);
                push_str(
                    &mut m,
                    " contains more than 2 channels; channels beyond the first two were truncated.",
                );
            } else {
                push_str(&mut m, "File was empty; created empty track ");
                push_str(&mut m, request.track_name.as_str());
            }
            Ok(m)
        },
    }
}

/// The command a line asks for, by its first word.
pub enum CommandKind {
    /// The line holds no word.
    Blank,
    Copy,
    Import,
    /// Any other first word.
    Unknown(String),
}

/// Which command the line `cmd` asks for.
pub fn command_kind(cmd: &str) -> (r: CommandKind)
    ensures
        ({
            let w = words(cmd@);
            if w.len() == 0 {
                r is Blank
            } else if w[0] == "copy"@ {
                r is Copy
            } else if w[0] == "import"@ {
                r is Import
            } else {
                r matches CommandKind::Unknown(name) && name@ == w[0]
            }
        }),
{
    let w = split_words(cmd);
    if w.len() == 0 {
        CommandKind::Blank
    } else if same_text(w[0].as_str(), "copy") {
        CommandKind::Copy
    } else if same_text(w[0].as_str(), "import") {
        CommandKind::Import
    } else {
        CommandKind::Unknown(w[0].clone())
    }
}

/// The reply to a command that does not exist.
pub open spec fn unknown_command_message(name: Seq<char>) -> Seq<char> {
    "Unknown command "@ + name
}

/// The reply to a command that does not exist.
pub fn unknown_command(name: &str) -> (m: String)
    ensures
        m@ == unknown_command_message(name@),
{
    let mut m = String::new();
    push_str(&mut m, "Unknown command ");
    push_str(&mut m, name);
    m
}

} // verus!
