//! Media tools: the ffmpeg jobs of the video processor (panel and agent
//! API), where their outputs go, and how their results are reported.
use vstd::prelude::*;

use crate::json::opt_view;
use crate::mcp::str_or;
use crate::paths::{join, spec_join};
use crate::text::{
    html_escape, last_lines, lit, nat_digits, push_u64, spec_html_escape, spec_last_lines,
    spec_trim, spec_utf8_lossy, str_eq, trim, utf8_lossy,
};

verus! {

// ── Output locations ────────────────────────────────────────────────────────

/// `~/<kind>/Eleutheria`, with `/tmp` for a missing home.
pub open spec fn spec_media_dir(home: Option<Seq<char>>, kind: Seq<char>) -> Seq<char> {
    spec_join(spec_join(str_or(home, "/tmp"@), kind), "Eleutheria"@)
}

/// The folder a tool saves its files in under the home folder.
pub fn media_dir(home: Option<&str>, kind: &str) -> (r: String)
    ensures
        r@ == spec_media_dir(
            match home {
                Some(h) => Some(h@),
                None => None,
            },
            kind@,
        ),
{
    let h = match home {
        Some(h) => lit(h),
        None => lit("/tmp"),
    };
    let k = join(h.as_str(), kind);
    join(k.as_str(), "Eleutheria")
}

/// Where a job writes: a video named by a label, or audio with an extension.
pub enum OutputTarget {
    Video(String),
    Audio(String),
}

/// A target as plain values: `(true, label)` for video, `(false, ext)` for
/// audio.
pub open spec fn target_view(t: OutputTarget) -> (bool, Seq<char>) {
    match t {
        OutputTarget::Video(l) => (true, l@),
        OutputTarget::Audio(e) => (false, e@),
    }
}

/// The file of a target at a time: `~/Videos/Eleutheria/video-<label>-<secs>.mp4`
/// or `~/Music/Eleutheria/audio-<secs>.<ext>`.
pub open spec fn spec_output_path(t: (bool, Seq<char>), home: Option<Seq<char>>, secs: nat) -> Seq<char> {
    if t.0 {
        spec_join(spec_media_dir(home, "Videos"@), "video-"@ + t.1 + "-"@ + nat_digits(secs) + ".mp4"@)
    } else {
        spec_join(spec_media_dir(home, "Music"@), "audio-"@ + nat_digits(secs) + "."@ + t.1)
    }
}

/// The file a job writes.
pub fn output_path(t: &OutputTarget, home: Option<&str>, secs: u64) -> (r: String)
    ensures
        r@ == spec_output_path(
            target_view(*t),
            match home {
                Some(h) => Some(h@),
                None => None,
            },
            secs as nat,
        ),
{
    match t {
        OutputTarget::Video(label) => {
            let dir = media_dir(home, "Videos");
            let mut name = lit("video-");
            name.append(label.as_str());
            name.append("-");
            push_u64(&mut name, secs);
            name.append(".mp4");
            join(dir.as_str(), name.as_str())
        },
        OutputTarget::Audio(ext) => {
            let dir = media_dir(home, "Music");
            let mut name = lit("audio-");
            push_u64(&mut name, secs);
            name.append(".");
            name.append(ext.as_str());
            join(dir.as_str(), name.as_str())
        },
    }
}

/// A file named `<prefix><secs><suffix>` in a tool's folder.
pub open spec fn spec_stamped_path(home: Option<Seq<char>>, kind: Seq<char>, prefix: Seq<char>, secs: nat, suffix: Seq<char>) -> Seq<char> {
    spec_join(spec_media_dir(home, kind), prefix + nat_digits(secs) + suffix)
}

/// The file of a recording or an export: `~/<kind>/Eleutheria/<prefix><secs><suffix>`.
pub fn stamped_path(home: Option<&str>, kind: &str, prefix: &str, secs: u64, suffix: &str) -> (r: String)
    ensures
        r@ == spec_stamped_path(
            match home {
                Some(h) => Some(h@),
                None => None,
            },
            kind@,
            prefix@,
            secs as nat,
            suffix@,
        ),
{
    let dir = media_dir(home, kind);
    let mut name = lit(prefix);
    push_u64(&mut name, secs);
    name.append(suffix);
    join(dir.as_str(), name.as_str())
}

// ── Reports ─────────────────────────────────────────────────────────────────

/// The last lines of a tool's error output, decoded leniently.
pub open spec fn spec_trim_stderr(raw: Seq<u8>, n: nat) -> Seq<char> {
    spec_last_lines(spec_utf8_lossy(raw), n)
}

/// Keeps the last `n` lines of a tool's error output.
pub fn trim_stderr(raw: &[u8], n: usize) -> (r: String)
    ensures
        r@ == spec_trim_stderr(raw@, n as nat),
{
    let s = utf8_lossy(raw);
    last_lines(s.as_str(), n)
}

/// The panel's card for a finished job.
pub open spec fn spec_success_card(output: Seq<char>, label: Seq<char>) -> Seq<char> {
    "<div class=\"flex flex-col gap-2\">\n  <span class=\"text-green-400 text-sm font-medium\">✓ "@ + label
        + " complete</span>\n  <code class=\"text-xs text-gray-300 bg-gray-800 rounded px-3 py-2 break-all select-all\">"@
        + spec_html_escape(output) + "</code>\n</div>"@
}

/// Reports a finished job.
pub fn success_card(output: &str, label: &str) -> (r: String)
    ensures
        r@ == spec_success_card(output@, label@),
{
    let mut r = lit("<div class=\"flex flex-col gap-2\">\n  <span class=\"text-green-400 text-sm font-medium\">✓ ");
    r.append(label);
    r.append(" complete</span>\n  <code class=\"text-xs text-gray-300 bg-gray-800 rounded px-3 py-2 break-all select-all\">");
    let e = html_escape(output);
    r.append(e.as_str());
    r.append("</code>\n</div>");
    r
}

/// The panel's card for a failure.
pub open spec fn spec_error_card(msg: Seq<char>) -> Seq<char> {
    "<pre class=\"text-red-400 text-xs whitespace-pre-wrap break-all\">"@ + spec_html_escape(msg) + "</pre>"@
}

/// Reports a failure.
pub fn error_card(msg: &str) -> (r: String)
    ensures
        r@ == spec_error_card(msg@),
{
    let mut r = lit("<pre class=\"text-red-400 text-xs whitespace-pre-wrap break-all\">");
    let e = html_escape(msg);
    r.append(e.as_str());
    r.append("</pre>");
    r
}

/// How an ffmpeg run ended.
pub enum RunResult {
    /// It ran; whether it succeeded, and its error output.
    Exited { success: bool, stderr: Vec<u8> },
    /// It could not be started.
    NotStarted(String),
}

/// The panel's report of a job: success card, or the last 25 lines of the
/// error output, or why ffmpeg did not start.
pub fn ffmpeg_report(result: &RunResult, output: &str, label: &str) -> (r: String)
    ensures
        r@ == match result {
            RunResult::Exited { success, stderr } => if *success {
                spec_success_card(output@, label@)
            } else {
                spec_error_card(spec_trim_stderr(stderr@, 25))
            },
            RunResult::NotStarted(e) => spec_error_card(e@),
        },
{
    match result {
        RunResult::Exited { success, stderr } => {
            if *success {
                success_card(output, label)
            } else {
                let t = trim_stderr(stderr.as_slice(), 25);
                error_card(t.as_str())
            }
        },
        RunResult::NotStarted(e) => error_card(e.as_str()),
    }
}

// ── Video jobs ──────────────────────────────────────────────────────────────

/// The video panel's form.
pub struct ProcessForm {
    pub path: String,
    pub operation: String,
    pub start: String,
    pub end: String,
    pub audio_format: String,
    pub qp: u32,
    pub compress_resolution: String,
    pub resize_resolution: String,
}

/// The quality parameter when the form gives none.
pub fn default_qp() -> (r: u32)
    ensures
        r == 28,
{
    28
}

/// The agent API's video form.
pub struct VideoForm {
    pub operation: String,
    pub input_path: String,
    pub start: String,
    pub end: String,
    pub audio_format: String,
    pub crf: u32,
    pub compress_resolution: String,
    pub resize_resolution: String,
}

/// The audio format when the agent gives none.
pub fn default_audio_format() -> (r: String)
    ensures
        r@ == "mp3"@,
{
    lit("mp3")
}

/// The quality factor when the agent gives none.
pub fn default_crf() -> (r: u32)
    ensures
        r == 28,
{
    28
}

/// An ffmpeg job: where it writes, its arguments before the output file
/// (which comes last), and the name of the operation for the report.
pub struct VideoJob {
    pub target: OutputTarget,
    pub args: Vec<String>,
    pub label: String,
}

/// A job as plain values.
pub open spec fn job_view(j: VideoJob) -> ((bool, Seq<char>), Seq<Seq<char>>, Seq<char>) {
    (target_view(j.target), crate::tags::views(j.args@), j.label@)
}

/// `clamp(18, 40)`.
pub open spec fn clamp_quality(q: u32) -> nat {
    if q < 18 {
        18
    } else if q > 40 {
        40
    } else {
        q as nat
    }
}

/// Codec and extension of an extracted audio format: WAV, FLAC, else MP3.
pub open spec fn audio_codec(format: Seq<char>) -> (Seq<char>, Seq<char>) {
    if format == "wav"@ {
        ("pcm_s16le"@, "wav"@)
    } else if format == "flac"@ {
        ("flac"@, "flac"@)
    } else {
        ("libmp3lame"@, "mp3"@)
    }
}

/// The job the video panel runs on a (trimmed, non-empty) input file.
pub open spec fn spec_panel_job(input: Seq<char>, f: ProcessForm) -> Result<
    ((bool, Seq<char>), Seq<Seq<char>>, Seq<char>),
    Seq<char>,
> {
    let op = f.operation@;
    if op == "trim"@ {
        let start = spec_trim(f.start@);
        let end = spec_trim(f.end@);
        if start.len() == 0 || end.len() == 0 {
            Err("Start and end times are required."@)
        } else {
            Ok(
                (
                    (true, "trim"@),
                    seq!["-y"@, "-i"@, input, "-ss"@, start, "-to"@, end, "-c"@, "copy"@],
                    "Trim"@,
                ),
            )
        }
    } else if op == "extract_audio"@ {
        let (codec, ext) = audio_codec(f.audio_format@);
        Ok(((false, ext), seq!["-y"@, "-i"@, input, "-vn"@, "-c:a"@, codec], "Extract audio"@))
    } else if op == "compress"@ {
        let res = f.compress_resolution@;
        let vf = if res == "1080"@ || res == "720"@ || res == "480"@ {
            "scale=-2:"@ + res + ",format=nv12,hwupload"@
        } else {
            "format=nv12,hwupload"@
        };
        Ok(
            (
                (true, "compressed"@),
                seq![
                    "-y"@,
                    "-vaapi_device"@,
                    "/dev/dri/renderD128"@,
                    "-i"@,
                    input,
                    "-vf"@,
                    vf,
                    "-c:v"@,
                    "h264_vaapi"@,
                    "-qp"@,
                    nat_digits(clamp_quality(f.qp)),
                ],
                "Compress"@,
            ),
        )
    } else if op == "resize"@ {
        let h = spec_trim(f.resize_resolution@);
        if h == "1080"@ || h == "720"@ || h == "480"@ || h == "360"@ || h == "240"@ {
            Ok(
                (
                    (true, h + "p"@),
                    seq![
                        "-y"@,
                        "-vaapi_device"@,
                        "/dev/dri/renderD128"@,
                        "-i"@,
                        input,
                        "-vf"@,
                        "scale=-2:"@ + h + ",format=nv12,hwupload"@,
                        "-c:v"@,
                        "h264_vaapi"@,
                        "-qp"@,
                        "28"@,
                    ],
                    "Resize"@,
                ),
            )
        } else {
            Err("Select a valid target resolution."@)
        }
    } else {
        Err("Unknown operation: "@ + op)
    }
}

fn quality_text(q: u32) -> (r: String)
    ensures
        r@ == nat_digits(clamp_quality(q)),
{
    let c: u32 = if q < 18 {
        18
    } else if q > 40 {
        40
    } else {
        q
    };
    let mut s = String::new();
    push_u64(&mut s, c as u64);
    s
}

/// The input of a panel job: the trimmed path, which must not be empty.
pub fn panel_input(path: &str) -> (r: Result<String, String>)
    ensures
        spec_trim(path@).len() == 0 ==> r is Err && r->Err_0@ == "Input path is required."@,
        spec_trim(path@).len() > 0 ==> r is Ok && r->Ok_0@ == spec_trim(path@),
{
    let t = trim(path);
    if t.as_str().is_empty() {
        Err(lit("Input path is required."))
    } else {
        Ok(t)
    }
}

/// The message for an input that is not a file.
pub fn file_not_found(input: &str) -> (r: String)
    ensures
        r@ == "File not found: "@ + input@,
{
    crate::text::concat("File not found: ", input)
}

/// Plans the video panel's job on an existing input file.
pub fn plan_panel_job(input: &str, f: &ProcessForm) -> (r: Result<VideoJob, String>)
    ensures
        match spec_panel_job(input@, *f) {
            Ok(j) => r is Ok && job_view(r->Ok_0) == j,
            Err(e) => r is Err && r->Err_0@ == e,
        },
{
    let op = f.operation.as_str();
    if str_eq(op, "trim") {
        let start = trim(f.start.as_str());
        let end = trim(f.end.as_str());
        if start.as_str().is_empty() || end.as_str().is_empty() {
            return Err(lit("Start and end times are required."));
        }
        let mut args: Vec<String> = Vec::new();
        args.push(lit("-y"));
        args.push(lit("-i"));
        args.push(lit(input));
        args.push(lit("-ss"));
        args.push(start);
        args.push(lit("-to"));
        args.push(end);
        args.push(lit("-c"));
        args.push(lit("copy"));
        let r = VideoJob { target: OutputTarget::Video(lit("trim")), args, label: lit("Trim") };
        proof {
            assert(job_view(r).1 =~= spec_panel_job(input@, *f)->Ok_0.1);
        }
        Ok(r)
    } else if str_eq(op, "extract_audio") {
        let fmt = f.audio_format.as_str();
        let (codec, ext) = if str_eq(fmt, "wav") {
            ("pcm_s16le", "wav")
        } else if str_eq(fmt, "flac") {
            ("flac", "flac")
        } else {
            ("libmp3lame", "mp3")
        };
        let mut args: Vec<String> = Vec::new();
        args.push(lit("-y"));
        args.push(lit("-i"));
        args.push(lit(input));
        args.push(lit("-vn"));
        args.push(lit("-c:a"));
        args.push(lit(codec));
        let r = VideoJob { target: OutputTarget::Audio(lit(ext)), args, label: lit("Extract audio") };
        proof {
            assert(job_view(r).1 =~= spec_panel_job(input@, *f)->Ok_0.1);
        }
        Ok(r)
    } else if str_eq(op, "compress") {
        let res = f.compress_resolution.as_str();
        let vf = if str_eq(res, "1080") || str_eq(res, "720") || str_eq(res, "480") {
            let mut s = lit("scale=-2:");
            s.append(res);
            s.append(",format=nv12,hwupload");
            s
        } else {
            lit("format=nv12,hwupload")
        };
        let mut args: Vec<String> = Vec::new();
        args.push(lit("-y"));
        args.push(lit("-vaapi_device"));
        args.push(lit("/dev/dri/renderD128"));
        args.push(lit("-i"));
        args.push(lit(input));
        args.push(lit("-vf"));
        args.push(vf);
        args.push(lit("-c:v"));
        args.push(lit("h264_vaapi"));
        args.push(lit("-qp"));
        args.push(quality_text(f.qp));
        let r = VideoJob { target: OutputTarget::Video(lit("compressed")), args, label: lit("Compress") };
        proof {
            assert(job_view(r).1 =~= spec_panel_job(input@, *f)->Ok_0.1);
        }
        Ok(r)
    } else if str_eq(op, "resize") {
        let h = trim(f.resize_resolution.as_str());
        let hs = h.as_str();
        if !(str_eq(hs, "1080") || str_eq(hs, "720") || str_eq(hs, "480") || str_eq(hs, "360") || str_eq(
            hs,
            "240",
        )) {
            return Err(lit("Select a valid target resolution."));
        }
        let mut vf = lit("scale=-2:");
        vf.append(hs);
        vf.append(",format=nv12,hwupload");
        let mut label = lit(hs);
        label.append("p");
        let mut args: Vec<String> = Vec::new();
        args.push(lit("-y"));
        args.push(lit("-vaapi_device"));
        args.push(lit("/dev/dri/renderD128"));
        args.push(lit("-i"));
        args.push(lit(input));
        args.push(lit("-vf"));
        args.push(vf);
        args.push(lit("-c:v"));
        args.push(lit("h264_vaapi"));
        args.push(lit("-qp"));
        args.push(lit("28"));
        let r = VideoJob { target: OutputTarget::Video(label), args, label: lit("Resize") };
        proof {
            assert(job_view(r).1 =~= spec_panel_job(input@, *f)->Ok_0.1);
        }
        Ok(r)
    } else {
        Err(crate::text::concat("Unknown operation: ", op))
    }
}

/// The job the agent API runs on an existing input file (already trimmed).
pub open spec fn spec_agent_job(input: Seq<char>, f: VideoForm) -> Result<
    ((bool, Seq<char>), Seq<Seq<char>>),
    Seq<char>,
> {
    let op = f.operation@;
    if op == "trim"@ {
        let start = spec_trim(f.start@);
        let end = spec_trim(f.end@);
        if start.len() == 0 || end.len() == 0 {
            Err("start and end are required for trim"@)
        } else {
            Ok(((true, "trim"@), seq!["-y"@, "-i"@, input, "-ss"@, start, "-to"@, end, "-c"@, "copy"@]))
        }
    } else if op == "extract_audio"@ {
        let (codec, ext) = audio_codec(f.audio_format@);
        Ok(((false, ext), seq!["-y"@, "-i"@, input, "-vn"@, "-c:a"@, codec]))
    } else if op == "compress"@ {
        let res = f.compress_resolution@;
        let scale = if res.len() > 0 && res != "original"@ {
            seq!["-vf"@, "scale=-2:"@ + res]
        } else {
            seq![]
        };
        Ok(
            (
                (true, "compressed"@),
                seq!["-y"@, "-i"@, input] + scale + seq![
                    "-c:v"@,
                    "libx264"@,
                    "-crf"@,
                    nat_digits(clamp_quality(f.crf)),
                    "-preset"@,
                    "fast"@,
                ],
            ),
        )
    } else if op == "resize"@ {
        let h = if f.resize_resolution@.len() == 0 {
            "720"@
        } else {
            f.resize_resolution@
        };
        Ok(
            (
                (true, "resized"@),
                seq![
                    "-y"@,
                    "-i"@,
                    input,
                    "-vf"@,
                    "scale=-2:"@ + h,
                    "-c:v"@,
                    "libx264"@,
                    "-crf"@,
                    nat_digits(clamp_quality(f.crf)),
                    "-preset"@,
                    "fast"@,
                ],
            ),
        )
    } else {
        Err("Unknown operation: "@ + op)
    }
}

/// Plans the agent API's video job on an existing input file.
pub fn plan_agent_job(input: &str, f: &VideoForm) -> (r: Result<(OutputTarget, Vec<String>), String>)
    ensures
        match spec_agent_job(input@, *f) {
            Ok(j) => r matches Ok((t, a)) && target_view(t) == j.0 && crate::tags::views(a@) == j.1,
            Err(e) => r is Err && r->Err_0@ == e,
        },
{
    let op = f.operation.as_str();
    if str_eq(op, "trim") {
        let start = trim(f.start.as_str());
        let end = trim(f.end.as_str());
        if start.as_str().is_empty() || end.as_str().is_empty() {
            return Err(lit("start and end are required for trim"));
        }
        let mut args: Vec<String> = Vec::new();
        args.push(lit("-y"));
        args.push(lit("-i"));
        args.push(lit(input));
        args.push(lit("-ss"));
        args.push(start);
        args.push(lit("-to"));
        args.push(end);
        args.push(lit("-c"));
        args.push(lit("copy"));
        proof {
            assert(crate::tags::views(args@) =~= spec_agent_job(input@, *f)->Ok_0.1);
        }
        Ok((OutputTarget::Video(lit("trim")), args))
    } else if str_eq(op, "extract_audio") {
        let fmt = f.audio_format.as_str();
        let (codec, ext) = if str_eq(fmt, "wav") {
            ("pcm_s16le", "wav")
        } else if str_eq(fmt, "flac") {
            ("flac", "flac")
        } else {
            ("libmp3lame", "mp3")
        };
        let mut args: Vec<String> = Vec::new();
        args.push(lit("-y"));
        args.push(lit("-i"));
        args.push(lit(input));
        args.push(lit("-vn"));
        args.push(lit("-c:a"));
        args.push(lit(codec));
        proof {
            assert(crate::tags::views(args@) =~= spec_agent_job(input@, *f)->Ok_0.1);
        }
        Ok((OutputTarget::Audio(lit(ext)), args))
    } else if str_eq(op, "compress") {
        let res = f.compress_resolution.as_str();
        let mut args: Vec<String> = Vec::new();
        args.push(lit("-y"));
        args.push(lit("-i"));
        args.push(lit(input));
        let ghost head = crate::tags::views(args@);
        let scaled = !res.is_empty() && !str_eq(res, "original");
        if scaled {
            args.push(lit("-vf"));
            let mut s = lit("scale=-2:");
            s.append(res);
            args.push(s);
        }
        let ghost mid = crate::tags::views(args@);
        args.push(lit("-c:v"));
        args.push(lit("libx264"));
        args.push(lit("-crf"));
        args.push(quality_text(f.crf));
        args.push(lit("-preset"));
        args.push(lit("fast"));
        proof {
            let j = spec_agent_job(input@, *f)->Ok_0.1;
            if scaled {
                assert(mid =~= head + seq!["-vf"@, "scale=-2:"@ + res@]);
            } else {
                assert(mid =~= head + Seq::<Seq<char>>::empty());
            }
            assert(crate::tags::views(args@) =~= j);
        }
        Ok((OutputTarget::Video(lit("compressed")), args))
    } else if str_eq(op, "resize") {
        let h = if f.resize_resolution.as_str().is_empty() {
            lit("720")
        } else {
            f.resize_resolution.clone()
        };
        let mut vf = lit("scale=-2:");
        vf.append(h.as_str());
        let mut args: Vec<String> = Vec::new();
        args.push(lit("-y"));
        args.push(lit("-i"));
        args.push(lit(input));
        args.push(lit("-vf"));
        args.push(vf);
        args.push(lit("-c:v"));
        args.push(lit("libx264"));
        args.push(lit("-crf"));
        args.push(quality_text(f.crf));
        args.push(lit("-preset"));
        args.push(lit("fast"));
        proof {
            assert(crate::tags::views(args@) =~= spec_agent_job(input@, *f)->Ok_0.1);
        }
        Ok((OutputTarget::Video(lit("resized")), args))
    } else {
        Err(crate::text::concat("Unknown operation: ", op))
    }
}

// ── Recorders ───────────────────────────────────────────────────────────────

/// The audio recorder's form.
pub struct StartParams {
    pub format: String,
}

/// The recording format when the form gives none.
pub fn default_format() -> (r: String)
    ensures
        r@ == "mp3"@,
{
    lit("mp3")
}

/// The extension of a recording format: WAV, OGG, FLAC, else MP3.
pub open spec fn spec_audio_ext(format: Seq<char>) -> Seq<char> {
    if format == "wav"@ || format == "ogg"@ || format == "flac"@ {
        format
    } else {
        "mp3"@
    }
}

/// The extension a recording is saved with.
pub fn audio_ext(format: &str) -> (r: String)
    ensures
        r@ == spec_audio_ext(format@),
{
    if str_eq(format, "wav") || str_eq(format, "ogg") || str_eq(format, "flac") {
        lit(format)
    } else {
        lit("mp3")
    }
}

/// The ffmpeg codec arguments of a recording format.
pub open spec fn spec_codec_args(format: Seq<char>) -> Seq<Seq<char>> {
    if format == "wav"@ {
        seq!["-c:a"@, "pcm_s16le"@]
    } else if format == "ogg"@ {
        seq!["-c:a"@, "libvorbis"@]
    } else if format == "flac"@ {
        seq!["-c:a"@, "flac"@]
    } else {
        seq!["-c:a"@, "libmp3lame"@]
    }
}

/// ffmpeg codec arguments for each supported format (MP3 by default).
pub fn codec_args(format: &str) -> (r: Vec<String>)
    ensures
        crate::tags::views(r@) == spec_codec_args(format@),
{
    let codec = if str_eq(format, "wav") {
        "pcm_s16le"
    } else if str_eq(format, "ogg") {
        "libvorbis"
    } else if str_eq(format, "flac") {
        "flac"
    } else {
        "libmp3lame"
    };
    let mut v: Vec<String> = Vec::new();
    v.push(lit("-c:a"));
    v.push(lit(codec));
    proof {
        assert(crate::tags::views(v@) =~= spec_codec_args(format@));
    }
    v
}

/// The ffmpeg arguments that record the default PulseAudio source.
pub fn audio_record_args(ext: &str, output: &str) -> (r: Vec<String>)
    ensures
        crate::tags::views(r@) == seq!["-y"@, "-f"@, "pulse"@, "-i"@, "default"@] + spec_codec_args(ext@)
            + seq![output@],
{
    let mut v: Vec<String> = Vec::new();
    v.push(lit("-y"));
    v.push(lit("-f"));
    v.push(lit("pulse"));
    v.push(lit("-i"));
    v.push(lit("default"));
    let c = codec_args(ext);
    proof {
        assert(crate::tags::views(c@).len() == 2);
        assert(crate::tags::views(c@)[0] == c@[0]@);
        assert(crate::tags::views(c@)[1] == c@[1]@);
    }
    v.push(c[0].clone());
    v.push(c[1].clone());
    v.push(lit(output));
    proof {
        assert(crate::tags::views(v@) =~= seq!["-y"@, "-f"@, "pulse"@, "-i"@, "default"@] + spec_codec_args(
            ext@,
        ) + seq![output@]);
    }
    v
}

/// The name shown for a saved recording: its extension in capitals, or
/// `AUDIO`.
pub fn saved_format_label(path: &str) -> (r: String)
    ensures
        r@ == crate::text::spec_to_uppercase(
            match crate::paths::spec_extension(path@) {
                Some(e) => e,
                None => "audio"@,
            },
        ),
{
    match crate::paths::extension_of(path) {
        Some(e) => crate::text::to_uppercase(e.as_str()),
        None => crate::text::to_uppercase("audio"),
    }
}

/// The screen recorder's form: `audio` is "on" when checked; `output` names
/// the monitor.
pub struct ScreenParams {
    pub audio: String,
    pub output: String,
}

/// The `wf-recorder` arguments: the file, the monitor when one is chosen,
/// and `-a` when audio is on.
pub open spec fn spec_screen_args(path: Seq<char>, output: Seq<char>, audio: Seq<char>) -> Seq<Seq<char>> {
    seq!["-f"@, path] + (if output.len() > 0 {
        seq!["-o"@, output]
    } else {
        seq![]
    }) + (if audio.len() > 0 {
        seq!["-a"@]
    } else {
        seq![]
    })
}

/// Builds the `wf-recorder` arguments.
pub fn screen_record_args(path: &str, output: &str, audio: &str) -> (r: Vec<String>)
    ensures
        crate::tags::views(r@) == spec_screen_args(path@, output@, audio@),
{
    let mut v: Vec<String> = Vec::new();
    v.push(lit("-f"));
    v.push(lit(path));
    let ghost a = crate::tags::views(v@);
    if !output.is_empty() {
        v.push(lit("-o"));
        v.push(lit(output));
    }
    let ghost b = crate::tags::views(v@);
    if !audio.is_empty() {
        v.push(lit("-a"));
    }
    proof {
        assert(a =~= seq!["-f"@, path@]);
        if output@.len() > 0 {
            assert(b =~= a + seq!["-o"@, output@]);
        } else {
            assert(b =~= a + Seq::<Seq<char>>::empty());
        }
        if audio@.len() > 0 {
            assert(crate::tags::views(v@) =~= b + seq!["-a"@]);
        } else {
            assert(crate::tags::views(v@) =~= b + Seq::<Seq<char>>::empty());
        }
        assert(crate::tags::views(v@) =~= spec_screen_args(path@, output@, audio@));
    }
    v
}

/// The first word of a line: its first run of non-whitespace characters.
pub open spec fn first_word(l: Seq<char>) -> Option<Seq<char>> {
    let t = crate::text::trim_start(l);
    if t.len() == 0 {
        None
    } else {
        Some(t.take(word_end(t, 0)))
    }
}

/// The end of the run of non-whitespace characters starting at `i`.
pub open spec fn word_end(t: Seq<char>, i: int) -> int
    decreases t.len() - i,
{
    if i < 0 || i >= t.len() || crate::text::is_unicode_ws(t[i]) {
        if i < 0 { 0 } else { i }
    } else {
        word_end(t, i + 1)
    }
}

/// The monitors `wlr-randr` lists: of its output, the lines that are not
/// empty and do not start with a space, by their first word.
pub open spec fn spec_outputs(lines: Seq<Seq<char>>) -> Seq<Seq<char>>
    decreases lines.len(),
{
    if lines.len() == 0 {
        seq![]
    } else {
        let prev = spec_outputs(lines.drop_last());
        let l = lines.last();
        if l.len() == 0 || l[0] == ' ' {
            prev
        } else {
            match first_word(l) {
                Some(w) => prev.push(w),
                None => prev,
            }
        }
    }
}

fn first_word_of(l: &Vec<char>) -> (r: Option<String>)
    ensures
        match first_word(l@) {
            Some(w) => r is Some && r->0@ == w,
            None => r is None,
        },
{
    let mut i: usize = 0;
    while i < l.len() && crate::text::char_is_unicode_ws(l[i])
        invariant
            i <= l.len(),
            forall|k: int| 0 <= k < i ==> crate::text::is_unicode_ws(#[trigger] l@[k]),
        decreases l.len() - i,
    {
        i = i + 1;
    }
    let ghost t = l@.skip(i as int);
    proof {
        crate::text::lemma_trim_start_skip(l@, i as int);
        if i < l.len() {
            assert(t[0] == l@[i as int]);
        }
        assert(crate::text::trim_start(t) == t);
    }
    if i == l.len() {
        return None;
    }
    let mut j: usize = i;
    let mut out = String::new();
    while j < l.len() && !crate::text::char_is_unicode_ws(l[j])
        invariant
            i <= j <= l.len(),
            t == l@.skip(i as int),
            word_end(t, 0) == word_end(t, j - i),
            out@ == l@.subrange(i as int, j as int),
        decreases l.len() - j,
    {
        out.push(l[j]);
        proof {
            assert(t[j - i] == l@[j as int]);
            assert(l@.subrange(i as int, j + 1) =~= l@.subrange(i as int, j as int).push(l@[j as int]));
        }
        j = j + 1;
    }
    proof {
        if j < l.len() {
            assert(t[j - i] == l@[j as int]);
        }
        assert(word_end(t, j - i) == j - i);
        assert(t.take(j - i) =~= l@.subrange(i as int, j as int));
    }
    Some(out)
}

/// The monitors named in `wlr-randr`'s output.
pub fn detect_outputs(stdout: &str) -> (r: Vec<String>)
    ensures
        crate::tags::views(r@) == spec_outputs(crate::text::spec_lines(stdout@)),
{
    let lines = crate::text::lines_of(stdout);
    let ghost ls = lines@.map_values(|e: Vec<char>| e@);
    let mut out: Vec<String> = Vec::new();
    let mut k: usize = 0;
    while k < lines.len()
        invariant
            k <= lines.len(),
            ls == lines@.map_values(|e: Vec<char>| e@),
            crate::tags::views(out@) == spec_outputs(ls.take(k as int)),
        decreases lines.len() - k,
    {
        let l = &lines[k];
        proof {
            assert(ls.take(k + 1).drop_last() =~= ls.take(k as int));
            assert(ls.take(k + 1).last() == l@);
        }
        if l.len() > 0 && l[0] != ' ' {
            match first_word_of(l) {
                Some(w) => {
                    let ghost before = crate::tags::views(out@);
                    out.push(w);
                    proof {
                        assert(crate::tags::views(out@) =~= before.push(out@.last()@));
                    }
                },
                None => {},
            }
        }
        k = k + 1;
    }
    proof {
        assert(ls.take(lines.len() as int) =~= ls);
    }
    out
}

// ── Recognition tools ───────────────────────────────────────────────────────

/// What a recognition tool (transcription, OCR, translation) reported.
pub enum ToolOutcome {
    /// It succeeded with no text.
    Empty,
    /// It succeeded; the trimmed text.
    Text(String),
    /// It failed; its trimmed error output.
    Failed(String),
}

/// The outcome as plain values: `Ok(None)`, `Ok(Some(text))` or `Err(error)`.
pub open spec fn outcome_view(o: ToolOutcome) -> Result<Option<Seq<char>>, Seq<char>> {
    match o {
        ToolOutcome::Empty => Ok(None),
        ToolOutcome::Text(t) => Ok(Some(t@)),
        ToolOutcome::Failed(e) => Err(e@),
    }
}

/// Reads a tool's exit status and output: on success the trimmed output
/// (decoded leniently), empty or not; on failure the trimmed error output.
pub open spec fn spec_tool_outcome(success: bool, stdout: Seq<u8>, stderr: Seq<u8>) -> Result<
    Option<Seq<char>>,
    Seq<char>,
> {
    if success {
        let t = spec_trim(spec_utf8_lossy(stdout));
        if t.len() == 0 {
            Ok(None)
        } else {
            Ok(Some(t))
        }
    } else {
        Err(spec_trim(spec_utf8_lossy(stderr)))
    }
}

/// Reads what a recognition tool reported.
pub fn tool_outcome(success: bool, stdout: &[u8], stderr: &[u8]) -> (r: ToolOutcome)
    ensures
        outcome_view(r) == spec_tool_outcome(success, stdout@, stderr@),
{
    if success {
        let s = utf8_lossy(stdout);
        let t = trim(s.as_str());
        if t.as_str().is_empty() {
            ToolOutcome::Empty
        } else {
            ToolOutcome::Text(t)
        }
    } else {
        let s = utf8_lossy(stderr);
        ToolOutcome::Failed(trim(s.as_str()))
    }
}

/// The transcription script's arguments: the audio file, and the language
/// unless it is empty or `auto`.
pub open spec fn spec_transcribe_args(script: Seq<char>, audio: Seq<char>, lang: Seq<char>) -> Seq<Seq<char>> {
    if lang.len() > 0 && lang != "auto"@ {
        seq![script, audio, "--lang"@, lang]
    } else {
        seq![script, audio]
    }
}

/// Builds the transcription command's arguments.
pub fn transcribe_args(script: &str, audio: &str, lang: &str) -> (r: Vec<String>)
    ensures
        crate::tags::views(r@) == spec_transcribe_args(script@, audio@, lang@),
{
    let mut v: Vec<String> = Vec::new();
    v.push(lit(script));
    v.push(lit(audio));
    if !lang.is_empty() && !str_eq(lang, "auto") {
        v.push(lit("--lang"));
        v.push(lit(lang));
    }
    proof {
        assert(crate::tags::views(v@) =~= spec_transcribe_args(script@, audio@, lang@));
    }
    v
}

/// The file the voice recorder writes.
pub const RECORDING_TMP: &'static str = "/tmp/eleutheria-voice-recording.wav";

/// The ffmpeg arguments of the voice recorder: mono, 16 kHz, 16-bit PCM.
pub fn voice_record_args() -> (r: Vec<String>)
    ensures
        crate::tags::views(r@) == seq![
            "-y"@,
            "-f"@,
            "pulse"@,
            "-i"@,
            "default"@,
            "-ac"@,
            "1"@,
            "-ar"@,
            "16000"@,
            "-c:a"@,
            "pcm_s16le"@,
            RECORDING_TMP@,
        ],
{
    let mut v: Vec<String> = Vec::new();
    v.push(lit("-y"));
    v.push(lit("-f"));
    v.push(lit("pulse"));
    v.push(lit("-i"));
    v.push(lit("default"));
    v.push(lit("-ac"));
    v.push(lit("1"));
    v.push(lit("-ar"));
    v.push(lit("16000"));
    v.push(lit("-c:a"));
    v.push(lit("pcm_s16le"));
    v.push(lit(RECORDING_TMP));
    proof {
        assert(crate::tags::views(v@) =~= seq![
            "-y"@,
            "-f"@,
            "pulse"@,
            "-i"@,
            "default"@,
            "-ac"@,
            "1"@,
            "-ar"@,
            "16000"@,
            "-c:a"@,
            "pcm_s16le"@,
            RECORDING_TMP@,
        ]);
    }
    v
}

/// `tesseract <image> stdout -l <lang>`.
pub fn tesseract_args(image: &str, lang: &str) -> (r: Vec<String>)
    ensures
        crate::tags::views(r@) == seq![image@, "stdout"@, "-l"@, lang@],
{
    let mut v: Vec<String> = Vec::new();
    v.push(lit(image));
    v.push(lit("stdout"));
    v.push(lit("-l"));
    v.push(lit(lang));
    proof {
        assert(crate::tags::views(v@) =~= seq![image@, "stdout"@, "-l"@, lang@]);
    }
    v
}

/// The first line that is not blank.
pub open spec fn first_nonblank(ls: Seq<Seq<char>>) -> Option<Seq<char>>
    decreases ls.len(),
{
    if ls.len() == 0 {
        None
    } else if spec_trim(ls[0]).len() > 0 {
        Some(ls[0])
    } else {
        first_nonblank(ls.drop_first())
    }
}

/// The title of a note saved from recognised text: the first 60 characters
/// of its first non-blank line, or of the fallback.
pub open spec fn spec_saved_note_title(text: Seq<char>, fallback: Seq<char>) -> Seq<char> {
    crate::text::take_chars(str_or(first_nonblank(crate::text::spec_lines(text)), fallback), 60)
}

/// Titles a note saved from recognised text.
pub fn saved_note_title(text: &str, fallback: &str) -> (r: String)
    ensures
        r@ == spec_saved_note_title(text@, fallback@),
{
    let lines = crate::text::lines_of(text);
    let ghost ls = lines@.map_values(|e: Vec<char>| e@);
    let mut i: usize = 0;
    proof {
        assert(ls.skip(0) =~= ls);
    }
    while i < lines.len()
        invariant
            i <= lines.len(),
            ls == lines@.map_values(|e: Vec<char>| e@),
            ls == crate::text::spec_lines(text@),
            first_nonblank(ls) == first_nonblank(ls.skip(i as int)),
        decreases lines.len() - i,
    {
        proof {
            assert(ls.skip(i as int)[0] == lines@[i as int]@);
            assert(ls.skip(i as int).drop_first() =~= ls.skip(i + 1));
        }
        let t = crate::text::trim_chars(&lines[i]);
        if t.len() > 0 {
            let l = crate::text::string_from_chars(&lines[i]);
            return crate::text::prefix_chars(l.as_str(), 60);
        }
        i = i + 1;
    }
    proof {
        assert(ls.skip(lines.len() as int).len() == 0);
    }
    crate::text::prefix_chars(fallback, 60)
}

/// What follows the last `.` of a name (the whole name without one).
pub open spec fn last_segment(name: Seq<char>) -> Seq<char> {
    crate::text::split_on(name, '.').last()
}

fn last_segment_of(name: &str) -> (r: String)
    ensures
        r@ == last_segment(name@),
{
    let cs = crate::text::chars_of(name);
    let parts = crate::text::split_chars(&cs, '.');
    proof {
        assert(parts@.map_values(|e: Vec<char>| e@).last() == parts@.last()@);
    }
    crate::text::string_from_chars(&parts[parts.len() - 1])
}

/// The extension an uploaded audio file is saved with: from its content
/// type, then from its file name's last `.` segment (lower-cased) when that
/// is a known audio extension; WAV by default.
pub open spec fn spec_upload_audio_ext(content_type: Option<Seq<char>>, file_name: Option<Seq<char>>) -> Seq<char> {
    let by_type = match content_type {
        Some(ct) => if ct == "audio/mpeg"@ || ct == "audio/mp3"@ {
            "mp3"@
        } else if ct == "audio/ogg"@ {
            "ogg"@
        } else if ct == "audio/flac"@ {
            "flac"@
        } else if ct == "audio/x-m4a"@ || ct == "audio/mp4"@ {
            "m4a"@
        } else {
            "wav"@
        },
        None => "wav"@,
    };
    match file_name {
        Some(f) => {
            let e = crate::text::spec_to_lowercase(last_segment(f));
            if e == "mp3"@ || e == "ogg"@ || e == "flac"@ || e == "m4a"@ || e == "wav"@ {
                e
            } else {
                by_type
            }
        },
        None => by_type,
    }
}

/// Picks the extension of an uploaded audio file.
pub fn upload_audio_ext(content_type: Option<&str>, file_name: Option<&str>) -> (r: String)
    ensures
        r@ == spec_upload_audio_ext(
            match content_type {
                Some(c) => Some(c@),
                None => None,
            },
            match file_name {
                Some(f) => Some(f@),
                None => None,
            },
        ),
{
    let by_type = match content_type {
        Some(ct) => if str_eq(ct, "audio/mpeg") || str_eq(ct, "audio/mp3") {
            "mp3"
        } else if str_eq(ct, "audio/ogg") {
            "ogg"
        } else if str_eq(ct, "audio/flac") {
            "flac"
        } else if str_eq(ct, "audio/x-m4a") || str_eq(ct, "audio/mp4") {
            "m4a"
        } else {
            "wav"
        },
        None => "wav",
    };
    match file_name {
        Some(f) => {
            let seg = last_segment_of(f);
            let e = crate::text::to_lowercase(seg.as_str());
            let es = e.as_str();
            if str_eq(es, "mp3") || str_eq(es, "ogg") || str_eq(es, "flac") || str_eq(es, "m4a") || str_eq(
                es,
                "wav",
            ) {
                e
            } else {
                lit(by_type)
            }
        },
        None => lit(by_type),
    }
}

/// The extension an uploaded image for OCR is saved with, from its content
/// type (PNG by default).
pub open spec fn spec_ocr_upload_ext(content_type: Seq<char>) -> Seq<char> {
    if content_type == "image/jpeg"@ {
        "jpg"@
    } else if content_type == "image/gif"@ {
        "gif"@
    } else if content_type == "image/bmp"@ {
        "bmp"@
    } else if content_type == "image/tiff"@ {
        "tif"@
    } else {
        "png"@
    }
}

/// Picks the extension of an uploaded image for OCR.
pub fn ocr_upload_ext(content_type: &str) -> (r: String)
    ensures
        r@ == spec_ocr_upload_ext(content_type@),
{
    if str_eq(content_type, "image/jpeg") {
        lit("jpg")
    } else if str_eq(content_type, "image/gif") {
        lit("gif")
    } else if str_eq(content_type, "image/bmp") {
        lit("bmp")
    } else if str_eq(content_type, "image/tiff") {
        lit("tif")
    } else {
        lit("png")
    }
}

/// The OCR language of an upload: Spanish when asked for, else English.
pub fn ocr_lang(lang: &str) -> (r: String)
    ensures
        r@ == if lang@ == "spa"@ {
            "spa"@
        } else {
            "eng"@
        },
{
    if str_eq(lang, "spa") {
        lit("spa")
    } else {
        lit("eng")
    }
}

/// The extension an image for background removal is saved with: its file
/// name's last `.` segment (lower-cased) when a known image one, else PNG.
pub fn rembg_ext(file_name: Option<&str>) -> (r: String)
    ensures
        r@ == match file_name {
            Some(f) => {
                let e = crate::text::spec_to_lowercase(last_segment(f@));
                if e == "png"@ || e == "jpg"@ || e == "jpeg"@ || e == "webp"@ || e == "bmp"@ {
                    e
                } else {
                    "png"@
                }
            },
            None => "png"@,
        },
{
    match file_name {
        Some(f) => {
            let seg = last_segment_of(f);
            let e = crate::text::to_lowercase(seg.as_str());
            let es = e.as_str();
            if str_eq(es, "png") || str_eq(es, "jpg") || str_eq(es, "jpeg") || str_eq(es, "webp") || str_eq(
                es,
                "bmp",
            ) {
                e
            } else {
                lit("png")
            }
        },
        None => lit("png"),
    }
}

// ── Photo export ────────────────────────────────────────────────────────────

/// The part of a data URL after its first comma.
pub open spec fn spec_data_url_payload(data: Seq<char>) -> Option<Seq<char>> {
    match first_index_of(data, ',') {
        Some(i) => Some(data.skip(i + 1)),
        None => None,
    }
}

/// The position of the first occurrence of `c`.
pub open spec fn first_index_of(s: Seq<char>, c: char) -> Option<int>
    decreases s.len(),
{
    if s.len() == 0 {
        None
    } else if s.last() == c && first_index_of(s.drop_last(), c) is None {
        Some(s.len() - 1)
    } else {
        first_index_of(s.drop_last(), c)
    }
}

proof fn lemma_first_index_bound(s: Seq<char>, c: char)
    ensures
        first_index_of(s, c) matches Some(i) ==> 0 <= i < s.len() && s[i] == c,
    decreases s.len(),
{
    if s.len() > 0 {
        lemma_first_index_bound(s.drop_last(), c);
    }
}

proof fn lemma_first_index_none(s: Seq<char>, c: char)
    requires
        !s.contains(c),
    ensures
        first_index_of(s, c) is None,
    decreases s.len(),
{
    if s.len() > 0 {
        assert(!s.drop_last().contains(c)) by {
            if s.drop_last().contains(c) {
                let k = choose|k: int| 0 <= k < s.drop_last().len() && s.drop_last()[k] == c;
                assert(s[k] == c);
            }
        }
        assert(s.last() != c) by {
            assert(s[s.len() - 1] == s.last());
        }
        lemma_first_index_none(s.drop_last(), c);
    }
}

proof fn lemma_first_index_after(p: Seq<char>, c: char, r: Seq<char>)
    requires
        !p.contains(c),
    ensures
        first_index_of(p + seq![c] + r, c) == Some(p.len() as int),
    decreases r.len(),
{
    if r.len() == 0 {
        assert(p + seq![c] + r =~= p.push(c));
        assert(p.push(c).drop_last() =~= p);
        lemma_first_index_none(p, c);
    } else {
        let s = p + seq![c] + r;
        assert(s.drop_last() =~= p + seq![c] + r.drop_last());
        lemma_first_index_after(p, c, r.drop_last());
    }
}

/// A photo exported as a data URL is saved byte for byte: when the URL's
/// header has no comma, its payload is the Base64 text after the first
/// comma, and that text is the encoding of the picture's bytes alone.
pub proof fn lemma_export_round_trip(header: Seq<char>, picture: Seq<u8>)
    requires
        !header.contains(','),
    ensures
        spec_data_url_payload(header + seq![','] + crate::codec::spec_base64(picture)) == Some(
            crate::codec::spec_base64(picture),
        ),
        forall|v: Seq<u8>|
            crate::codec::spec_base64(v) == crate::codec::spec_base64(picture) ==> v == picture,
{
    let e = crate::codec::spec_base64(picture);
    lemma_first_index_after(header, ',', e);
    assert((header + seq![','] + e).skip(header.len() + 1 as int) =~= e);
    assert forall|v: Seq<u8>| crate::codec::spec_base64(v) == e implies v == picture by {
        crate::codec::lemma_base64_injective(v, picture);
    }
}

/// Decodes a picture that a tool printed as Base64 text (the background
/// remover prints the PNG it made that way): the bytes whose encoding the
/// text is, or an error where no bytes encode to it.
pub fn decode_printed_picture(text: &str) -> (r: Result<Vec<u8>, String>)
    ensures
        match r {
            Ok(b) => crate::codec::spec_base64(b@) == text@,
            Err(_) => forall|b: Seq<u8>| crate::codec::spec_base64(b) != text@,
        },
{
    crate::codec::base64_decode(text)
}

/// Why a photo export cannot be decoded.
pub enum ExportError {
    /// The data has no comma.
    InvalidData,
    /// The payload is not Base64.
    Decode(String),
}

/// Decodes the image of a photo export (a `data:` URL): its Base64 payload.
pub fn decode_export(data: &str) -> (r: Result<Vec<u8>, ExportError>)
    ensures
        match spec_data_url_payload(data@) {
            None => r matches Err(ExportError::InvalidData),
            Some(p) => match r {
                Ok(b) => crate::codec::spec_base64(b@) == p,
                Err(ExportError::Decode(_)) => forall|b: Seq<u8>| crate::codec::spec_base64(b) != p,
                Err(ExportError::InvalidData) => false,
            },
        },
{
    let cs = crate::text::chars_of(data);
    let mut i: usize = 0;
    let mut found: Option<usize> = None;
    while i < cs.len()
        invariant
            i <= cs.len(),
            cs@ == data@,
            match first_index_of(cs@.take(i as int), ',') {
                Some(k) => found == Some(k as usize),
                None => found is None,
            },
        decreases cs.len() - i,
    {
        proof {
            assert(cs@.take(i + 1).drop_last() =~= cs@.take(i as int));
            assert(cs@.take(i + 1).last() == cs@[i as int]);
        }
        if found.is_none() && cs[i] == ',' {
            found = Some(i);
        }
        i = i + 1;
    }
    proof {
        assert(cs@.take(cs.len() as int) =~= cs@);
        lemma_first_index_bound(cs@, ',');
    }
    match found {
        None => Err(ExportError::InvalidData),
        Some(k) => {
            let payload = crate::text::skip_chars(data, k + 1);
            match crate::codec::base64_decode(payload.as_str()) {
                Ok(b) => Ok(b),
                Err(e) => Err(ExportError::Decode(e)),
            }
        },
    }
}

// ── Forms ───────────────────────────────────────────────────────────────────

/// A recognised text to copy or save.
pub struct TextBody {
    pub text: String,
}

/// The OCR capture's form.
pub struct CaptureParams {
    pub lang: String,
}

/// The OCR language when the form gives none.
pub fn default_ocr_lang() -> (r: String)
    ensures
        r@ == "eng"@,
{
    lit("eng")
}

/// The voice recorder's stop form: the transcription language.
pub struct StopParams {
    pub lang: String,
}

/// The transcription language when the form gives none.
pub fn default_lang() -> (r: String)
    ensures
        r@ == "auto"@,
{
    lit("auto")
}

/// A photo export: the image as a `data:` URL.
pub struct ExportBody {
    pub data: String,
}

} // verus!
