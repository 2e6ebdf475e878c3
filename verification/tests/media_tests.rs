use base64::Engine;
use eleutheria_telos::media::{
    audio_ext, audio_record_args, codec_args, decode_export, default_audio_format, default_crf,
    default_format, default_qp, detect_outputs, error_card, ffmpeg_report, file_not_found,
    media_dir, ocr_lang, ocr_upload_ext, output_path, panel_input, plan_agent_job, plan_panel_job,
    rembg_ext, saved_format_label, saved_note_title, screen_record_args, stamped_path,
    success_card, tesseract_args, tool_outcome, transcribe_args, trim_stderr, upload_audio_ext,
    voice_record_args, ExportError, OutputTarget, ProcessForm, RunResult, ToolOutcome, VideoForm,
};

fn s(x: &str) -> String {
    x.to_string()
}

fn v(xs: &[&str]) -> Vec<String> {
    xs.iter().map(|x| x.to_string()).collect()
}

fn panel(op: &str) -> ProcessForm {
    ProcessForm {
        path: s("/v/in.mp4"),
        operation: s(op),
        start: s(""),
        end: s(""),
        audio_format: s(""),
        qp: default_qp(),
        compress_resolution: s(""),
        resize_resolution: s(""),
    }
}

fn agent(op: &str) -> VideoForm {
    VideoForm {
        operation: s(op),
        input_path: s("/v/in.mp4"),
        start: s(""),
        end: s(""),
        audio_format: default_audio_format(),
        crf: default_crf(),
        compress_resolution: s(""),
        resize_resolution: s(""),
    }
}

#[test]
fn output_locations() {
    assert_eq!(media_dir(Some("/home/u"), "Videos"), "/home/u/Videos/Eleutheria");
    assert_eq!(media_dir(None, "Music"), "/tmp/Music/Eleutheria");
    assert_eq!(
        output_path(&OutputTarget::Video(s("trim")), Some("/home/u/"), 1700),
        "/home/u/Videos/Eleutheria/video-trim-1700.mp4"
    );
    assert_eq!(output_path(&OutputTarget::Audio(s("wav")), Some("/h"), 5), "/h/Music/Eleutheria/audio-5.wav");
    assert_eq!(stamped_path(Some("/h"), "Videos", "screen-", 9, ".mp4"), "/h/Videos/Eleutheria/screen-9.mp4");
}

#[test]
fn panel_jobs() {
    assert_eq!(panel_input("   ").err(), Some(s("Input path is required.")));
    assert_eq!(panel_input(" /a ").ok(), Some(s("/a")));
    assert_eq!(file_not_found("/a"), "File not found: /a");
    assert_eq!(plan_panel_job("/in", &panel("trim")).err(), Some(s("Start and end times are required.")));
    let mut f = panel("trim");
    f.start = s(" 00:00:01 ");
    f.end = s("00:00:05");
    let job = plan_panel_job("/in", &f).ok().unwrap();
    assert_eq!(job.args, v(&["-y", "-i", "/in", "-ss", "00:00:01", "-to", "00:00:05", "-c", "copy"]));
    assert_eq!(job.label, "Trim");
    let mut f = panel("compress");
    f.qp = 5;
    f.compress_resolution = s("720");
    let job = plan_panel_job("/in", &f).ok().unwrap();
    assert_eq!(
        job.args,
        v(&[
            "-y", "-vaapi_device", "/dev/dri/renderD128", "-i", "/in", "-vf", "scale=-2:720,format=nv12,hwupload",
            "-c:v", "h264_vaapi", "-qp", "18",
        ])
    );
    let mut f = panel("resize");
    f.resize_resolution = s("999");
    assert_eq!(plan_panel_job("/in", &f).err(), Some(s("Select a valid target resolution.")));
    f.resize_resolution = s(" 480 ");
    let job = plan_panel_job("/in", &f).ok().unwrap();
    assert!(matches!(job.target, OutputTarget::Video(ref l) if l == "480p"));
    let mut f = panel("extract_audio");
    f.audio_format = s("flac");
    let job = plan_panel_job("/in", &f).ok().unwrap();
    assert!(matches!(job.target, OutputTarget::Audio(ref e) if e == "flac"));
    assert_eq!(job.args, v(&["-y", "-i", "/in", "-vn", "-c:a", "flac"]));
    assert_eq!(plan_panel_job("/in", &panel("blur")).err(), Some(s("Unknown operation: blur")));
}

#[test]
fn agent_jobs() {
    assert_eq!(plan_agent_job("/in", &agent("trim")).err(), Some(s("start and end are required for trim")));
    let mut f = agent("compress");
    f.crf = 99;
    f.compress_resolution = s("original");
    let (t, a) = plan_agent_job("/in", &f).ok().unwrap();
    assert!(matches!(t, OutputTarget::Video(ref l) if l == "compressed"));
    assert_eq!(a, v(&["-y", "-i", "/in", "-c:v", "libx264", "-crf", "40", "-preset", "fast"]));
    f.compress_resolution = s("480");
    let (_, a) = plan_agent_job("/in", &f).ok().unwrap();
    assert_eq!(a, v(&["-y", "-i", "/in", "-vf", "scale=-2:480", "-c:v", "libx264", "-crf", "40", "-preset", "fast"]));
    let (t, a) = plan_agent_job("/in", &agent("resize")).ok().unwrap();
    assert!(matches!(t, OutputTarget::Video(ref l) if l == "resized"));
    assert_eq!(a, v(&["-y", "-i", "/in", "-vf", "scale=-2:720", "-c:v", "libx264", "-crf", "28", "-preset", "fast"]));
    let (t, _) = plan_agent_job("/in", &agent("extract_audio")).ok().unwrap();
    assert!(matches!(t, OutputTarget::Audio(ref e) if e == "mp3"));
}

#[test]
fn reports() {
    let raw: Vec<u8> = (1..=30).map(|i| format!("line {i}\n")).collect::<String>().into_bytes();
    let t = trim_stderr(&raw, 25);
    assert!(t.starts_with("line 6\n"));
    assert!(t.ends_with("line 30"));
    assert_eq!(trim_stderr(b"a\nb", 10), "a\nb");
    assert_eq!(error_card("<x>"), "<pre class=\"text-red-400 text-xs whitespace-pre-wrap break-all\">&lt;x&gt;</pre>");
    assert!(success_card("/o&.mp4", "Trim").contains("✓ Trim complete"));
    assert!(success_card("/o&.mp4", "Trim").contains("/o&amp;.mp4"));
    let r = ffmpeg_report(&RunResult::Exited { success: false, stderr: b"bad".to_vec() }, "/o", "Trim");
    assert_eq!(r, error_card("bad"));
    let r = ffmpeg_report(&RunResult::NotStarted(s("no ffmpeg")), "/o", "Trim");
    assert_eq!(r, error_card("no ffmpeg"));
}

#[test]
fn recorders() {
    assert_eq!(default_format(), "mp3");
    assert_eq!(audio_ext("ogg"), "ogg");
    assert_eq!(audio_ext("aac"), "mp3");
    assert_eq!(codec_args("wav"), v(&["-c:a", "pcm_s16le"]));
    assert_eq!(
        audio_record_args("flac", "/o.flac"),
        v(&["-y", "-f", "pulse", "-i", "default", "-c:a", "flac", "/o.flac"])
    );
    assert_eq!(saved_format_label("/m/recording-1.ogg"), "OGG");
    assert_eq!(saved_format_label("/m/recording"), "AUDIO");
    assert_eq!(screen_record_args("/o.mp4", "", ""), v(&["-f", "/o.mp4"]));
    assert_eq!(screen_record_args("/o.mp4", "eDP-1", "on"), v(&["-f", "/o.mp4", "-o", "eDP-1", "-a"]));
    let out = "eDP-1 \"Built-in\"\n  Enabled: yes\n\nHDMI-A-2 \"TV\"\n  Modes:\n";
    assert_eq!(detect_outputs(out), v(&["eDP-1", "HDMI-A-2"]));
    assert_eq!(voice_record_args().len(), 12);
}

#[test]
fn recognition_outcomes() {
    assert!(matches!(tool_outcome(true, b"  hi\n", b""), ToolOutcome::Text(ref t) if t == "hi"));
    assert!(matches!(tool_outcome(true, b" \n", b""), ToolOutcome::Empty));
    assert!(matches!(tool_outcome(false, b"", b" oops \n"), ToolOutcome::Failed(ref e) if e == "oops"));
    assert!(matches!(tool_outcome(true, &[0x66, 0xff], b""), ToolOutcome::Text(ref t) if t == "f\u{fffd}"));
    assert_eq!(transcribe_args("t.py", "/a.wav", "auto"), v(&["t.py", "/a.wav"]));
    assert_eq!(transcribe_args("t.py", "/a.wav", "es"), v(&["t.py", "/a.wav", "--lang", "es"]));
    assert_eq!(tesseract_args("/i.png", "spa"), v(&["/i.png", "stdout", "-l", "spa"]));
    assert_eq!(saved_note_title("\n  \nFirst real line\nmore", "OCR Extract"), "First real line");
    assert_eq!(saved_note_title("  ", "Voice Transcript"), "Voice Transcript");
    assert_eq!(saved_note_title(&"y".repeat(70), "x").len(), 60);
}

#[test]
fn upload_extensions() {
    assert_eq!(upload_audio_ext(Some("audio/ogg"), None), "ogg");
    assert_eq!(upload_audio_ext(Some("audio/ogg"), Some("talk.M4A")), "m4a");
    assert_eq!(upload_audio_ext(Some("audio/mpeg"), Some("talk.txt")), "mp3");
    assert_eq!(upload_audio_ext(None, Some("noext")), "wav");
    assert_eq!(ocr_upload_ext("image/tiff"), "tif");
    assert_eq!(ocr_upload_ext("image/webp"), "png");
    assert_eq!(ocr_lang("spa"), "spa");
    assert_eq!(ocr_lang("deu"), "eng");
    assert_eq!(rembg_ext(Some("Photo.JPEG")), "jpeg");
    assert_eq!(rembg_ext(Some("scan.gif")), "png");
    assert_eq!(rembg_ext(None), "png");
}

#[test]
fn photo_exports_decode_data_urls() {
    assert_eq!(decode_export("data:image/png;base64,aGk=").ok(), Some(b"hi".to_vec()));
    assert!(matches!(decode_export("no comma"), Err(ExportError::InvalidData)));
    assert!(matches!(decode_export("data:,a*b="), Err(ExportError::Decode(_))));
    assert!(matches!(decode_export("data:,aGl="), Err(ExportError::Decode(_))));
}

#[test]
fn exported_pictures_are_saved_byte_for_byte() {
    let picture: Vec<u8> = (0u8..=255).rev().collect();
    let url = format!("data:image/png;base64,{}", base64::engine::general_purpose::STANDARD.encode(&picture));
    assert_eq!(decode_export(&url).ok(), Some(picture));
}
