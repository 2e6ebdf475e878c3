use eleutheria_telos::models::{
    argos_lang_pair, card_kind, done, download_decision, download_progress, downloading, failed,
    group_by_tool, whisper_path, CardKind, DownloadDecision, DownloadMap,
};

fn s(x: &str) -> String {
    x.to_string()
}

#[test]
fn registry_reads_back_what_was_written() {
    let mut m = DownloadMap::new();
    assert!(m.get("whisper-base").is_none());
    m.insert(s("whisper-base"), downloading(10));
    m.insert(s("argos-en-es"), failed("HTTP 404 Not Found"));
    let st = m.get("whisper-base").unwrap();
    assert_eq!(st.progress, 10);
    assert_eq!(st.status, "downloading");
    m.insert(s("whisper-base"), done());
    let st = m.get("whisper-base").unwrap();
    assert_eq!(st.progress, 100);
    assert_eq!(st.status, "done");
    assert_eq!(m.get("argos-en-es").unwrap().error, Some(s("HTTP 404 Not Found")));
    m.remove("whisper-base");
    assert!(m.get("whisper-base").is_none());
    assert_eq!(m.get("argos-en-es").unwrap().status, "error");
}

#[test]
fn progress_is_capped_below_done() {
    assert_eq!(download_progress(50, 100), 50);
    assert_eq!(download_progress(100, 100), 99);
    assert_eq!(download_progress(0, 300), 0);
    assert_eq!(download_progress(12345, 0), 50);
}

#[test]
fn card_kinds() {
    assert!(matches!(card_kind(Some(&downloading(42)), 0), CardKind::Downloading(42)));
    let mut f = failed("boom");
    assert!(matches!(card_kind(Some(&f), 1), CardKind::Failed(ref m) if m == "boom"));
    f.error = None;
    assert!(matches!(card_kind(Some(&f), 1), CardKind::Failed(ref m) if m == "Unknown error"));
    assert!(matches!(card_kind(Some(&done()), 1), CardKind::Downloaded));
    assert!(matches!(card_kind(None, 0), CardKind::Available));
}

#[test]
fn download_decisions() {
    assert_eq!(download_decision(true, true, 0), DownloadDecision::ShowCard);
    assert_eq!(download_decision(true, false, 0), DownloadDecision::NotFound);
    assert_eq!(download_decision(false, true, 1), DownloadDecision::ShowCard);
    assert_eq!(download_decision(false, true, 0), DownloadDecision::Start);
}

#[test]
fn model_locations() {
    assert_eq!(
        whisper_path(Some("/home/u"), "whisper-base.en", "bin"),
        "/home/u/.local/share/eleutheria-telos/models/whisper/ggml-base.en.bin"
    );
    assert_eq!(whisper_path(None, "tiny", "tmp"), "./.local/share/eleutheria-telos/models/whisper/ggml-tiny.tmp");
    assert_eq!(argos_lang_pair("argos-en-es"), Some((s("en"), s("es"))));
    assert_eq!(argos_lang_pair("argos-zh-en-x"), Some((s("zh"), s("en-x"))));
    assert_eq!(argos_lang_pair("argos-en"), None);
    assert_eq!(argos_lang_pair("whisper-base"), None);
}

#[test]
fn catalog_groups() {
    let tools = vec![s("translate"), s("voice"), s("translate"), s("voice")];
    let (voice, other) = group_by_tool(&tools);
    assert_eq!(voice, vec![1, 3]);
    assert_eq!(other, vec![0, 2]);
}
