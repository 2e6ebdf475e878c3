use eleutheria_telos::i18n::I18n;
use eleutheria_telos::server::{
    auth_ok, bearer_token, fill_shell, info_dir, is_ui_setting, server_info_json, shell_fallback,
    tool_panel_fallback, tool_panel_path, ui_settings, port_scan_step, AppError, PortScan, DEFAULT_PORT,
};

fn s(x: &str) -> String {
    x.to_string()
}

#[test]
fn app_errors() {
    let e = AppError::not_found("model-x");
    assert_eq!(e.code, 404);
    assert_eq!(e.message, "Not found: model-x");
    let e = AppError::unauthorized();
    assert_eq!((e.code, e.message.as_str()), (401, "Unauthorized"));
    let e = AppError::internal("db down");
    assert_eq!((e.code, e.status()), (500, 500));
    assert_eq!(AppError::new(42, "odd").status(), 500);
    assert_eq!(AppError::new(418, "teapot").status(), 418);
}

#[test]
fn session_tokens() {
    assert_eq!(bearer_token(Some("Bearer abc")), Some(s("abc")));
    assert_eq!(bearer_token(Some("bearer abc")), None);
    assert!(auth_ok(Some("Bearer tok"), "tok"));
    assert!(!auth_ok(Some("Bearer other"), "tok"));
    assert!(!auth_ok(None, "tok"));
}

#[test]
fn ui_settings_fill_defaults() {
    let rows = vec![(s("theme"), s("\"light\"")), (s("font"), s("not json"))];
    let out = ui_settings(&rows);
    assert_eq!(
        out,
        vec![
            (s("theme"), s("\"light\"")),
            (s("glass"), s("true")),
            (s("font"), s("\"Inter\"")),
            (s("pinned"), s("[]")),
            (s("sidebar_collapsed"), s("false")),
        ]
    );
    assert!(is_ui_setting("pinned"));
    assert!(!is_ui_setting("secret"));
}

#[test]
fn pages_and_announcement() {
    assert_eq!(fill_shell("t={{SESSION_TOKEN}} p={{API_PORT}}", "abc", 47821), "t=abc p=47821");
    assert!(shell_fallback("abc", 7).contains("window.__SESSION_TOKEN__ = 'abc';"));
    assert_eq!(tool_panel_path("notes"), "../ui/tools/notes/index.html");
    assert!(tool_panel_fallback("ocr").contains(">ocr</h2>"));
    assert_eq!(info_dir(Some("/xdg"), Some("/home/u")), "/xdg/eleutheria-telos");
    assert_eq!(info_dir(None, Some("/home/u")), "/home/u/.local/share/eleutheria-telos");
    assert_eq!(info_dir(None, None), "/tmp/.local/share/eleutheria-telos");
    assert_eq!(server_info_json(DEFAULT_PORT, "t\"k"), "{\"port\":47821,\"token\":\"t\\\"k\"}");
}

#[test]
fn translations_fall_back_to_the_key() {
    let i = I18n::from_json("{\"app.name\":\"Eleutheria Telos\",\"n\":3}");
    assert_eq!(i.t("app.name"), "Eleutheria Telos");
    assert_eq!(i.t("n"), "n");
    assert_eq!(i.t("missing.key"), "missing.key");
    let empty = I18n::from_json("[1,2]");
    assert_eq!(empty.t("app.name"), "app.name");
}

#[test]
fn port_search_steps_upward() {
    assert_eq!(port_scan_step(47821, true), PortScan::Use(47821));
    assert_eq!(port_scan_step(47821, false), PortScan::Try(47822));
    assert_eq!(port_scan_step(65535, false), PortScan::Exhausted);
    assert_eq!(port_scan_step(65535, true), PortScan::Use(65535));
}
