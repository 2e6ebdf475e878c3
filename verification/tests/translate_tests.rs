use eleutheria_telos::translate::{
    clip_preview, default_limit, lang_choices, lang_label, palette_title, parse_lang_pair,
    search_limits,
};

fn s(x: &str) -> String {
    x.to_string()
}

#[test]
fn language_pairs() {
    assert_eq!(parse_lang_pair("argos-en-es"), Some((s("en"), s("es"))));
    assert_eq!(parse_lang_pair("argos"), None);
    assert_eq!(lang_label("ru"), "Russian");
    assert_eq!(lang_label("auto"), "auto");
}

#[test]
fn test_langs_with_installed_model() {
    let c = lang_choices(&vec![s("argos-en-es")]);
    assert_eq!(c.froms, vec![s("en")]);
    assert_eq!(c.default_from, "en");
    assert_eq!(c.default_tos, vec![s("es")]);
    assert_eq!(lang_label(&c.froms[0]), "English");
}

#[test]
fn language_choices_group_targets() {
    let ids = vec![s("argos-es-en"), s("whisper-base"), s("argos-en-fr"), s("argos-es-fr")];
    let c = lang_choices(&ids);
    assert_eq!(c.pairs, vec![(s("es"), s("en")), (s("en"), s("fr")), (s("es"), s("fr"))]);
    assert_eq!(c.froms, vec![s("es"), s("en")]);
    assert_eq!(c.default_from, "es");
    assert_eq!(c.default_tos, vec![s("en"), s("fr")]);
    let none = lang_choices(&vec![]);
    assert_eq!(none.default_from, "en");
    assert!(none.default_tos.is_empty());
}

#[test]
fn search_palette() {
    assert_eq!(default_limit(), 20);
    assert_eq!(search_limits(20), (10, 10));
    assert_eq!(search_limits(7), (4, 3));
    assert_eq!(search_limits(-3), (-2, -1));
    assert_eq!(clip_preview("short"), "short");
    let long = "a".repeat(100);
    assert_eq!(clip_preview(&long), format!("{}…", "a".repeat(80)));
    assert_eq!(palette_title(""), "Untitled");
    assert_eq!(palette_title("Rust ownership"), "Rust ownership");
}
