use eleutheria_telos::event_bus::Event;
use eleutheria_telos::quick_actions::{
    action_value, config_summary, evaluate_condition, event_trigger, execute_action, execute_step,
    export_file_name, export_trigger_type, file_error, file_matches_pattern, find_template,
    find_trigger, folder_members, import_trigger_json, initial_text, join_existing, join_results,
    lang_label, load_pipeline_event, move_step, next_node, node_kind, remap_edges, run_guard,
    run_message, should_write, templates, template_flow, tool_icon, tool_label, trigger_label,
    validate_name, ActionOutcome, ActionPlan, GraphEdge, GuardOutcome, NodeKind, WriteMode,
};

fn s(x: &str) -> String {
    x.to_string()
}

#[test]
fn trigger_labels() {
    assert_eq!(trigger_label("{\"type\":\"OcrCompleted\"}"), "After OCR");
    assert_eq!(trigger_label("{\"type\":\"TranscriptionCompleted\"}"), "After Voice");
    assert_eq!(trigger_label("{\"type\":\"ClipboardChanged\"}"), "On Copy");
    assert_eq!(trigger_label("{\"type\":\"Manual\"}"), "Manual");
}

#[test]
fn tool_labels_and_icons() {
    assert_eq!(tool_label("save_note"), "Save as Note");
    assert_eq!(tool_label("zap"), "Unknown step");
    assert_eq!(tool_icon("translate"), "<i data-lucide=\"languages\" style=\"width:14px;height:14px;\"></i>");
    assert_eq!(lang_label("de"), "German");
    assert_eq!(lang_label(""), "Auto");
    assert_eq!(lang_label("xx"), "xx");
}

#[test]
fn step_summaries_read_the_config() {
    assert_eq!(config_summary("translate", "{\"from_lang\":\"es\",\"to_lang\":\"en\"}"), "Spanish → English");
    assert_eq!(config_summary("translate", "not json"), "Auto → ?");
    assert_eq!(config_summary("save_note", "{\"title\":\"  <Daily>  \"}"), "Title: &lt;Daily&gt;");
    assert_eq!(config_summary("save_note", "{}"), "Title: first line");
    assert_eq!(config_summary("copy_clipboard", "{}"), "");
}

#[test]
fn names_are_validated() {
    assert_eq!(validate_name("  My flow "), Ok(s("My flow")));
    assert_eq!(
        validate_name("   "),
        Err(s("<p style=\"font-size:12px;color:var(--destructive);\">Name cannot be empty.</p>"))
    );
    assert_eq!(
        validate_name("a/b"),
        Err(s("<p style=\"font-size:12px;color:var(--destructive);\">Name cannot contain / \\ &lt; &gt; \" or null bytes.</p>"))
    );
}

#[test]
fn file_patterns() {
    assert!(file_matches_pattern("a.txt", "*"));
    assert!(file_matches_pattern("a.txt", ""));
    assert!(file_matches_pattern("notes.md", "*.md"));
    assert!(!file_matches_pattern("notes.md.bak", "*.md"));
    assert!(file_matches_pattern("exact.txt", "exact.txt"));
    assert!(!file_matches_pattern("other.txt", "exact.txt"));
}

#[test]
fn conditions_pick_a_branch() {
    assert_eq!(evaluate_condition("{\"condition\":\"contains\",\"value\":\"cat\"}", Some("a cat")), "true");
    assert_eq!(evaluate_condition("{\"condition\":\"contains\",\"value\":\"dog\"}", Some("a cat")), "false");
    assert_eq!(evaluate_condition("{\"condition\":\"not_empty\"}", Some("   ")), "false");
    assert_eq!(evaluate_condition("{\"condition\":\"length_gt\",\"value\":\"3\"}", Some("abcd")), "true");
    assert_eq!(evaluate_condition("{\"condition\":\"length_gt\",\"value\":\"x\"}", Some("")), "false");
    assert_eq!(evaluate_condition("{}", None), "true");
    assert_eq!(evaluate_condition("{\"condition\":\"weird\"}", None), "true");
}

#[test]
fn actions_are_planned() {
    let cfg = "{\"tool\":\"translate\",\"params\":{\"to_lang\":\"fr\"}}";
    match execute_action(cfg, Some("hello")) {
        Ok(ActionPlan::Translate { text, from_lang, to_lang }) => {
            assert_eq!(text, "hello");
            assert_eq!(from_lang, "auto");
            assert_eq!(to_lang, "fr");
        }
        _ => panic!("expected a translation"),
    }
    assert_eq!(execute_action(cfg, None).err(), Some(s("translate: no text input")));
    assert_eq!(execute_action("{\"tool\":\"fly\"}", None).err(), Some(s("unknown tool: fly")));
    assert_eq!(execute_action("{}", None).err(), Some(s("unknown tool: ")));
}

#[test]
fn save_note_titles_use_the_first_line() {
    let cfg = "{\"tool\":\"save_note\",\"params\":{\"title_prefix\":\"Log\"}}";
    match execute_action(cfg, Some("first line\nsecond")) {
        Ok(ActionPlan::SaveNote { title, content }) => {
            assert_eq!(title, "Log: first line");
            assert_eq!(content, "first line\nsecond");
        }
        _ => panic!("expected a note"),
    }
    match execute_action("{\"tool\":\"save_note\",\"params\":{\"title_prefix\":\"  \"}}", Some("")) {
        Ok(ActionPlan::SaveNote { title, .. }) => assert_eq!(title, "Quick Action Note"),
        _ => panic!("expected a note"),
    }
}

#[test]
fn file_actions_are_planned() {
    match execute_action("{\"tool\":\"read_file\",\"params\":{\"file_path\":\"\"}}", Some("/tmp/x")) {
        Ok(ActionPlan::ReadFile { path }) => assert_eq!(path, "/tmp/x"),
        _ => panic!("expected a read"),
    }
    assert_eq!(execute_action("{\"tool\":\"read_file\"}", None).err(), Some(s("read_file: no file path")));
    match execute_action("{\"tool\":\"write_file\",\"params\":{\"file_path\":\"/o\",\"if_exists\":\"skip\"}}", None) {
        Ok(ActionPlan::WriteFile { path, content, mode }) => {
            assert_eq!(path, "/o");
            assert_eq!(content, "");
            assert_eq!(mode, WriteMode::Skip);
        }
        _ => panic!("expected a write"),
    }
    match execute_action("{\"tool\":\"append_file\",\"params\":{\"file_path\":\"/o\",\"separator\":\"\\\\t|\\\\n\"}}", Some("c")) {
        Ok(ActionPlan::AppendFile { separator, .. }) => assert_eq!(separator, "\t|\n"),
        _ => panic!("expected an append"),
    }
    match execute_action("{\"tool\":\"append_file\",\"params\":{\"file_path\":\"/o\"}}", Some("c")) {
        Ok(ActionPlan::AppendFile { separator, .. }) => assert_eq!(separator, "\n"),
        _ => panic!("expected an append"),
    }
    match execute_action("{\"tool\":\"for_each_file\",\"params\":{\"folder_path\":\"/d\",\"recursive\":true}}", None) {
        Ok(ActionPlan::ForEachFile { folder, pattern, recursive }) => {
            assert_eq!(folder, "/d");
            assert_eq!(pattern, "*");
            assert!(recursive);
        }
        _ => panic!("expected a loop"),
    }
    match execute_action("{\"tool\":\"ocr_file\",\"params\":{\"file_path\":\"/i.png\"}}", None) {
        Ok(ActionPlan::OcrFile { path, lang }) => {
            assert_eq!(path, "/i.png");
            assert_eq!(lang, "eng");
        }
        _ => panic!("expected an OCR"),
    }
}

#[test]
fn linear_steps_are_planned() {
    match execute_step("save_note", "{}", Some("\n\nbody")) {
        Ok(ActionPlan::SaveNote { title, .. }) => assert_eq!(title, ""),
        _ => panic!("expected a note"),
    }
    match execute_step("save_note", "{}", Some("")) {
        Ok(ActionPlan::SaveNote { title, .. }) => assert_eq!(title, "Quick Action Note"),
        _ => panic!("expected a note"),
    }
    match execute_step("translate", "{\"from_lang\":\"es\"}", Some("hola")) {
        Ok(ActionPlan::Translate { from_lang, to_lang, .. }) => {
            assert_eq!(from_lang, "es");
            assert_eq!(to_lang, "en");
        }
        _ => panic!("expected a translation"),
    }
    assert_eq!(execute_step("copy_clipboard", "{}", None).err(), Some(s("copy_clipboard: no text input")));
}

#[test]
fn outcomes_update_the_text() {
    let plan = ActionPlan::CopyClipboard { text: s("x") };
    assert_eq!(action_value(&plan, Some(s("in")), ActionOutcome::Text(s("out"))), Ok(Some(s("in"))));
    let plan = ActionPlan::ReadFile { path: s("/p") };
    assert_eq!(action_value(&plan, Some(s("in")), ActionOutcome::Text(s("out"))), Ok(Some(s("out"))));
    assert_eq!(action_value(&plan, None, ActionOutcome::Failed(s("boom"))), Err(s("boom")));
    assert_eq!(join_existing("", "\n", "new"), "new");
    assert_eq!(join_existing("old", "\n", "new"), "old\nnew");
    assert!(!should_write(WriteMode::Skip, true));
    assert!(should_write(WriteMode::Append, true));
    assert_eq!(file_error("read_file", "/p", "denied"), "read_file '/p': denied");
    assert_eq!(join_results(&vec![s("a"), s("b")]), "a\n---\nb");
    assert_eq!(join_results(&vec![]), "");
}

fn edge(source: &str, target: &str, label: &str) -> GraphEdge {
    GraphEdge { id: s("e"), source: s(source), target: s(target), label: s(label) }
}

#[test]
fn graph_traversal_follows_labels() {
    let edges = vec![edge("c", "x", "false"), edge("c", "y", "true"), edge("a", "b", "default"), edge("a", "z", "")];
    assert_eq!(next_node(&edges, "c", Some("true")), Some(s("y")));
    assert_eq!(next_node(&edges, "c", Some("maybe")), Some(s("x")));
    assert_eq!(next_node(&edges, "a", None), Some(s("b")));
    assert_eq!(next_node(&edges, "q", None), None);
    assert_eq!(node_kind("condition"), NodeKind::Condition);
    assert_eq!(node_kind("zzz"), NodeKind::Other);
    let nodes = vec![(s("n1"), s("action")), (s("n2"), s("trigger"))];
    assert_eq!(find_trigger(&nodes), Ok(s("n2")));
    assert_eq!(find_trigger(&vec![]), Err(s("No trigger node — add a Trigger to this pipeline")));
}

#[test]
fn run_guard_warns_then_stops() {
    assert!(matches!(run_guard(10, false), GuardOutcome::Continue));
    assert!(matches!(run_guard(60, false), GuardOutcome::Warn));
    assert!(matches!(run_guard(61, true), GuardOutcome::Continue));
    match run_guard(120, true) {
        GuardOutcome::Stop(m) => assert_eq!(
            m,
            "Loop timed out after 120s — break the back-edge cycle or raise the timeout in Settings"
        ),
        _ => panic!("expected a stop"),
    }
}

#[test]
fn manual_runs() {
    assert_eq!(initial_text(Some(s("  "))), None);
    assert_eq!(initial_text(Some(s(" hi "))), Some(s(" hi ")));
    assert_eq!(
        run_message(&Ok(Some(s("<ok>")))),
        "<p style=\"font-size:13px;color:var(--success);\">✓ Done: <span style=\"font-family:monospace;\">&lt;ok&gt;</span></p>"
    );
    assert_eq!(run_message(&Ok(None)), "<p style=\"font-size:13px;color:var(--success);\">✓ Pipeline completed.</p>");
    assert_eq!(run_message(&Err(s("bad"))), "<p style=\"font-size:13px;color:var(--destructive);\">✗ bad</p>");
    let long = "x".repeat(200);
    let msg = run_message(&Ok(Some(long)));
    assert!(msg.contains(&"x".repeat(120)));
    assert!(!msg.contains(&"x".repeat(121)));
}

#[test]
fn steps_move_within_bounds() {
    let ids = vec![s("a"), s("b"), s("c")];
    assert_eq!(move_step(&ids, "b", "up"), Some((1, 0)));
    assert_eq!(move_step(&ids, "b", "down"), Some((1, 2)));
    assert_eq!(move_step(&ids, "a", "up"), None);
    assert_eq!(move_step(&ids, "c", "down"), None);
    assert_eq!(move_step(&ids, "zz", "up"), None);
}

#[test]
fn templates_are_complete() {
    let all = templates();
    assert_eq!(all.len(), 5);
    assert_eq!(all[1].id, "ocr-translate-copy");
    assert_eq!(template_flow(&all[1]), "After OCR → Translate → Copy to Clipboard");
    let t = find_template("voice-note").unwrap();
    assert_eq!(t.steps, vec![(s("save_note"), s("{}"))]);
    assert!(find_template("nope").is_none());
    assert_eq!(
        load_pipeline_event("p1", "Bob's", "Manual"),
        "{\"qa:load-pipeline\":{\"id\":\"p1\",\"name\":\"Bob\\'s\",\"triggerLabel\":\"Manual\"}}"
    );
}

#[test]
fn export_and_import_helpers() {
    assert_eq!(export_file_name("My flow: v2"), "My_flow__v2.yaml");
    assert_eq!(export_file_name("café-ok_1"), "café-ok_1.yaml");
    assert_eq!(export_trigger_type("{\"type\":\"OcrCompleted\"}"), "OcrCompleted");
    assert_eq!(export_trigger_type("garbage"), "Manual");
    assert_eq!(import_trigger_json("Oc\"r"), "{\"type\":\"Oc\\\"r\"}");
    let map = vec![(s("t"), s("T1")), (s("a"), s("A1")), (s("a"), s("A2"))];
    let edges = vec![(s("t"), s("a"), s("default")), (s("a"), s("gone"), s("x"))];
    assert_eq!(remap_edges(&map, &edges), vec![(s("T1"), s("A2"), s("default"))]);
}

#[test]
fn pipeline_list_groups_by_folder() {
    let folders = vec![Some(s("f1")), None, Some(s("f2")), Some(s("f1"))];
    assert_eq!(folder_members(&folders, Some("f1")), vec![0, 3]);
    assert_eq!(folder_members(&folders, None), vec![1]);
    assert_eq!(folder_members(&folders, Some("f9")), Vec::<usize>::new());
}

#[test]
fn events_start_pipelines() {
    let e = Event::OcrCompleted { text: s("scan"), source: s("file") };
    assert_eq!(event_trigger(&e), Some((s("OcrCompleted"), s("scan"))));
    let e = Event::ClipboardChanged { content: s("c"), content_type: s("text") };
    assert_eq!(event_trigger(&e), Some((s("ClipboardChanged"), s("c"))));
    let e = Event::NoteUpdated { id: s("n") };
    assert_eq!(event_trigger(&e), None);
}
