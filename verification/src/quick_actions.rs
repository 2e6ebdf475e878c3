//! Quick actions: pipelines that run tools on a text, either as a list of
//! steps or as a graph of trigger, action, condition and end nodes. This
//! module holds the decisions; the runner performs what they ask for.
use vstd::prelude::*;

use crate::event_bus::Event;
use crate::json::{json_bool_at, json_str_at, opt_view, spec_json_bool_at, spec_json_str_at};
use crate::mcp::str_or;
use crate::text::{
    all_digits, concat, contains_str, content_longer_than, first_line, has_substring, html_escape,
    lit, parse_usize, prefix_chars, replace_all, replace_str, spec_first_line, spec_html_escape,
    spec_parse_usize, spec_trim, str_eq, take_chars, trim, utf8_len,
};

verus! {

// ── Labels ──────────────────────────────────────────────────────────────────

/// The label of a pipeline's trigger, read from its JSON by substring.
pub open spec fn spec_trigger_label(t: Seq<char>) -> Seq<char> {
    if has_substring(t, "OcrCompleted"@) {
        "After OCR"@
    } else if has_substring(t, "TranscriptionCompleted"@) {
        "After Voice"@
    } else if has_substring(t, "ClipboardChanged"@) {
        "On Copy"@
    } else {
        "Manual"@
    }
}

/// Human label of a trigger (its JSON, as stored).
pub fn trigger_label(trigger_json: &str) -> (r: String)
    ensures
        r@ == spec_trigger_label(trigger_json@),
{
    if contains_str(trigger_json, "OcrCompleted") {
        lit("After OCR")
    } else if contains_str(trigger_json, "TranscriptionCompleted") {
        lit("After Voice")
    } else if contains_str(trigger_json, "ClipboardChanged") {
        lit("On Copy")
    } else {
        lit("Manual")
    }
}

/// The label of a step's tool.
pub open spec fn spec_tool_label(tool: Seq<char>) -> Seq<char> {
    if tool == "translate"@ {
        "Translate"@
    } else if tool == "copy_clipboard"@ {
        "Copy to Clipboard"@
    } else if tool == "save_note"@ {
        "Save as Note"@
    } else {
        "Unknown step"@
    }
}

/// Human label of a step's tool.
pub fn tool_label(tool: &str) -> (r: String)
    ensures
        r@ == spec_tool_label(tool@),
{
    if str_eq(tool, "translate") {
        lit("Translate")
    } else if str_eq(tool, "copy_clipboard") {
        lit("Copy to Clipboard")
    } else if str_eq(tool, "save_note") {
        lit("Save as Note")
    } else {
        lit("Unknown step")
    }
}

/// The name of the icon shown for a step's tool.
pub open spec fn spec_tool_icon_name(tool: Seq<char>) -> Seq<char> {
    if tool == "translate"@ {
        "languages"@
    } else if tool == "copy_clipboard"@ {
        "clipboard"@
    } else if tool == "save_note"@ {
        "notebook-pen"@
    } else {
        "settings-2"@
    }
}

/// The icon element of a step's tool.
pub open spec fn spec_tool_icon(tool: Seq<char>) -> Seq<char> {
    "<i data-lucide=\""@ + spec_tool_icon_name(tool) + "\" style=\"width:14px;height:14px;\"></i>"@
}

/// Icon element (HTML) of a step's tool.
pub fn tool_icon(tool: &str) -> (r: String)
    ensures
        r@ == spec_tool_icon(tool@),
{
    let name = if str_eq(tool, "translate") {
        "languages"
    } else if str_eq(tool, "copy_clipboard") {
        "clipboard"
    } else if str_eq(tool, "save_note") {
        "notebook-pen"
    } else {
        "settings-2"
    };
    let mut r = lit("<i data-lucide=\"");
    r.append(name);
    r.append("\" style=\"width:14px;height:14px;\"></i>");
    r
}

/// The name of a language code; an unknown code stands for itself.
pub open spec fn spec_lang_label(code: Seq<char>) -> Seq<char> {
    if code == "en"@ {
        "English"@
    } else if code == "es"@ {
        "Spanish"@
    } else if code == "fr"@ {
        "French"@
    } else if code == "de"@ {
        "German"@
    } else if code == "pt"@ {
        "Portuguese"@
    } else if code == "it"@ {
        "Italian"@
    } else if code == "zh"@ {
        "Chinese"@
    } else if code == "ja"@ {
        "Japanese"@
    } else if code == "auto"@ || code.len() == 0 {
        "Auto"@
    } else {
        code
    }
}

/// Human name of a language code.
pub fn lang_label(code: &str) -> (r: String)
    ensures
        r@ == spec_lang_label(code@),
{
    if str_eq(code, "en") {
        lit("English")
    } else if str_eq(code, "es") {
        lit("Spanish")
    } else if str_eq(code, "fr") {
        lit("French")
    } else if str_eq(code, "de") {
        lit("German")
    } else if str_eq(code, "pt") {
        lit("Portuguese")
    } else if str_eq(code, "it") {
        lit("Italian")
    } else if str_eq(code, "zh") {
        lit("Chinese")
    } else if str_eq(code, "ja") {
        lit("Japanese")
    } else if str_eq(code, "auto") || code.is_empty() {
        lit("Auto")
    } else {
        lit(code)
    }
}

/// The one-line summary of a step, from the strings its configuration holds
/// under `from_lang`, `to_lang` and `title`.
pub open spec fn spec_step_summary(
    tool: Seq<char>,
    from: Option<Seq<char>>,
    to: Option<Seq<char>>,
    title: Option<Seq<char>>,
) -> Seq<char> {
    if tool == "translate"@ {
        spec_lang_label(str_or(from, "auto"@)) + " → "@ + spec_lang_label(str_or(to, "?"@))
    } else if tool == "save_note"@ {
        let t = spec_trim(str_or(title, seq![]));
        if t.len() == 0 {
            "Title: first line"@
        } else {
            "Title: "@ + spec_html_escape(t)
        }
    } else {
        seq![]
    }
}

fn or_default(o: Option<String>, d: &str) -> (r: String)
    ensures
        r@ == str_or(opt_view(o), d@),
{
    match o {
        Some(s) => s,
        None => lit(d),
    }
}

fn or_empty(o: Option<String>) -> (r: String)
    ensures
        r@ == str_or(opt_view(o), seq![]),
{
    match o {
        Some(s) => s,
        None => String::new(),
    }
}

/// The summary of a step from its configuration's fields.
pub fn step_summary(tool: &str, from: Option<String>, to: Option<String>, title: Option<String>) -> (r:
    String)
    ensures
        r@ == spec_step_summary(tool@, opt_view(from), opt_view(to), opt_view(title)),
{
    if str_eq(tool, "translate") {
        let f = or_default(from, "auto");
        let t = or_default(to, "?");
        let mut r = lang_label(f.as_str());
        r.append(" → ");
        let tl = lang_label(t.as_str());
        r.append(tl.as_str());
        r
    } else if str_eq(tool, "save_note") {
        let raw = or_empty(title);
        let t = trim(raw.as_str());
        if t.as_str().is_empty() {
            lit("Title: first line")
        } else {
            let mut r = lit("Title: ");
            let e = html_escape(t.as_str());
            r.append(e.as_str());
            r
        }
    } else {
        String::new()
    }
}

/// The summary shown under a step in the editor (`config_json` as stored).
pub fn config_summary(tool: &str, config_json: &str) -> (r: String)
    ensures
        r@ == spec_step_summary(
            tool@,
            spec_json_str_at(config_json@, "/from_lang"@),
            spec_json_str_at(config_json@, "/to_lang"@),
            spec_json_str_at(config_json@, "/title"@),
        ),
{
    let from = json_str_at(config_json, "/from_lang");
    let to = json_str_at(config_json, "/to_lang");
    let title = json_str_at(config_json, "/title");
    step_summary(tool, from, to, title)
}

// ── Names and file patterns ─────────────────────────────────────────────────

/// Characters a pipeline or folder name may not hold.
pub open spec fn is_forbidden_name_char(c: char) -> bool {
    c == '/' || c == '\\' || c == '<' || c == '>' || c == '"' || c == '\0'
}

/// The message for an empty name.
pub open spec fn empty_name_message() -> Seq<char> {
    "<p style=\"font-size:12px;color:var(--destructive);\">Name cannot be empty.</p>"@
}

/// The message for a name with a forbidden character.
pub open spec fn bad_name_message() -> Seq<char> {
    "<p style=\"font-size:12px;color:var(--destructive);\">Name cannot contain / \\ &lt; &gt; \" or null bytes.</p>"@
}

/// Does the text hold a character a name may not hold?
pub open spec fn has_forbidden_char(n: Seq<char>) -> bool {
    exists|i: int| 0 <= i < n.len() && is_forbidden_name_char(#[trigger] n[i])
}

/// A name is accepted trimmed when it is not empty and holds no forbidden
/// character; otherwise the error fragment says why.
pub open spec fn spec_validate_name(raw: Seq<char>) -> Result<Seq<char>, Seq<char>> {
    let n = spec_trim(raw);
    if n.len() == 0 {
        Err(empty_name_message())
    } else if has_forbidden_char(n) {
        Err(bad_name_message())
    } else {
        Ok(n)
    }
}

/// Checks a pipeline or folder name.
pub fn validate_name(raw: &str) -> (r: Result<String, String>)
    ensures
        match spec_validate_name(raw@) {
            Ok(n) => r is Ok && r->Ok_0@ == n,
            Err(e) => r is Err && r->Err_0@ == e,
        },
{
    let name = trim(raw);
    if name.as_str().is_empty() {
        return Err(lit("<p style=\"font-size:12px;color:var(--destructive);\">Name cannot be empty.</p>"));
    }
    let cs = crate::text::chars_of(name.as_str());
    let mut i: usize = 0;
    while i < cs.len()
        invariant
            i <= cs.len(),
            cs@ == name@,
            name@ == spec_trim(raw@),
            name@.len() > 0,
            forall|k: int| 0 <= k < i ==> !is_forbidden_name_char(#[trigger] cs@[k]),
        decreases cs.len() - i,
    {
        let c = cs[i];
        if c == '/' || c == '\\' || c == '<' || c == '>' || c == '"' || c == '\0' {
            proof {
                assert(is_forbidden_name_char(name@[i as int]));
                assert(has_forbidden_char(name@));
            }
            return Err(
                lit(
                    "<p style=\"font-size:12px;color:var(--destructive);\">Name cannot contain / \\ &lt; &gt; \" or null bytes.</p>",
                ),
            );
        }
        i = i + 1;
    }
    Ok(name)
}

/// Does a file name match a pattern: `*` or empty (anything), `*.ext` (a
/// name ending in `.ext`), or the exact name?
pub open spec fn spec_file_matches(name: Seq<char>, pattern: Seq<char>) -> bool {
    if pattern == "*"@ || pattern.len() == 0 {
        true
    } else if pattern.len() >= 2 && pattern[0] == '*' && pattern[1] == '.' {
        let suffix = pattern.skip(1);
        suffix.len() <= name.len() && name.skip(name.len() - suffix.len()) == suffix
    } else {
        name == pattern
    }
}

/// Matches a file name against a `for_each_file` pattern.
pub fn file_matches_pattern(name: &str, pattern: &str) -> (r: bool)
    ensures
        r == spec_file_matches(name@, pattern@),
{
    if str_eq(pattern, "*") || pattern.is_empty() {
        return true;
    }
    let pc = crate::text::chars_of(pattern);
    if pc.len() >= 2 && pc[0] == '*' && pc[1] == '.' {
        let suffix = crate::text::skip_chars(pattern, 1);
        crate::text::ends_with(name, suffix.as_str())
    } else {
        str_eq(name, pattern)
    }
}

// ── Conditions ──────────────────────────────────────────────────────────────

/// Whether a condition node lets a text through: `always_true`, `not_empty`,
/// `contains`, `length_gt` (UTF-8 length above the number, 0 when it does not
/// parse) and `matches_regex` (read as a substring test); any other passes.
pub open spec fn spec_condition_passes(cond: Seq<char>, value: Seq<char>, text: Seq<char>) -> bool {
    if cond == "always_true"@ {
        true
    } else if cond == "not_empty"@ {
        spec_trim(text).len() > 0
    } else if cond == "contains"@ {
        has_substring(text, value)
    } else if cond == "length_gt"@ {
        utf8_len(text) > str_or_nat(spec_parse_usize(value))
    } else if cond == "matches_regex"@ {
        has_substring(text, value)
    } else {
        true
    }
}

/// The value occurs in the text: at some position the text holds exactly
/// the value's characters.
pub open spec fn occurs_in(value: Seq<char>, text: Seq<char>) -> bool {
    exists|i: int| #[trigger] occurs_at(value, text, i)
}

/// The text holds the value's characters from position `i` on.
pub open spec fn occurs_at(value: Seq<char>, text: Seq<char>, i: int) -> bool {
    &&& 0 <= i
    &&& i + value.len() <= text.len()
    &&& forall|j: int| 0 <= j < value.len() ==> text[i + j] == #[trigger] value[j]
}

/// A `contains` or `matches_regex` condition passes exactly when its value
/// occurs in the text. So an empty value always passes, a text passes with
/// itself as the value, and a value longer than the text never passes.
pub proof fn lemma_text_conditions_find_the_value(value: Seq<char>, text: Seq<char>)
    ensures
        spec_condition_passes("contains"@, value, text) <==> occurs_in(value, text),
        spec_condition_passes("matches_regex"@, value, text) <==> occurs_in(value, text),
        spec_condition_passes("matches_regex"@, seq![], text),
        spec_condition_passes("matches_regex"@, text, text),
        value.len() > text.len() ==> !spec_condition_passes("matches_regex"@, value, text),
        spec_branch(Some("matches_regex"@), Some(value), Some(text)) == (if occurs_in(value, text) {
            "true"@
        } else {
            "false"@
        }),
{
    reveal_strlit("contains");
    reveal_strlit("matches_regex");
    reveal_strlit("always_true");
    reveal_strlit("not_empty");
    reveal_strlit("length_gt");
    assert("contains"@.len() == 8 && "matches_regex"@.len() == 13);
    assert("always_true"@.len() == 11 && "not_empty"@.len() == 9 && "length_gt"@.len() == 9);
    assert("contains"@ != "always_true"@ && "contains"@ != "not_empty"@);
    assert("matches_regex"@ != "always_true"@ && "matches_regex"@ != "not_empty"@);
    assert("matches_regex"@ != "contains"@ && "matches_regex"@ != "length_gt"@);
    lemma_occurs_iff(value, text);
    lemma_occurs_iff(seq![], text);
    lemma_occurs_iff(text, text);
    assert(occurs_at(seq![], text, 0));
    assert(occurs_at(text, text, 0));
}

proof fn lemma_occurs_iff(value: Seq<char>, text: Seq<char>)
    ensures
        has_substring(text, value) <==> occurs_in(value, text),
{
    if has_substring(text, value) {
        let i = choose|i: int| 0 <= i && i + value.len() <= text.len() && #[trigger] text.subrange(i, i + value.len()) == value;
        assert forall|j: int| 0 <= j < value.len() implies text[i + j] == #[trigger] value[j] by {
            assert(text.subrange(i, i + value.len())[j] == text[i + j]);
        }
        assert(occurs_at(value, text, i));
    }
    if occurs_in(value, text) {
        let i = choose|i: int| #[trigger] occurs_at(value, text, i);
        assert(text.subrange(i, i + value.len()) =~= value);
    }
}

/// A parsed number, or 0.
pub open spec fn str_or_nat(o: Option<nat>) -> nat {
    match o {
        Some(n) => n,
        None => 0,
    }
}

/// Decides a condition on a text.
pub fn condition_passes(cond: &str, value: &str, text: &str) -> (r: bool)
    ensures
        r == spec_condition_passes(cond@, value@, text@),
{
    if str_eq(cond, "always_true") {
        true
    } else if str_eq(cond, "not_empty") {
        let t = trim(text);
        !t.as_str().is_empty()
    } else if str_eq(cond, "contains") {
        contains_str(text, value)
    } else if str_eq(cond, "length_gt") {
        let n: usize = match parse_usize(value) {
            Some(n) => n,
            None => 0,
        };
        content_longer_than(text, n)
    } else if str_eq(cond, "matches_regex") {
        contains_str(text, value)
    } else {
        true
    }
}

/// The branch a condition node takes, `"true"` or `"false"`.
pub open spec fn spec_branch(
    cond: Option<Seq<char>>,
    value: Option<Seq<char>>,
    text: Option<Seq<char>>,
) -> Seq<char> {
    if spec_condition_passes(str_or(cond, "always_true"@), str_or(value, seq![]), str_or(text, seq![])) {
        "true"@
    } else {
        "false"@
    }
}

/// Evaluates a condition node (its stored configuration) on the current text.
pub fn evaluate_condition(config: &str, text: Option<&str>) -> (r: String)
    ensures
        r@ == spec_branch(
            spec_json_str_at(config@, "/condition"@),
            spec_json_str_at(config@, "/value"@),
            match text {
                Some(t) => Some(t@),
                None => None,
            },
        ),
{
    let cond = or_default(json_str_at(config, "/condition"), "always_true");
    let value = or_empty(json_str_at(config, "/value"));
    let passes = match text {
        Some(t) => condition_passes(cond.as_str(), value.as_str(), t),
        None => {
            let empty = String::new();
            condition_passes(cond.as_str(), value.as_str(), empty.as_str())
        },
    };
    if passes {
        lit("true")
    } else {
        lit("false")
    }
}

// ── Actions ─────────────────────────────────────────────────────────────────

/// What `write_file` does when the file already exists.
#[derive(PartialEq, Eq, Structural, Clone, Copy, Debug)]
pub enum WriteMode {
    Overwrite,
    Append,
    Skip,
}

/// The work an action node or a step asks the runner to do.
pub enum ActionPlan {
    Translate { text: String, from_lang: String, to_lang: String },
    CopyClipboard { text: String },
    SaveNote { title: String, content: String },
    ReadFile { path: String },
    WriteFile { path: String, content: String, mode: WriteMode },
    AppendFile { path: String, content: String, separator: String },
    OcrFile { path: String, lang: String },
    ForEachFile { folder: String, pattern: String, recursive: bool },
}

/// An `ActionPlan` as plain text values.
pub enum PlanSpec {
    Translate(Seq<char>, Seq<char>, Seq<char>),
    CopyClipboard(Seq<char>),
    SaveNote(Seq<char>, Seq<char>),
    ReadFile(Seq<char>),
    WriteFile(Seq<char>, Seq<char>, WriteMode),
    AppendFile(Seq<char>, Seq<char>, Seq<char>),
    OcrFile(Seq<char>, Seq<char>),
    ForEachFile(Seq<char>, Seq<char>, bool),
}

impl View for ActionPlan {
    type V = PlanSpec;

    open spec fn view(&self) -> PlanSpec {
        match self {
            ActionPlan::Translate { text, from_lang, to_lang } => PlanSpec::Translate(text@, from_lang@, to_lang@),
            ActionPlan::CopyClipboard { text } => PlanSpec::CopyClipboard(text@),
            ActionPlan::SaveNote { title, content } => PlanSpec::SaveNote(title@, content@),
            ActionPlan::ReadFile { path } => PlanSpec::ReadFile(path@),
            ActionPlan::WriteFile { path, content, mode } => PlanSpec::WriteFile(path@, content@, *mode),
            ActionPlan::AppendFile { path, content, separator } => PlanSpec::AppendFile(
                path@,
                content@,
                separator@,
            ),
            ActionPlan::OcrFile { path, lang } => PlanSpec::OcrFile(path@, lang@),
            ActionPlan::ForEachFile { folder, pattern, recursive } => PlanSpec::ForEachFile(
                folder@,
                pattern@,
                *recursive,
            ),
        }
    }
}

/// What an action node's configuration holds: its `tool`, and the string
/// (or, for `recursive`, boolean) parameters under `params`.
pub struct ActionFields {
    pub tool: Option<String>,
    pub from_lang: Option<String>,
    pub to_lang: Option<String>,
    pub title_prefix: Option<String>,
    pub file_path: Option<String>,
    pub if_exists: Option<String>,
    pub separator: Option<String>,
    pub lang: Option<String>,
    pub folder_path: Option<String>,
    pub pattern: Option<String>,
    pub recursive: Option<bool>,
}

/// The fields of an action node's configuration as plain values.
pub struct FieldsSpec {
    pub tool: Option<Seq<char>>,
    pub from_lang: Option<Seq<char>>,
    pub to_lang: Option<Seq<char>>,
    pub title_prefix: Option<Seq<char>>,
    pub file_path: Option<Seq<char>>,
    pub if_exists: Option<Seq<char>>,
    pub separator: Option<Seq<char>>,
    pub lang: Option<Seq<char>>,
    pub folder_path: Option<Seq<char>>,
    pub pattern: Option<Seq<char>>,
    pub recursive: Option<bool>,
}

impl View for ActionFields {
    type V = FieldsSpec;

    open spec fn view(&self) -> FieldsSpec {
        FieldsSpec {
            tool: opt_view(self.tool),
            from_lang: opt_view(self.from_lang),
            to_lang: opt_view(self.to_lang),
            title_prefix: opt_view(self.title_prefix),
            file_path: opt_view(self.file_path),
            if_exists: opt_view(self.if_exists),
            separator: opt_view(self.separator),
            lang: opt_view(self.lang),
            folder_path: opt_view(self.folder_path),
            pattern: opt_view(self.pattern),
            recursive: self.recursive,
        }
    }
}

/// The fields of an action node's stored configuration, as `serde_json`
/// reads them.
pub open spec fn config_fields(config: Seq<char>) -> FieldsSpec {
    FieldsSpec {
        tool: spec_json_str_at(config, "/tool"@),
        from_lang: spec_json_str_at(config, "/params/from_lang"@),
        to_lang: spec_json_str_at(config, "/params/to_lang"@),
        title_prefix: spec_json_str_at(config, "/params/title_prefix"@),
        file_path: spec_json_str_at(config, "/params/file_path"@),
        if_exists: spec_json_str_at(config, "/params/if_exists"@),
        separator: spec_json_str_at(config, "/params/separator"@),
        lang: spec_json_str_at(config, "/params/lang"@),
        folder_path: spec_json_str_at(config, "/params/folder_path"@),
        pattern: spec_json_str_at(config, "/params/pattern"@),
        recursive: spec_json_bool_at(config, "/params/recursive"@),
    }
}

/// Reads the fields of an action node's configuration.
pub fn action_fields(config: &str) -> (f: ActionFields)
    ensures
        f@ == config_fields(config@),
{
    ActionFields {
        tool: json_str_at(config, "/tool"),
        from_lang: json_str_at(config, "/params/from_lang"),
        to_lang: json_str_at(config, "/params/to_lang"),
        title_prefix: json_str_at(config, "/params/title_prefix"),
        file_path: json_str_at(config, "/params/file_path"),
        if_exists: json_str_at(config, "/params/if_exists"),
        separator: json_str_at(config, "/params/separator"),
        lang: json_str_at(config, "/params/lang"),
        folder_path: json_str_at(config, "/params/folder_path"),
        pattern: json_str_at(config, "/params/pattern"),
        recursive: json_bool_at(config, "/params/recursive"),
    }
}

/// A string that is present and not empty.
pub open spec fn non_empty(o: Option<Seq<char>>) -> Option<Seq<char>> {
    match o {
        Some(s) => if s.len() > 0 {
            Some(s)
        } else {
            None
        },
        None => None,
    }
}

/// A path parameter when given, else the current text.
pub open spec fn path_or_text(o: Option<Seq<char>>, input: Option<Seq<char>>) -> Option<Seq<char>> {
    match non_empty(o) {
        Some(p) => Some(p),
        None => input,
    }
}

/// The title of a note saved by an action: the prefix, then `: ` and the
/// first 60 characters of the text's first line when that is not empty.
pub open spec fn spec_action_note_title(prefix: Seq<char>, text: Seq<char>) -> Seq<char> {
    let first = take_chars(str_or(spec_first_line(text), seq![]), 60);
    if first.len() == 0 {
        prefix
    } else {
        prefix + ": "@ + first
    }
}

/// The title prefix of `save_note`: the parameter unless blank.
pub open spec fn spec_title_prefix(o: Option<Seq<char>>) -> Seq<char> {
    match o {
        Some(p) => if spec_trim(p).len() > 0 {
            p
        } else {
            "Quick Action Note"@
        },
        None => "Quick Action Note"@,
    }
}

/// `if_exists` of `write_file`: `append`, `skip`, else overwrite.
pub open spec fn spec_write_mode(o: Option<Seq<char>>) -> WriteMode {
    match o {
        Some(m) => if m == "append"@ {
            WriteMode::Append
        } else if m == "skip"@ {
            WriteMode::Skip
        } else {
            WriteMode::Overwrite
        },
        None => WriteMode::Overwrite,
    }
}

/// The separator of `append_file` with `\n` and `\t` written out.
pub open spec fn spec_separator(o: Option<Seq<char>>) -> Seq<char> {
    replace_all(replace_all(str_or(o, "\\n"@), "\\n"@, "\n"@), "\\t"@, "\t"@)
}

/// What an action node does with the current text, or why it cannot run.
pub open spec fn spec_plan_action(f: FieldsSpec, input: Option<Seq<char>>) -> Result<PlanSpec, Seq<char>> {
    let tool = str_or(f.tool, seq![]);
    if tool == "translate"@ {
        match input {
            Some(t) => Ok(
                PlanSpec::Translate(
                    t,
                    str_or(f.from_lang, "auto"@),
                    str_or(f.to_lang, "en"@),
                ),
            ),
            None => Err("translate: no text input"@),
        }
    } else if tool == "copy_clipboard"@ {
        match input {
            Some(t) => Ok(PlanSpec::CopyClipboard(t)),
            None => Err("copy_clipboard: no text input"@),
        }
    } else if tool == "save_note"@ {
        match input {
            Some(t) => Ok(
                PlanSpec::SaveNote(spec_action_note_title(spec_title_prefix(f.title_prefix), t), t),
            ),
            None => Err("save_note: no text input"@),
        }
    } else if tool == "read_file"@ {
        match path_or_text(f.file_path, input) {
            Some(p) => Ok(PlanSpec::ReadFile(p)),
            None => Err("read_file: no file path"@),
        }
    } else if tool == "write_file"@ {
        match non_empty(f.file_path) {
            Some(p) => Ok(
                PlanSpec::WriteFile(p, str_or(input, seq![]), spec_write_mode(f.if_exists)),
            ),
            None => Err("write_file: no file path"@),
        }
    } else if tool == "append_file"@ {
        match non_empty(f.file_path) {
            Some(p) => Ok(
                PlanSpec::AppendFile(p, str_or(input, seq![]), spec_separator(f.separator)),
            ),
            None => Err("append_file: no file path"@),
        }
    } else if tool == "ocr_file"@ {
        match path_or_text(f.file_path, input) {
            Some(p) => Ok(PlanSpec::OcrFile(p, str_or(f.lang, "eng"@))),
            None => Err("ocr_file: no file path"@),
        }
    } else if tool == "for_each_file"@ {
        Ok(
            PlanSpec::ForEachFile(
                str_or(f.folder_path, seq![]),
                str_or(f.pattern, "*"@),
                match f.recursive {
                    Some(b) => b,
                    None => false,
                },
            ),
        )
    } else {
        Err("unknown tool: "@ + tool)
    }
}

/// The view of an optional string slice.
pub open spec fn opt_str(o: Option<&str>) -> Option<Seq<char>> {
    match o {
        Some(s) => Some(s@),
        None => None,
    }
}

fn non_empty_of(o: &Option<String>) -> (r: Option<String>)
    ensures
        opt_view(r) == non_empty(opt_view(*o)),
{
    match o {
        Some(s) => if s.as_str().is_empty() {
            None
        } else {
            Some(s.clone())
        },
        None => None,
    }
}

fn text_or_empty(o: Option<&str>) -> (r: String)
    ensures
        r@ == str_or(opt_str(o), seq![]),
{
    match o {
        Some(s) => lit(s),
        None => String::new(),
    }
}

fn opt_clone(o: &Option<String>, d: &str) -> (r: String)
    ensures
        r@ == str_or(opt_view(*o), d@),
{
    match o {
        Some(s) => s.clone(),
        None => lit(d),
    }
}

/// The title of a note saved by an action node.
pub fn action_note_title(prefix: &str, text: &str) -> (r: String)
    ensures
        r@ == spec_action_note_title(prefix@, text@),
{
    let line = match first_line(text) {
        Some(l) => l,
        None => String::new(),
    };
    let first = prefix_chars(line.as_str(), 60);
    if first.as_str().is_empty() {
        lit(prefix)
    } else {
        let mut r = lit(prefix);
        r.append(": ");
        r.append(first.as_str());
        r
    }
}

/// Decides what an action node does, from its configuration's fields and the
/// current text.
pub fn plan_action(f: &ActionFields, input: Option<&str>) -> (r: Result<ActionPlan, String>)
    ensures
        match spec_plan_action(f@, opt_str(input)) {
            Ok(p) => r is Ok && r->Ok_0@ == p,
            Err(e) => r is Err && r->Err_0@ == e,
        },
{
    let tool = match &f.tool {
        Some(s) => s.clone(),
        None => String::new(),
    };
    let tool_s = tool.as_str();
    if str_eq(tool_s, "translate") {
        match input {
            Some(t) => Ok(
                ActionPlan::Translate {
                    text: lit(t),
                    from_lang: opt_clone(&f.from_lang, "auto"),
                    to_lang: opt_clone(&f.to_lang, "en"),
                },
            ),
            None => Err(lit("translate: no text input")),
        }
    } else if str_eq(tool_s, "copy_clipboard") {
        match input {
            Some(t) => Ok(ActionPlan::CopyClipboard { text: lit(t) }),
            None => Err(lit("copy_clipboard: no text input")),
        }
    } else if str_eq(tool_s, "save_note") {
        let prefix = match &f.title_prefix {
            Some(p) => {
                let tp = trim(p.as_str());
                if tp.as_str().is_empty() {
                    lit("Quick Action Note")
                } else {
                    p.clone()
                }
            },
            None => lit("Quick Action Note"),
        };
        match input {
            Some(t) => Ok(
                ActionPlan::SaveNote { title: action_note_title(prefix.as_str(), t), content: lit(t) },
            ),
            None => Err(lit("save_note: no text input")),
        }
    } else if str_eq(tool_s, "read_file") {
        match non_empty_of(&f.file_path) {
            Some(p) => Ok(ActionPlan::ReadFile { path: p }),
            None => match input {
                Some(t) => Ok(ActionPlan::ReadFile { path: lit(t) }),
                None => Err(lit("read_file: no file path")),
            },
        }
    } else if str_eq(tool_s, "write_file") {
        match non_empty_of(&f.file_path) {
            Some(p) => {
                let mode = match &f.if_exists {
                    Some(m) => if str_eq(m.as_str(), "append") {
                        WriteMode::Append
                    } else if str_eq(m.as_str(), "skip") {
                        WriteMode::Skip
                    } else {
                        WriteMode::Overwrite
                    },
                    None => WriteMode::Overwrite,
                };
                Ok(ActionPlan::WriteFile { path: p, content: text_or_empty(input), mode })
            },
            None => Err(lit("write_file: no file path")),
        }
    } else if str_eq(tool_s, "append_file") {
        match non_empty_of(&f.file_path) {
            Some(p) => {
                let raw = opt_clone(&f.separator, "\\n");
                proof {
                    reveal_strlit("\\n");
                    reveal_strlit("\\t");
                }
                let a = replace_str(raw.as_str(), "\\n", "\n");
                let sep = replace_str(a.as_str(), "\\t", "\t");
                Ok(ActionPlan::AppendFile { path: p, content: text_or_empty(input), separator: sep })
            },
            None => Err(lit("append_file: no file path")),
        }
    } else if str_eq(tool_s, "ocr_file") {
        let lang = opt_clone(&f.lang, "eng");
        match non_empty_of(&f.file_path) {
            Some(p) => Ok(ActionPlan::OcrFile { path: p, lang }),
            None => match input {
                Some(t) => Ok(ActionPlan::OcrFile { path: lit(t), lang }),
                None => Err(lit("ocr_file: no file path")),
            },
        }
    } else if str_eq(tool_s, "for_each_file") {
        let recursive = match f.recursive {
            Some(b) => b,
            None => false,
        };
        Ok(
            ActionPlan::ForEachFile {
                folder: match &f.folder_path {
                    Some(s) => s.clone(),
                    None => String::new(),
                },
                pattern: opt_clone(&f.pattern, "*"),
                recursive,
            },
        )
    } else {
        let mut e = lit("unknown tool: ");
        e.append(tool_s);
        Err(e)
    }
}

/// Decides what an action node does, from its stored configuration and the
/// current text.
pub fn execute_action(config: &str, input: Option<&str>) -> (r: Result<ActionPlan, String>)
    ensures
        match spec_plan_action(config_fields(config@), opt_str(input)) {
            Ok(p) => r is Ok && r->Ok_0@ == p,
            Err(e) => r is Err && r->Err_0@ == e,
        },
{
    let f = action_fields(config);
    plan_action(&f, input)
}

// ── Linear steps ────────────────────────────────────────────────────────────

/// The title of a note saved by a linear step: the configured title
/// (trimmed) unless blank, else the first 80 characters of the text's first
/// line, or `Quick Action Note` for an empty text.
pub open spec fn spec_step_note_title(title: Option<Seq<char>>, text: Seq<char>) -> Seq<char> {
    let cfg = spec_trim(str_or(title, seq![]));
    if cfg.len() == 0 {
        take_chars(str_or(spec_first_line(text), "Quick Action Note"@), 80)
    } else {
        cfg
    }
}

/// What a linear step does with the current text, from its tool and the
/// strings its configuration holds under `from_lang`, `to_lang` and `title`.
pub open spec fn spec_plan_step(
    tool: Seq<char>,
    from: Option<Seq<char>>,
    to: Option<Seq<char>>,
    title: Option<Seq<char>>,
    input: Option<Seq<char>>,
) -> Result<PlanSpec, Seq<char>> {
    if tool == "translate"@ {
        match input {
            Some(t) => Ok(PlanSpec::Translate(t, str_or(from, "auto"@), str_or(to, "en"@))),
            None => Err("translate: no text input"@),
        }
    } else if tool == "copy_clipboard"@ {
        match input {
            Some(t) => Ok(PlanSpec::CopyClipboard(t)),
            None => Err("copy_clipboard: no text input"@),
        }
    } else if tool == "save_note"@ {
        match input {
            Some(t) => Ok(PlanSpec::SaveNote(spec_step_note_title(title, t), t)),
            None => Err("save_note: no text input"@),
        }
    } else {
        Err("unknown tool: "@ + tool)
    }
}

/// Decides what a linear step does, from its configuration's fields.
pub fn plan_step(
    tool: &str,
    from: Option<String>,
    to: Option<String>,
    title: Option<String>,
    input: Option<&str>,
) -> (r: Result<ActionPlan, String>)
    ensures
        match spec_plan_step(tool@, opt_view(from), opt_view(to), opt_view(title), opt_str(input)) {
            Ok(p) => r is Ok && r->Ok_0@ == p,
            Err(e) => r is Err && r->Err_0@ == e,
        },
{
    if str_eq(tool, "translate") {
        match input {
            Some(t) => Ok(
                ActionPlan::Translate {
                    text: lit(t),
                    from_lang: or_default(from, "auto"),
                    to_lang: or_default(to, "en"),
                },
            ),
            None => Err(lit("translate: no text input")),
        }
    } else if str_eq(tool, "copy_clipboard") {
        match input {
            Some(t) => Ok(ActionPlan::CopyClipboard { text: lit(t) }),
            None => Err(lit("copy_clipboard: no text input")),
        }
    } else if str_eq(tool, "save_note") {
        let cfg = trim(or_empty(title).as_str());
        match input {
            Some(t) => {
                let note_title = if cfg.as_str().is_empty() {
                    let line = match first_line(t) {
                        Some(l) => l,
                        None => lit("Quick Action Note"),
                    };
                    prefix_chars(line.as_str(), 80)
                } else {
                    cfg
                };
                Ok(ActionPlan::SaveNote { title: note_title, content: lit(t) })
            },
            None => Err(lit("save_note: no text input")),
        }
    } else {
        Err(concat("unknown tool: ", tool))
    }
}

/// Decides what a linear step does, from its stored configuration.
pub fn execute_step(tool: &str, config: &str, input: Option<&str>) -> (r: Result<ActionPlan, String>)
    ensures
        match spec_plan_step(
            tool@,
            spec_json_str_at(config@, "/from_lang"@),
            spec_json_str_at(config@, "/to_lang"@),
            spec_json_str_at(config@, "/title"@),
            opt_str(input),
        ) {
            Ok(p) => r is Ok && r->Ok_0@ == p,
            Err(e) => r is Err && r->Err_0@ == e,
        },
{
    let from = json_str_at(config, "/from_lang");
    let to = json_str_at(config, "/to_lang");
    let title = json_str_at(config, "/title");
    plan_step(tool, from, to, title, input)
}

// ── Outcomes ────────────────────────────────────────────────────────────────

/// What the runner reports after performing a plan: done, a text it
/// produced, or a failure message.
pub enum ActionOutcome {
    Done,
    Text(String),
    Failed(String),
}

/// Plans whose outcome replaces the current text.
pub open spec fn produces_text(p: PlanSpec) -> bool {
    match p {
        PlanSpec::Translate(..) | PlanSpec::ReadFile(..) | PlanSpec::OcrFile(..) | PlanSpec::ForEachFile(
            ..,
        ) => true,
        _ => false,
    }
}

/// The text after an action: a failure stops the run; a produced text
/// replaces the current one for the plans that produce one; otherwise the
/// current text goes on.
pub open spec fn spec_action_value(p: PlanSpec, input: Option<Seq<char>>, outcome: ActionOutcome) -> Result<
    Option<Seq<char>>,
    Seq<char>,
> {
    match outcome {
        ActionOutcome::Failed(e) => Err(e@),
        ActionOutcome::Text(t) => if produces_text(p) {
            Ok(Some(t@))
        } else {
            Ok(input)
        },
        ActionOutcome::Done => Ok(input),
    }
}

/// The text after an action, from what the runner reported.
pub fn action_value(plan: &ActionPlan, input: Option<String>, outcome: ActionOutcome) -> (r: Result<
    Option<String>,
    String,
>)
    ensures
        match spec_action_value(plan@, opt_view(input), outcome) {
            Ok(v) => r is Ok && opt_view(r->Ok_0) == v,
            Err(e) => r is Err && r->Err_0@ == e,
        },
{
    match outcome {
        ActionOutcome::Failed(e) => Err(e),
        ActionOutcome::Text(t) => {
            let replaces = match plan {
                ActionPlan::Translate { .. } | ActionPlan::ReadFile { .. } | ActionPlan::OcrFile {
                    ..
                } | ActionPlan::ForEachFile { .. } => true,
                _ => false,
            };
            if replaces {
                Ok(Some(t))
            } else {
                Ok(input)
            }
        },
        ActionOutcome::Done => Ok(input),
    }
}

/// The text of a file after appending: the new content alone when the file
/// was empty, else the old text, the separator and the new content.
pub open spec fn spec_join_existing(existing: Seq<char>, sep: Seq<char>, content: Seq<char>) -> Seq<char> {
    if existing.len() == 0 {
        content
    } else {
        existing + sep + content
    }
}

/// Joins a file's old text and new content.
pub fn join_existing(existing: &str, sep: &str, content: &str) -> (r: String)
    ensures
        r@ == spec_join_existing(existing@, sep@, content@),
{
    if existing.is_empty() {
        lit(content)
    } else {
        let mut r = lit(existing);
        r.append(sep);
        r.append(content);
        r
    }
}

/// Does `write_file` write, given its mode and whether the file exists?
pub fn should_write(mode: WriteMode, exists: bool) -> (r: bool)
    ensures
        r == (mode != WriteMode::Skip || !exists),
{
    match mode {
        WriteMode::Skip => !exists,
        _ => true,
    }
}

/// The message of a failed file operation: `tool 'path': error`.
pub open spec fn spec_file_error(tool: Seq<char>, path: Seq<char>, e: Seq<char>) -> Seq<char> {
    tool + " '"@ + path + "': "@ + e
}

/// Formats a failed file operation.
pub fn file_error(tool: &str, path: &str, e: &str) -> (r: String)
    ensures
        r@ == spec_file_error(tool@, path@, e@),
{
    let mut r = lit(tool);
    r.append(" '");
    r.append(path);
    r.append("': ");
    r.append(e);
    r
}

/// The outputs of the files a `for_each_file` visited, separated by `---`
/// lines.
pub open spec fn spec_join_results(l: Seq<Seq<char>>) -> Seq<char>
    decreases l.len(),
{
    if l.len() == 0 {
        seq![]
    } else if l.len() == 1 {
        l[0]
    } else {
        spec_join_results(l.drop_last()) + "\n---\n"@ + l.last()
    }
}

/// Joins the outputs of a `for_each_file`.
pub fn join_results(results: &Vec<String>) -> (r: String)
    ensures
        r@ == spec_join_results(crate::tags::views(results@)),
{
    let ghost l = crate::tags::views(results@);
    let mut out = String::new();
    let mut i: usize = 0;
    while i < results.len()
        invariant
            i <= results.len(),
            l == crate::tags::views(results@),
            out@ == spec_join_results(l.take(i as int)),
        decreases results.len() - i,
    {
        if i > 0 {
            out.append("\n---\n");
        }
        out.append(results[i].as_str());
        proof {
            let t = l.take(i + 1);
            assert(t.drop_last() =~= l.take(i as int));
            assert(t.last() == results@[i as int]@);
            if i == 0 {
                assert(out@ =~= t[0]);
            }
        }
        i = i + 1;
    }
    proof {
        assert(l.take(results.len() as int) =~= l);
    }
    out
}

/// At most this many files go through a `for_each_file`.
pub const GRAPH_MAX_FILES: usize = 10000;

/// A run warns once after this many seconds.
pub const GRAPH_WARN_SECS: u64 = 60;

/// A run stops after this many seconds.
pub const GRAPH_KILL_SECS: u64 = 120;

// ── Graph traversal ─────────────────────────────────────────────────────────

/// An edge of a pipeline graph, in stored order.
pub struct GraphEdge {
    pub id: String,
    pub source: String,
    pub target: String,
    pub label: String,
}

/// Does the edge leave `from` and, unless `any`, carry the wanted label
/// (`label`, or, for `None`, `default` or no label)?
pub open spec fn edge_ok(e: GraphEdge, from: Seq<char>, label: Option<Seq<char>>, any: bool) -> bool {
    &&& e.source@ == from
    &&& (any || match label {
        Some(l) => e.label@ == l,
        None => e.label@ == "default"@ || e.label@.len() == 0,
    })
}

/// The target of the first such edge.
pub open spec fn first_target(es: Seq<GraphEdge>, from: Seq<char>, label: Option<Seq<char>>, any: bool) -> Option<
    Seq<char>,
>
    decreases es.len(),
{
    if es.len() == 0 {
        None
    } else if edge_ok(es[0], from, label, any) {
        Some(es[0].target@)
    } else {
        first_target(es.drop_first(), from, label, any)
    }
}

/// The node after `from`: along the first edge with the wanted label, else
/// along its first outgoing edge; `None` when it has none.
pub open spec fn spec_next_node(es: Seq<GraphEdge>, from: Seq<char>, label: Option<Seq<char>>) -> Option<
    Seq<char>,
> {
    match first_target(es, from, label, false) {
        Some(t) => Some(t),
        None => first_target(es, from, label, true),
    }
}

fn find_target(edges: &Vec<GraphEdge>, from: &str, label: Option<&str>, any: bool) -> (r: Option<String>)
    ensures
        opt_view(r) == first_target(edges@, from@, opt_str(label), any),
{
    let mut i: usize = 0;
    proof {
        assert(edges@.skip(0) =~= edges@);
    }
    while i < edges.len()
        invariant
            i <= edges.len(),
            first_target(edges@, from@, opt_str(label), any) == first_target(
                edges@.skip(i as int),
                from@,
                opt_str(label),
                any,
            ),
        decreases edges.len() - i,
    {
        let e = &edges[i];
        proof {
            assert(edges@.skip(i as int)[0] == edges@[i as int]);
            assert(edges@.skip(i as int).drop_first() =~= edges@.skip(i + 1));
        }
        let ok = str_eq(e.source.as_str(), from) && (any || match label {
            Some(l) => str_eq(e.label.as_str(), l),
            None => str_eq(e.label.as_str(), "default") || e.label.as_str().is_empty(),
        });
        if ok {
            return Some(e.target.clone());
        }
        i = i + 1;
    }
    proof {
        assert(edges@.skip(edges.len() as int).len() == 0);
    }
    None
}

/// The node a traversal moves to after `from`; `label` is the branch a
/// condition took, `None` after any other node.
pub fn next_node(edges: &Vec<GraphEdge>, from: &str, label: Option<&str>) -> (r: Option<String>)
    ensures
        opt_view(r) == spec_next_node(edges@, from@, opt_str(label)),
{
    match find_target(edges, from, label, false) {
        Some(t) => Some(t),
        None => find_target(edges, from, label, true),
    }
}

/// The kinds of graph nodes.
#[derive(PartialEq, Eq, Structural, Clone, Copy, Debug)]
pub enum NodeKind {
    Trigger,
    End,
    Action,
    Condition,
    Other,
}

/// The kind named by a node's type.
pub open spec fn spec_node_kind(t: Seq<char>) -> NodeKind {
    if t == "trigger"@ {
        NodeKind::Trigger
    } else if t == "end"@ {
        NodeKind::End
    } else if t == "action"@ {
        NodeKind::Action
    } else if t == "condition"@ {
        NodeKind::Condition
    } else {
        NodeKind::Other
    }
}

/// Reads a node's type.
pub fn node_kind(t: &str) -> (r: NodeKind)
    ensures
        r == spec_node_kind(t@),
{
    if str_eq(t, "trigger") {
        NodeKind::Trigger
    } else if str_eq(t, "end") {
        NodeKind::End
    } else if str_eq(t, "action") {
        NodeKind::Action
    } else if str_eq(t, "condition") {
        NodeKind::Condition
    } else {
        NodeKind::Other
    }
}

/// The id of the first node of type `trigger`, among (id, type) pairs.
pub open spec fn first_trigger(ns: Seq<(String, String)>) -> Option<Seq<char>>
    decreases ns.len(),
{
    if ns.len() == 0 {
        None
    } else if ns[0].1@ == "trigger"@ {
        Some(ns[0].0@)
    } else {
        first_trigger(ns.drop_first())
    }
}

/// Where a graph run starts: its first trigger node.
pub fn find_trigger(nodes: &Vec<(String, String)>) -> (r: Result<String, String>)
    ensures
        match first_trigger(nodes@) {
            Some(id) => r is Ok && r->Ok_0@ == id,
            None => r is Err && r->Err_0@ == "No trigger node — add a Trigger to this pipeline"@,
        },
{
    let mut i: usize = 0;
    proof {
        assert(nodes@.skip(0) =~= nodes@);
    }
    while i < nodes.len()
        invariant
            i <= nodes.len(),
            first_trigger(nodes@) == first_trigger(nodes@.skip(i as int)),
        decreases nodes.len() - i,
    {
        proof {
            assert(nodes@.skip(i as int)[0] == nodes@[i as int]);
            assert(nodes@.skip(i as int).drop_first() =~= nodes@.skip(i + 1));
        }
        if str_eq(nodes[i].1.as_str(), "trigger") {
            return Ok(nodes[i].0.clone());
        }
        i = i + 1;
    }
    proof {
        assert(nodes@.skip(nodes.len() as int).len() == 0);
    }
    Err(lit("No trigger node — add a Trigger to this pipeline"))
}

/// What the run's clock asks for: go on, warn once, or stop with a message.
pub enum GuardOutcome {
    Continue,
    Warn,
    Stop(String),
}

/// The message of a run stopped by its clock.
pub open spec fn timeout_message(secs: nat) -> Seq<char> {
    "Loop timed out after "@ + crate::text::nat_digits(secs)
        + "s — break the back-edge cycle or raise the timeout in Settings"@
}

/// Checks the run's elapsed time: stop at `GRAPH_KILL_SECS`, warn once at
/// `GRAPH_WARN_SECS`.
pub fn run_guard(elapsed_secs: u64, warned: bool) -> (r: GuardOutcome)
    ensures
        elapsed_secs >= GRAPH_KILL_SECS ==> (r matches GuardOutcome::Stop(m) && m@ == timeout_message(
            elapsed_secs as nat,
        )),
        GRAPH_WARN_SECS <= elapsed_secs < GRAPH_KILL_SECS && !warned ==> r is Warn,
        elapsed_secs < GRAPH_KILL_SECS && (elapsed_secs < GRAPH_WARN_SECS || warned) ==> r is Continue,
{
    if elapsed_secs >= GRAPH_KILL_SECS {
        let mut m = lit("Loop timed out after ");
        crate::text::push_u64(&mut m, elapsed_secs);
        m.append("s — break the back-edge cycle or raise the timeout in Settings");
        GuardOutcome::Stop(m)
    } else if elapsed_secs >= GRAPH_WARN_SECS && !warned {
        GuardOutcome::Warn
    } else {
        GuardOutcome::Continue
    }
}

// ── Manual runs ─────────────────────────────────────────────────────────────

/// The text a manual run starts with: the one typed, unless blank.
pub open spec fn spec_initial_text(o: Option<Seq<char>>) -> Option<Seq<char>> {
    match o {
        Some(t) => if spec_trim(t).len() > 0 {
            Some(t)
        } else {
            None
        },
        None => None,
    }
}

/// The text a manual run starts with.
pub fn initial_text(o: Option<String>) -> (r: Option<String>)
    ensures
        opt_view(r) == spec_initial_text(opt_view(o)),
{
    match o {
        Some(t) => {
            let tt = trim(t.as_str());
            if tt.as_str().is_empty() {
                None
            } else {
                Some(t)
            }
        },
        None => None,
    }
}

/// The fragment that reports a manual run: the first 120 characters of the
/// final text, a plain completion, or the error.
pub open spec fn spec_run_message(result: Result<Option<Seq<char>>, Seq<char>>) -> Seq<char> {
    match result {
        Ok(Some(t)) => "<p style=\"font-size:13px;color:var(--success);\">✓ Done: <span style=\"font-family:monospace;\">"@
            + spec_html_escape(take_chars(t, 120)) + "</span></p>"@,
        Ok(None) => "<p style=\"font-size:13px;color:var(--success);\">✓ Pipeline completed.</p>"@,
        Err(e) => "<p style=\"font-size:13px;color:var(--destructive);\">✗ "@ + spec_html_escape(e) + "</p>"@,
    }
}

/// Reports a manual run.
pub fn run_message(result: &Result<Option<String>, String>) -> (r: String)
    ensures
        r@ == spec_run_message(
            match result {
                Ok(v) => Ok(opt_view(*v)),
                Err(e) => Err(e@),
            },
        ),
{
    match result {
        Ok(Some(t)) => {
            let mut r = lit(
                "<p style=\"font-size:13px;color:var(--success);\">✓ Done: <span style=\"font-family:monospace;\">",
            );
            let short = prefix_chars(t.as_str(), 120);
            let esc = html_escape(short.as_str());
            r.append(esc.as_str());
            r.append("</span></p>");
            r
        },
        Ok(None) => lit("<p style=\"font-size:13px;color:var(--success);\">✓ Pipeline completed.</p>"),
        Err(e) => {
            let mut r = lit("<p style=\"font-size:13px;color:var(--destructive);\">✗ ");
            let esc = html_escape(e.as_str());
            r.append(esc.as_str());
            r.append("</p>");
            r
        },
    }
}

// ── Reordering steps ────────────────────────────────────────────────────────

/// The index of the first step with id `id`.
pub open spec fn index_of(ids: Seq<String>, id: Seq<char>) -> Option<int>
    decreases ids.len(),
{
    if ids.len() == 0 {
        None
    } else if ids.last()@ == id && index_of(ids.drop_last(), id) is None {
        Some(ids.len() - 1)
    } else {
        index_of(ids.drop_last(), id)
    }
}

proof fn lemma_index_of_bound(ids: Seq<String>, id: Seq<char>)
    ensures
        index_of(ids, id) matches Some(p) ==> 0 <= p < ids.len(),
    decreases ids.len(),
{
    if ids.len() > 0 {
        lemma_index_of_bound(ids.drop_last(), id);
    }
}

/// The position a step at `pos` of `len` swaps with when moved up (towards
/// the start) or down; `None` at the edge.
pub open spec fn spec_swap_position(pos: int, len: int, up: bool) -> Option<int> {
    if up {
        if pos == 0 {
            None
        } else {
            Some(pos - 1)
        }
    } else if pos + 1 >= len {
        None
    } else {
        Some(pos + 1)
    }
}

/// The two positions whose orders a move swaps: the step's own and its
/// neighbour's, or `None` when the step is missing or at the edge.
pub open spec fn spec_move_step(ids: Seq<String>, id: Seq<char>, direction: Seq<char>) -> Option<(int, int)> {
    match index_of(ids, id) {
        Some(pos) => match spec_swap_position(pos, ids.len() as int, direction == "up"@) {
            Some(other) => Some((pos, other)),
            None => None,
        },
        None => None,
    }
}

/// Decides which two steps a move swaps (by position in step order).
pub fn move_step(ids: &Vec<String>, id: &str, direction: &str) -> (r: Option<(usize, usize)>)
    ensures
        match spec_move_step(ids@, id@, direction@) {
            Some((a, b)) => r == Some((a as usize, b as usize)),
            None => r is None,
        },
{
    let mut i: usize = 0;
    let mut pos: Option<usize> = None;
    while i < ids.len()
        invariant
            i <= ids.len(),
            match index_of(ids@.take(i as int), id@) {
                Some(p) => pos == Some(p as usize),
                None => pos is None,
            },
        decreases ids.len() - i,
    {
        proof {
            assert(ids@.take(i + 1).drop_last() =~= ids@.take(i as int));
            assert(ids@.take(i + 1).last() == ids@[i as int]);
        }
        if pos.is_none() && str_eq(ids[i].as_str(), id) {
            pos = Some(i);
        }
        i = i + 1;
    }
    proof {
        assert(ids@.take(ids.len() as int) =~= ids@);
        lemma_index_of_bound(ids@, id@);
    }
    match pos {
        Some(p) => {
            let up = str_eq(direction, "up");
            if up {
                if p == 0 {
                    None
                } else {
                    Some((p, p - 1))
                }
            } else if p + 1 >= ids.len() {
                None
            } else {
                Some((p, p + 1))
            }
        },
        None => None,
    }
}

// ── Engine triggers ─────────────────────────────────────────────────────────

/// The trigger type an event starts pipelines of, and the text they start
/// with; `None` for events that start none.
pub open spec fn spec_event_trigger(e: Event) -> Option<(Seq<char>, Seq<char>)> {
    match e {
        Event::OcrCompleted { text, .. } => Some(("OcrCompleted"@, text@)),
        Event::TranscriptionCompleted { text, .. } => Some(("TranscriptionCompleted"@, text@)),
        Event::ClipboardChanged { content, .. } => Some(("ClipboardChanged"@, content@)),
        _ => None,
    }
}

/// The events that start pipelines are exactly the three that carry a
/// text: a finished OCR, a finished transcription and a clipboard change.
/// Each starts the pipelines whose trigger is named after it, with its own
/// text; any other event starts none.
pub proof fn lemma_text_events_start_pipelines(e: Event)
    ensures
        e matches Event::OcrCompleted { text, .. } ==> spec_event_trigger(e) == Some(("OcrCompleted"@, text@)),
        e matches Event::TranscriptionCompleted { text, .. } ==> spec_event_trigger(e) == Some(
            ("TranscriptionCompleted"@, text@),
        ),
        e matches Event::ClipboardChanged { content, .. } ==> spec_event_trigger(e) == Some(
            ("ClipboardChanged"@, content@),
        ),
        spec_event_trigger(e) is Some <==> (e is OcrCompleted || e is TranscriptionCompleted
            || e is ClipboardChanged),
{
}

/// Which pipelines an event starts, and with what text.
pub fn event_trigger(e: &Event) -> (r: Option<(String, String)>)
    ensures
        match spec_event_trigger(*e) {
            Some((k, t)) => r matches Some((a, b)) && a@ == k && b@ == t,
            None => r is None,
        },
{
    match e {
        Event::OcrCompleted { text, .. } => Some((lit("OcrCompleted"), text.clone())),
        Event::TranscriptionCompleted { text, .. } => Some((lit("TranscriptionCompleted"), text.clone())),
        Event::ClipboardChanged { content, .. } => Some((lit("ClipboardChanged"), content.clone())),
        _ => None,
    }
}

// ── Templates ───────────────────────────────────────────────────────────────

/// A ready-made pipeline.
pub struct Template {
    pub id: String,
    pub name: String,
    pub description: String,
    pub trigger: String,
    /// Tool and configuration of each step, in order.
    pub steps: Vec<(String, String)>,
}

/// A template as plain values: id, name, description, trigger and steps.
pub open spec fn template_view(t: Template) -> (Seq<char>, Seq<char>, Seq<char>, Seq<char>, Seq<
    (Seq<char>, Seq<char>),
>) {
    (t.id@, t.name@, t.description@, t.trigger@, crate::mcp::pair_views(t.steps@))
}

/// The templates offered in the editor, in order.
pub open spec fn spec_templates() -> Seq<
    (Seq<char>, Seq<char>, Seq<char>, Seq<char>, Seq<(Seq<char>, Seq<char>)>),
> {
    seq![
        (
            "ocr-copy"@,
            "OCR → Copy"@,
            "After OCR, copy the extracted text to clipboard automatically."@,
            "{\"type\":\"OcrCompleted\"}"@,
            seq![("copy_clipboard"@, "{}"@)],
        ),
        (
            "ocr-translate-copy"@,
            "OCR → Translate → Copy"@,
            "After OCR, translate the text to English and copy it."@,
            "{\"type\":\"OcrCompleted\"}"@,
            seq![("translate"@, "{\"from_lang\":\"auto\",\"to_lang\":\"en\"}"@), ("copy_clipboard"@, "{}"@)],
        ),
        (
            "voice-note"@,
            "Voice → Save as Note"@,
            "After transcription, save the transcript as a note."@,
            "{\"type\":\"TranscriptionCompleted\"}"@,
            seq![("save_note"@, "{}"@)],
        ),
        (
            "voice-translate-copy"@,
            "Voice → Translate → Copy"@,
            "After transcription, translate to English and copy."@,
            "{\"type\":\"TranscriptionCompleted\"}"@,
            seq![("translate"@, "{\"from_lang\":\"auto\",\"to_lang\":\"en\"}"@), ("copy_clipboard"@, "{}"@)],
        ),
        (
            "clipboard-translate-copy"@,
            "Clipboard → Translate → Copy"@,
            "On clipboard change, translate to English and re-copy."@,
            "{\"type\":\"ClipboardChanged\"}"@,
            seq![("translate"@, "{\"from_lang\":\"auto\",\"to_lang\":\"en\"}"@), ("copy_clipboard"@, "{}"@)],
        ),
    ]
}

fn make_template(id: &str, name: &str, description: &str, trigger: &str, steps: Vec<(String, String)>) -> (r:
    Template)
    ensures
        template_view(r) == (id@, name@, description@, trigger@, crate::mcp::pair_views(steps@)),
{
    Template { id: lit(id), name: lit(name), description: lit(description), trigger: lit(trigger), steps }
}

fn step(tool: &str, config: &str) -> (r: (String, String))
    ensures
        r.0@ == tool@,
        r.1@ == config@,
{
    (lit(tool), lit(config))
}

/// The templates offered in the editor.
pub fn templates() -> (r: Vec<Template>)
    ensures
        r@.map_values(|t: Template| template_view(t)) == spec_templates(),
{
    let mut r: Vec<Template> = Vec::new();
    let mut s1: Vec<(String, String)> = Vec::new();
    s1.push(step("copy_clipboard", "{}"));
    proof {
        assert(crate::mcp::pair_views(s1@) =~= seq![("copy_clipboard"@, "{}"@)]);
    }
    r.push(
        make_template(
            "ocr-copy",
            "OCR → Copy",
            "After OCR, copy the extracted text to clipboard automatically.",
            "{\"type\":\"OcrCompleted\"}",
            s1,
        ),
    );
    let mut s2: Vec<(String, String)> = Vec::new();
    s2.push(step("translate", "{\"from_lang\":\"auto\",\"to_lang\":\"en\"}"));
    s2.push(step("copy_clipboard", "{}"));
    proof {
        assert(crate::mcp::pair_views(s2@) =~= seq![
            ("translate"@, "{\"from_lang\":\"auto\",\"to_lang\":\"en\"}"@),
            ("copy_clipboard"@, "{}"@),
        ]);
    }
    r.push(
        make_template(
            "ocr-translate-copy",
            "OCR → Translate → Copy",
            "After OCR, translate the text to English and copy it.",
            "{\"type\":\"OcrCompleted\"}",
            s2,
        ),
    );
    let mut s3: Vec<(String, String)> = Vec::new();
    s3.push(step("save_note", "{}"));
    proof {
        assert(crate::mcp::pair_views(s3@) =~= seq![("save_note"@, "{}"@)]);
    }
    r.push(
        make_template(
            "voice-note",
            "Voice → Save as Note",
            "After transcription, save the transcript as a note.",
            "{\"type\":\"TranscriptionCompleted\"}",
            s3,
        ),
    );
    let mut s4: Vec<(String, String)> = Vec::new();
    s4.push(step("translate", "{\"from_lang\":\"auto\",\"to_lang\":\"en\"}"));
    s4.push(step("copy_clipboard", "{}"));
    proof {
        assert(crate::mcp::pair_views(s4@) =~= seq![
            ("translate"@, "{\"from_lang\":\"auto\",\"to_lang\":\"en\"}"@),
            ("copy_clipboard"@, "{}"@),
        ]);
    }
    r.push(
        make_template(
            "voice-translate-copy",
            "Voice → Translate → Copy",
            "After transcription, translate to English and copy.",
            "{\"type\":\"TranscriptionCompleted\"}",
            s4,
        ),
    );
    let mut s5: Vec<(String, String)> = Vec::new();
    s5.push(step("translate", "{\"from_lang\":\"auto\",\"to_lang\":\"en\"}"));
    s5.push(step("copy_clipboard", "{}"));
    proof {
        assert(crate::mcp::pair_views(s5@) =~= seq![
            ("translate"@, "{\"from_lang\":\"auto\",\"to_lang\":\"en\"}"@),
            ("copy_clipboard"@, "{}"@),
        ]);
    }
    r.push(
        make_template(
            "clipboard-translate-copy",
            "Clipboard → Translate → Copy",
            "On clipboard change, translate to English and re-copy.",
            "{\"type\":\"ClipboardChanged\"}",
            s5,
        ),
    );
    proof {
        assert(r@.map_values(|t: Template| template_view(t)) =~= spec_templates());
    }
    r
}

/// The first template with the given id.
pub open spec fn find_template_spec(
    ts: Seq<(Seq<char>, Seq<char>, Seq<char>, Seq<char>, Seq<(Seq<char>, Seq<char>)>)>,
    id: Seq<char>,
) -> Option<(Seq<char>, Seq<char>, Seq<char>, Seq<char>, Seq<(Seq<char>, Seq<char>)>)>
    decreases ts.len(),
{
    if ts.len() == 0 {
        None
    } else if ts[0].0 == id {
        Some(ts[0])
    } else {
        find_template_spec(ts.drop_first(), id)
    }
}

/// The template with the given id, if there is one.
pub fn find_template(id: &str) -> (r: Option<Template>)
    ensures
        match find_template_spec(spec_templates(), id@) {
            Some(t) => r is Some && template_view(r->0) == t,
            None => r is None,
        },
{
    let mut all = templates();
    let ghost ts = all@.map_values(|t: Template| template_view(t));
    let mut i: usize = 0;
    proof {
        assert(ts.skip(0) =~= ts);
    }
    while i < all.len()
        invariant
            i <= all.len(),
            ts == all@.map_values(|t: Template| template_view(t)),
            ts == spec_templates(),
            find_template_spec(ts, id@) == find_template_spec(ts.skip(i as int), id@),
        decreases all.len() - i,
    {
        proof {
            assert(ts.skip(i as int)[0] == ts[i as int]);
            assert(ts.skip(i as int).drop_first() =~= ts.skip(i + 1));
        }
        if str_eq(all[i].id.as_str(), id) {
            let t = all.remove(i);
            return Some(t);
        }
        i = i + 1;
    }
    proof {
        assert(ts.skip(all.len() as int).len() == 0);
    }
    None
}

/// The flow a template shows: its trigger's label, then each step's tool
/// label, joined by arrows.
pub open spec fn spec_flow(trigger: Seq<char>, tools: Seq<(Seq<char>, Seq<char>)>) -> Seq<char>
    decreases tools.len(),
{
    if tools.len() == 0 {
        spec_trigger_label(trigger)
    } else {
        spec_flow(trigger, tools.drop_last()) + " → "@ + spec_tool_label(tools.last().0)
    }
}

/// The flow line of a template card.
pub fn template_flow(t: &Template) -> (r: String)
    ensures
        r@ == spec_flow(t.trigger@, crate::mcp::pair_views(t.steps@)),
{
    let ghost tools = crate::mcp::pair_views(t.steps@);
    let mut r = trigger_label(t.trigger.as_str());
    let mut i: usize = 0;
    proof {
        assert(tools.take(0) =~= Seq::<(Seq<char>, Seq<char>)>::empty());
    }
    while i < t.steps.len()
        invariant
            i <= t.steps.len(),
            tools == crate::mcp::pair_views(t.steps@),
            r@ == spec_flow(t.trigger@, tools.take(i as int)),
        decreases t.steps.len() - i,
    {
        r.append(" → ");
        let l = tool_label(t.steps[i].0.as_str());
        r.append(l.as_str());
        proof {
            assert(tools.take(i + 1).drop_last() =~= tools.take(i as int));
            assert(tools.take(i + 1).last() == tools[i as int]);
        }
        i = i + 1;
    }
    proof {
        assert(tools.take(t.steps.len() as int) =~= tools);
    }
    r
}

/// The `HX-Trigger` value that opens a new pipeline in the canvas (single
/// quotes in the name escaped with a backslash).
pub open spec fn spec_load_pipeline_event(id: Seq<char>, name: Seq<char>, label: Seq<char>) -> Seq<char> {
    "{\"qa:load-pipeline\":{\"id\":\""@ + id + "\",\"name\":\""@ + replace_all(name, "'"@, "\\'"@)
        + "\",\"triggerLabel\":\""@ + label + "\"}}"@
}

/// Builds the `HX-Trigger` value that opens a new pipeline.
pub fn load_pipeline_event(id: &str, name: &str, label: &str) -> (r: String)
    ensures
        r@ == spec_load_pipeline_event(id@, name@, label@),
{
    proof {
        reveal_strlit("'");
    }
    let mut r = lit("{\"qa:load-pipeline\":{\"id\":\"");
    r.append(id);
    r.append("\",\"name\":\"");
    let n = replace_str(name, "'", "\\'");
    r.append(n.as_str());
    r.append("\",\"triggerLabel\":\"");
    r.append(label);
    r.append("\"}}");
    r
}

// ── Export and import ───────────────────────────────────────────────────────

/// A character kept in an exported file's name.
pub open spec fn keeps_in_file_name(c: char) -> bool {
    crate::text::spec_is_alphanumeric(c) || c == '-' || c == '_'
}

/// The name of an exported pipeline file: each character that is not
/// alphanumeric, `-` or `_` becomes `_`, then `.yaml`.
pub open spec fn spec_export_file_name(name: Seq<char>) -> Seq<char> {
    name.map_values(|c: char| if keeps_in_file_name(c) { c } else { '_' }) + ".yaml"@
}

/// Names the file of an exported pipeline.
pub fn export_file_name(name: &str) -> (r: String)
    ensures
        r@ == spec_export_file_name(name@),
{
    let cs = crate::text::chars_of(name);
    let mut out = String::new();
    let mut i: usize = 0;
    while i < cs.len()
        invariant
            i <= cs.len(),
            cs@ == name@,
            out@ == cs@.take(i as int).map_values(|c: char| if keeps_in_file_name(c) { c } else { '_' }),
        decreases cs.len() - i,
    {
        let c = cs[i];
        let keep = crate::text::is_alphanumeric(c) || c == '-' || c == '_';
        out.push(if keep { c } else { '_' });
        proof {
            assert(cs@.take(i + 1) =~= cs@.take(i as int).push(c));
            assert(cs@.take(i + 1).map_values(|c: char| if keeps_in_file_name(c) { c } else { '_' })
                =~= cs@.take(i as int).map_values(|c: char| if keeps_in_file_name(c) { c } else { '_' }).push(
                if keeps_in_file_name(c) { c } else { '_' },
            ));
        }
        i = i + 1;
    }
    proof {
        assert(cs@.take(cs.len() as int) =~= cs@);
    }
    out.append(".yaml");
    out
}

/// The trigger type written into an export: the trigger JSON's `type`, or
/// `Manual`.
pub fn export_trigger_type(trigger_json: &str) -> (r: String)
    ensures
        r@ == str_or(spec_json_str_at(trigger_json@, "/type"@), "Manual"@),
{
    or_default(json_str_at(trigger_json, "/type"), "Manual")
}

/// The trigger JSON stored for an imported pipeline: `{"type":…}`.
pub fn import_trigger_json(trigger_type: &str) -> (r: String)
    ensures
        r@ == "{\"type\":"@ + crate::json::spec_json_string(trigger_type@) + "}"@,
{
    let mut r = lit("{\"type\":");
    let j = crate::json::json_string(trigger_type);
    r.append(j.as_str());
    r.append("}");
    r
}

/// The new id an imported node got: the last mapping of the old id.
pub open spec fn mapped_id(m: Seq<(String, String)>, old: Seq<char>) -> Option<Seq<char>>
    decreases m.len(),
{
    if m.len() == 0 {
        None
    } else if m.last().0@ == old {
        Some(m.last().1@)
    } else {
        mapped_id(m.drop_last(), old)
    }
}

/// The imported edges, renamed: each edge (source, target, label) whose two
/// ends were imported, with their new ids, in order; the others are dropped.
pub open spec fn spec_remap_edges(m: Seq<(String, String)>, es: Seq<(String, String, String)>) -> Seq<
    (Seq<char>, Seq<char>, Seq<char>),
>
    decreases es.len(),
{
    if es.len() == 0 {
        seq![]
    } else {
        let prev = spec_remap_edges(m, es.drop_last());
        let e = es.last();
        match (mapped_id(m, e.0@), mapped_id(m, e.1@)) {
            (Some(s), Some(t)) => prev.push((s, t, e.2@)),
            _ => prev,
        }
    }
}

fn lookup_mapped(m: &Vec<(String, String)>, old: &str) -> (r: Option<String>)
    ensures
        opt_view(r) == mapped_id(m@, old@),
{
    let mut i: usize = m.len();
    proof {
        assert(m@.take(m@.len() as int) =~= m@);
    }
    while i > 0
        invariant
            i <= m.len(),
            mapped_id(m@, old@) == mapped_id(m@.take(i as int), old@),
        decreases i,
    {
        proof {
            assert(m@.take(i as int).drop_last() =~= m@.take(i - 1));
            assert(m@.take(i as int).last() == m@[i - 1]);
        }
        if str_eq(m[i - 1].0.as_str(), old) {
            return Some(m[i - 1].1.clone());
        }
        i = i - 1;
    }
    None
}

/// Renames the edges of an imported pipeline through the node id mapping
/// (old id, new id), keeping the edges whose two ends were imported.
pub fn remap_edges(m: &Vec<(String, String)>, edges: &Vec<(String, String, String)>) -> (r: Vec<
    (String, String, String),
>)
    ensures
        r@.map_values(|e: (String, String, String)| (e.0@, e.1@, e.2@)) == spec_remap_edges(m@, edges@),
{
    let mut out: Vec<(String, String, String)> = Vec::new();
    let mut i: usize = 0;
    proof {
        assert(edges@.take(0) =~= Seq::<(String, String, String)>::empty());
    }
    while i < edges.len()
        invariant
            i <= edges.len(),
            out@.map_values(|e: (String, String, String)| (e.0@, e.1@, e.2@)) == spec_remap_edges(
                m@,
                edges@.take(i as int),
            ),
        decreases edges.len() - i,
    {
        let ghost before = out@.map_values(|e: (String, String, String)| (e.0@, e.1@, e.2@));
        proof {
            assert(edges@.take(i + 1).drop_last() =~= edges@.take(i as int));
            assert(edges@.take(i + 1).last() == edges@[i as int]);
        }
        let s = lookup_mapped(m, edges[i].0.as_str());
        let t = lookup_mapped(m, edges[i].1.as_str());
        match (s, t) {
            (Some(s), Some(t)) => {
                out.push((s, t, edges[i].2.clone()));
                proof {
                    assert(out@.map_values(|e: (String, String, String)| (e.0@, e.1@, e.2@)) =~= before.push(
                        (out@.last().0@, out@.last().1@, out@.last().2@),
                    ));
                }
            },
            _ => {},
        }
        i = i + 1;
    }
    proof {
        assert(edges@.take(edges.len() as int) =~= edges@);
    }
    out
}

// ── Pipeline list ───────────────────────────────────────────────────────────

/// The positions, in order, of the pipelines filed under `folder` (`None`:
/// under no folder).
pub open spec fn spec_members(ps: Seq<Option<String>>, folder: Option<Seq<char>>) -> Seq<int>
    decreases ps.len(),
{
    if ps.len() == 0 {
        seq![]
    } else {
        let prev = spec_members(ps.drop_last(), folder);
        if opt_view(ps.last()) == folder {
            prev.push(ps.len() - 1)
        } else {
            prev
        }
    }
}

/// The positions of the pipelines (given by their folder ids) filed under a
/// folder, or under none.
pub fn folder_members(folder_ids: &Vec<Option<String>>, folder: Option<&str>) -> (r: Vec<usize>)
    ensures
        r@.map_values(|i: usize| i as int) == spec_members(folder_ids@, opt_str(folder)),
{
    let mut out: Vec<usize> = Vec::new();
    let mut i: usize = 0;
    while i < folder_ids.len()
        invariant
            i <= folder_ids.len(),
            out@.map_values(|k: usize| k as int) == spec_members(folder_ids@.take(i as int), opt_str(folder)),
        decreases folder_ids.len() - i,
    {
        let ghost before = out@.map_values(|k: usize| k as int);
        proof {
            assert(folder_ids@.take(i + 1).drop_last() =~= folder_ids@.take(i as int));
            assert(folder_ids@.take(i + 1).last() == folder_ids@[i as int]);
        }
        let same = match (&folder_ids[i], folder) {
            (Some(a), Some(b)) => str_eq(a.as_str(), b),
            (None, None) => true,
            _ => false,
        };
        if same {
            out.push(i);
            proof {
                assert(out@.map_values(|k: usize| k as int) =~= before.push(i as int));
            }
        }
        i = i + 1;
    }
    proof {
        assert(folder_ids@.take(folder_ids.len() as int) =~= folder_ids@);
    }
    out
}

// ── Values ──────────────────────────────────────────────────────────────────

/// The value that flows through a pipeline: the current text, if any.
#[derive(Clone, Default)]
pub struct StepValue {
    pub text: Option<String>,
}

// ── Laws ────────────────────────────────────────────────────────────────────

/// Moving a step up and then back down returns it to its place: the swap
/// partner of the move up is a position whose move down swaps with the
/// step's first position.
pub proof fn lemma_move_up_then_down(pos: int, len: int)
    requires
        0 <= pos < len,
    ensures
        spec_swap_position(pos, len, true) matches Some(q) ==> spec_swap_position(q, len, false) == Some(pos),
        spec_swap_position(pos, len, false) matches Some(q) ==> spec_swap_position(q, len, true) == Some(pos),
{
}

/// A step can move up unless it is first, and down unless it is last.
pub proof fn lemma_move_bounds(pos: int, len: int)
    requires
        0 <= pos < len,
    ensures
        spec_swap_position(pos, len, true) is None <==> pos == 0,
        spec_swap_position(pos, len, false) is None <==> pos == len - 1,
{
}

} // verus!
