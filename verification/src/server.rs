//! The local HTTP server: errors and their status codes, the session token
//! check, UI settings with their defaults, the shell page, and where the
//! server announces itself to the agent bridge.
use vstd::prelude::*;

use crate::json::{opt_view, spec_json_string};
use crate::paths::{join, spec_join};
use crate::text::{lit, push_u64, nat_digits, replace_all, replace_str, skip_chars, starts_with, str_eq};

verus! {

/// The port the server tries first.
pub const DEFAULT_PORT: u16 = 47821;

/// What the search for a free port does after probing one port.
#[derive(PartialEq, Eq, Structural, Clone, Copy, Debug)]
pub enum PortScan {
    /// The port could be bound: use it.
    Use(u16),
    /// It could not: probe this one next.
    Try(u16),
    /// It could not, and no higher port exists.
    Exhausted,
}

/// One step of the upward search for a free port on localhost: a port that
/// could be bound is used, else the next one up is probed.
pub fn port_scan_step(port: u16, bound: bool) -> (r: PortScan)
    ensures
        bound ==> r == PortScan::Use(port),
        !bound && port < u16::MAX ==> r == PortScan::Try((port + 1) as u16),
        !bound && port == u16::MAX ==> r == PortScan::Exhausted,
{
    if bound {
        PortScan::Use(port)
    } else if port < u16::MAX {
        PortScan::Try(port + 1)
    } else {
        PortScan::Exhausted
    }
}

// ── Errors ──────────────────────────────────────────────────────────────────

/// An error answered with a status code and a JSON message.
pub struct AppError {
    pub message: String,
    pub code: u16,
}

impl AppError {
    /// An error with a code and a message.
    pub fn new(code: u16, message: &str) -> (r: AppError)
        ensures
            r.code == code,
            r.message@ == message@,
    {
        AppError { message: lit(message), code }
    }

    /// An internal error (500).
    pub fn internal(message: &str) -> (r: AppError)
        ensures
            r.code == 500,
            r.message@ == message@,
    {
        AppError::new(500, message)
    }

    /// A missing or wrong session token (401).
    pub fn unauthorized() -> (r: AppError)
        ensures
            r.code == 401,
            r.message@ == "Unauthorized"@,
    {
        AppError::new(401, "Unauthorized")
    }

    /// A missing resource (404), named in the message.
    pub fn not_found(resource: &str) -> (r: AppError)
        ensures
            r.code == 404,
            r.message@ == "Not found: "@ + resource@,
    {
        let m = crate::text::concat("Not found: ", resource);
        AppError { message: m, code: 404 }
    }

    /// The status the error is answered with: its code when it is a valid
    /// HTTP status (100 to 999), else 500.
    pub fn status(&self) -> (r: u16)
        ensures
            r == if 100 <= self.code <= 999 {
                self.code
            } else {
                500
            },
    {
        if 100 <= self.code && self.code <= 999 {
            self.code
        } else {
            500
        }
    }
}

// ── Session token ───────────────────────────────────────────────────────────

/// The token of an `Authorization` header: what follows `Bearer `.
pub open spec fn spec_bearer(header: Option<Seq<char>>) -> Option<Seq<char>> {
    match header {
        Some(h) => if 7 <= h.len() && h.take(7) == "Bearer "@ {
            Some(h.skip(7))
        } else {
            None
        },
        None => None,
    }
}

/// Reads the token of an `Authorization` header.
pub fn bearer_token(header: Option<&str>) -> (r: Option<String>)
    ensures
        opt_view(r) == spec_bearer(
            match header {
                Some(h) => Some(h@),
                None => None,
            },
        ),
{
    proof {
        reveal_strlit("Bearer ");
    }
    match header {
        Some(h) => if starts_with(h, "Bearer ") {
            Some(skip_chars(h, 7))
        } else {
            None
        },
        None => None,
    }
}

/// Does a request carry the session's token?
pub fn auth_ok(header: Option<&str>, session_token: &str) -> (r: bool)
    ensures
        r == (spec_bearer(
            match header {
                Some(h) => Some(h@),
                None => None,
            },
        ) == Some(session_token@)),
{
    match bearer_token(header) {
        Some(t) => str_eq(t.as_str(), session_token),
        None => false,
    }
}

// ── UI settings ─────────────────────────────────────────────────────────────

/// Is the text a JSON document, as `serde_json` reads it?
pub uninterp spec fn spec_is_json(text: Seq<char>) -> bool;

/// `serde_json::from_str::<serde_json::Value>` succeeds. The contract names
/// the result.
#[verifier::external_body]
pub(crate) fn is_json(text: &str) -> (r: bool)
    ensures
        r == spec_is_json(text@),
{
    serde_json::from_str::<serde_json::Value>(text).is_ok()
}

/// The UI settings and their defaults (as JSON), in order.
pub open spec fn ui_defaults() -> Seq<(Seq<char>, Seq<char>)> {
    seq![
        ("theme"@, "\"dark\""@),
        ("glass"@, "true"@),
        ("font"@, "\"Inter\""@),
        ("pinned"@, "[]"@),
        ("sidebar_collapsed"@, "false"@),
    ]
}

/// The stored value of a setting: the last row with that key whose value
/// is JSON.
pub open spec fn stored_value(rows: Seq<(String, String)>, key: Seq<char>) -> Option<Seq<char>>
    decreases rows.len(),
{
    if rows.len() == 0 {
        None
    } else if rows.last().0@ == key && spec_is_json(rows.last().1@) {
        Some(rows.last().1@)
    } else {
        stored_value(rows.drop_last(), key)
    }
}

fn stored_value_of(rows: &Vec<(String, String)>, key: &str) -> (r: Option<String>)
    ensures
        opt_view(r) == stored_value(rows@, key@),
{
    let mut i: usize = rows.len();
    proof {
        assert(rows@.take(rows@.len() as int) =~= rows@);
    }
    while i > 0
        invariant
            i <= rows@.len(),
            stored_value(rows@, key@) == stored_value(rows@.take(i as int), key@),
        decreases i,
    {
        proof {
            assert(rows@.take(i as int).drop_last() =~= rows@.take(i - 1));
            assert(rows@.take(i as int).last() == rows@[i - 1]);
        }
        if str_eq(rows[i - 1].0.as_str(), key) && is_json(rows[i - 1].1.as_str()) {
            return Some(rows[i - 1].1.clone());
        }
        i = i - 1;
    }
    None
}

/// The UI settings: each of them stored, or its default.
pub open spec fn spec_ui_settings(rows: Seq<(String, String)>) -> Seq<(Seq<char>, Seq<char>)> {
    ui_defaults().map_values(
        |d: (Seq<char>, Seq<char>)|
            (
                d.0,
                match stored_value(rows, d.0) {
                    Some(v) => v,
                    None => d.1,
                },
            ),
    )
}

/// Reads the UI settings from the stored rows (key, JSON value).
pub fn ui_settings(rows: &Vec<(String, String)>) -> (r: Vec<(String, String)>)
    ensures
        crate::mcp::pair_views(r@) == spec_ui_settings(rows@),
{
    let keys = ["theme", "glass", "font", "pinned", "sidebar_collapsed"];
    let defaults = ["\"dark\"", "true", "\"Inter\"", "[]", "false"];
    let mut out: Vec<(String, String)> = Vec::new();
    let mut i: usize = 0;
    proof {
        assert(keys@.map_values(|k: &str| k@) =~= ui_defaults().map_values(|d: (Seq<char>, Seq<char>)| d.0));
        assert(defaults@.map_values(|k: &str| k@) =~= ui_defaults().map_values(|d: (Seq<char>, Seq<char>)| d.1));
    }
    while i < 5
        invariant
            i <= 5,
            keys@.len() == 5,
            defaults@.len() == 5,
            keys@.map_values(|k: &str| k@) == ui_defaults().map_values(|d: (Seq<char>, Seq<char>)| d.0),
            defaults@.map_values(|k: &str| k@) == ui_defaults().map_values(|d: (Seq<char>, Seq<char>)| d.1),
            crate::mcp::pair_views(out@) == spec_ui_settings(rows@).take(i as int),
        decreases 5 - i,
    {
        let k = keys[i];
        let d = defaults[i];
        proof {
            assert(keys@.map_values(|k: &str| k@)[i as int] == k@);
            assert(defaults@.map_values(|k: &str| k@)[i as int] == d@);
        }
        let v = match stored_value_of(rows, k) {
            Some(v) => v,
            None => lit(d),
        };
        let ghost before = crate::mcp::pair_views(out@);
        out.push((lit(k), v));
        proof {
            assert(crate::mcp::pair_views(out@) =~= before.push((k@, out@.last().1@)));
            assert(spec_ui_settings(rows@).take(i + 1) =~= spec_ui_settings(rows@).take(i as int).push(
                spec_ui_settings(rows@)[i as int],
            ));
        }
        i = i + 1;
    }
    proof {
        assert(spec_ui_settings(rows@).take(5) =~= spec_ui_settings(rows@));
    }
    out
}

/// Is a key one of the UI settings the panel may save?
pub fn is_ui_setting(key: &str) -> (r: bool)
    ensures
        r == (key@ == "theme"@ || key@ == "glass"@ || key@ == "font"@ || key@ == "pinned"@ || key@
            == "sidebar_collapsed"@),
{
    str_eq(key, "theme") || str_eq(key, "glass") || str_eq(key, "font") || str_eq(key, "pinned")
        || str_eq(key, "sidebar_collapsed")
}

// ── Pages ───────────────────────────────────────────────────────────────────

/// The shell page with the session token and port filled in.
pub fn fill_shell(template: &str, token: &str, port: u16) -> (r: String)
    ensures
        r@ == replace_all(
            replace_all(template@, "{{SESSION_TOKEN}}"@, token@),
            "{{API_PORT}}"@,
            nat_digits(port as nat),
        ),
{
    proof {
        reveal_strlit("{{SESSION_TOKEN}}");
        reveal_strlit("{{API_PORT}}");
    }
    let a = replace_str(template, "{{SESSION_TOKEN}}", token);
    let mut p = String::new();
    push_u64(&mut p, port as u64);
    replace_str(a.as_str(), "{{API_PORT}}", p.as_str())
}

/// The page served when the shell file cannot be read.
pub fn shell_fallback(token: &str, port: u16) -> (r: String)
    ensures
        r@ == "<!DOCTYPE html><html><body><script>\n            window.__SESSION_TOKEN__ = '"@ + token@
            + "';\n            window.__API_PORT__ = "@ + nat_digits(port as nat)
            + ";\n            </script><p>Loading...</p></body></html>"@,
{
    let mut r = lit("<!DOCTYPE html><html><body><script>\n            window.__SESSION_TOKEN__ = '");
    r.append(token);
    r.append("';\n            window.__API_PORT__ = ");
    push_u64(&mut r, port as u64);
    r.append(";\n            </script><p>Loading...</p></body></html>");
    r
}

/// The file of a tool's panel.
pub fn tool_panel_path(tool: &str) -> (r: String)
    ensures
        r@ == "../ui/tools/"@ + tool@ + "/index.html"@,
{
    let mut r = lit("../ui/tools/");
    r.append(tool);
    r.append("/index.html");
    r
}

/// The panel shown for a tool that has none yet.
pub fn tool_panel_fallback(tool: &str) -> (r: String)
    ensures
        r@ == "<div id=\"tool-panel\" class=\"p-6\">\n                  <h2 class=\"text-xl font-semibold capitalize\">"@
            + tool@ + "</h2>\n                  <p class=\"text-gray-400 mt-2\">Coming in a future phase.</p>\n                </div>"@,
{
    let mut r = lit("<div id=\"tool-panel\" class=\"p-6\">\n                  <h2 class=\"text-xl font-semibold capitalize\">");
    r.append(tool);
    r.append("</h2>\n                  <p class=\"text-gray-400 mt-2\">Coming in a future phase.</p>\n                </div>");
    r
}

// ── Announcing the server ───────────────────────────────────────────────────

/// The folder the server announces itself in:
/// `$XDG_DATA_HOME/eleutheria-telos`, else `$HOME/.local/share/eleutheria-telos`
/// (`/tmp` for a missing home).
pub open spec fn spec_info_dir(xdg: Option<Seq<char>>, home: Option<Seq<char>>) -> Seq<char> {
    let base = match xdg {
        Some(x) => x,
        None => spec_join(crate::mcp::str_or(home, "/tmp"@), ".local/share"@),
    };
    spec_join(base, "eleutheria-telos"@)
}

/// Where the server announces itself.
pub fn info_dir(xdg: Option<&str>, home: Option<&str>) -> (r: String)
    ensures
        r@ == spec_info_dir(
            match xdg {
                Some(x) => Some(x@),
                None => None,
            },
            match home {
                Some(h) => Some(h@),
                None => None,
            },
        ),
{
    let base = match xdg {
        Some(x) => lit(x),
        None => {
            let h = match home {
                Some(h) => lit(h),
                None => lit("/tmp"),
            };
            join(h.as_str(), ".local/share")
        },
    };
    join(base.as_str(), "eleutheria-telos")
}

/// The announcement: `{"port":…,"token":"…"}`.
pub fn server_info_json(port: u16, token: &str) -> (r: String)
    ensures
        r@ == "{\"port\":"@ + nat_digits(port as nat) + ",\"token\":"@ + spec_json_string(token@) + "}"@,
{
    let mut r = lit("{\"port\":");
    push_u64(&mut r, port as u64);
    r.append(",\"token\":");
    let j = crate::json::json_string(token);
    r.append(j.as_str());
    r.append("}");
    r
}

} // verus!
