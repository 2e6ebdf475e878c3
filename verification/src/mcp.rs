//! Model Context Protocol: the tools the app exposes to AI agents, how a
//! tool call becomes a request to the local HTTP API, and how JSON-RPC
//! messages are answered. Shared by the stdio and the SSE transports.
use vstd::prelude::*;

use crate::tags::views;
use crate::text::{chars_of, i64_to_string, int_decimal, lit, spec_trim, str_eq, string_from_chars, trim_chars};

verus! {

/// A tool argument, as far as dispatch reads it: a JSON string, a JSON
/// integer that fits in `i64`, or anything else.
pub enum ArgValue {
    Str(String),
    Int(i64),
    Other,
}

/// HTTP method of a request to the local API.
#[derive(PartialEq, Eq, Structural, Clone, Copy, Debug)]
pub enum HttpMethod {
    Get,
    Post,
    Put,
    Delete,
}

/// A request to the local API: method, path, and query or form fields.
pub struct HttpCall {
    pub method: HttpMethod,
    pub path: String,
    pub params: Vec<(String, String)>,
}

pub open spec fn pair_views(p: Seq<(String, String)>) -> Seq<(Seq<char>, Seq<char>)> {
    p.map_values(|e: (String, String)| (e.0@, e.1@))
}

impl HttpCall {
    pub open spec fn view(&self) -> (HttpMethod, Seq<char>, Seq<(Seq<char>, Seq<char>)>) {
        (self.method, self.path@, pair_views(self.params@))
    }
}

/// The value of the first argument named `key`.
pub open spec fn arg_lookup(args: Seq<(String, ArgValue)>, key: Seq<char>) -> Option<ArgValue>
    decreases args.len(),
{
    if args.len() == 0 {
        None
    } else if args[0].0@ == key {
        Some(args[0].1)
    } else {
        arg_lookup(args.drop_first(), key)
    }
}

/// The argument `key` when it is a string.
pub open spec fn arg_str(args: Seq<(String, ArgValue)>, key: Seq<char>) -> Option<Seq<char>> {
    match arg_lookup(args, key) {
        Some(ArgValue::Str(s)) => Some(s@),
        _ => None,
    }
}

/// The argument `key` when it is an integer.
pub open spec fn arg_int(args: Seq<(String, ArgValue)>, key: Seq<char>) -> Option<i64> {
    match arg_lookup(args, key) {
        Some(ArgValue::Int(n)) => Some(n),
        _ => None,
    }
}

pub open spec fn str_or(o: Option<Seq<char>>, d: Seq<char>) -> Seq<char> {
    match o {
        Some(s) => s,
        None => d,
    }
}

/// A list request: the search goes as `q` only when it is not empty; the
/// limit defaults to 50.
pub open spec fn list_call(path: Seq<char>, args: Seq<(String, ArgValue)>) -> (
    HttpMethod,
    Seq<char>,
    Seq<(Seq<char>, Seq<char>)>,
) {
    let search = str_or(arg_str(args, "search"@), seq![]);
    let limit = int_decimal(
        match arg_int(args, "limit"@) {
            Some(n) => n as int,
            None => 50,
        },
    );
    if search.len() == 0 {
        (HttpMethod::Get, path, seq![("limit"@, limit)])
    } else {
        (HttpMethod::Get, path, seq![("q"@, search), ("limit"@, limit)])
    }
}

/// The optional string fields that a note update forwards, in order.
pub open spec fn note_update_fields(args: Seq<(String, ArgValue)>) -> Seq<(Seq<char>, Seq<char>)> {
    (match arg_str(args, "title"@) {
        Some(t) => seq![("title"@, t)],
        None => seq![],
    }) + (match arg_str(args, "content"@) {
        Some(c) => seq![("content"@, c)],
        None => seq![],
    }) + (match arg_str(args, "tags"@) {
        Some(t) => seq![("tags"@, t)],
        None => seq![],
    })
}

/// The string field `key` as a one-element list when given.
pub open spec fn opt_field(args: Seq<(String, ArgValue)>, key: Seq<char>) -> Seq<(Seq<char>, Seq<char>)> {
    match arg_str(args, key) {
        Some(v) => seq![(key, v)],
        None => seq![],
    }
}

/// The fields of a video request: operation and input path always, the
/// optional string settings when given, the quality when an integer.
pub open spec fn video_fields(args: Seq<(String, ArgValue)>) -> Seq<(Seq<char>, Seq<char>)> {
    seq![
        ("operation"@, str_or(arg_str(args, "operation"@), seq![])),
        ("input_path"@, str_or(arg_str(args, "input_path"@), seq![])),
    ] + opt_field(args, "start"@) + opt_field(args, "end"@) + opt_field(args, "audio_format"@)
        + opt_field(args, "compress_resolution"@) + opt_field(args, "resize_resolution"@) + (
    match arg_int(args, "crf"@) {
        Some(n) => seq![("crf"@, int_decimal(n as int))],
        None => seq![],
    })
}

/// The request that an MCP tool call becomes, or the error it fails with.
pub open spec fn spec_plan_tool_call(name: Seq<char>, args: Seq<(String, ArgValue)>) -> Result<
    (HttpMethod, Seq<char>, Seq<(Seq<char>, Seq<char>)>),
    Seq<char>,
> {
    if name == "clipboard_list"@ {
        Ok(list_call("/api/mcp/clipboard"@, args))
    } else if name == "clipboard_copy"@ {
        Ok(
            (
                HttpMethod::Post,
                "/api/mcp/clipboard/copy"@,
                seq![("content"@, str_or(arg_str(args, "content"@), seq![]))],
            ),
        )
    } else if name == "note_create"@ {
        Ok(
            (
                HttpMethod::Post,
                "/api/mcp/notes"@,
                seq![
                    ("title"@, str_or(arg_str(args, "title"@), seq![])),
                    ("content"@, str_or(arg_str(args, "content"@), seq![])),
                    ("tags"@, str_or(arg_str(args, "tags"@), seq![])),
                ],
            ),
        )
    } else if name == "note_list"@ {
        Ok(list_call("/api/mcp/notes"@, args))
    } else if name == "note_update"@ {
        match arg_str(args, "id"@) {
            Some(id) => Ok((HttpMethod::Put, "/api/mcp/notes/"@ + id, note_update_fields(args))),
            None => Err("note_update requires 'id'"@),
        }
    } else if name == "note_delete"@ {
        match arg_str(args, "id"@) {
            Some(id) => Ok((HttpMethod::Delete, "/api/mcp/notes/"@ + id, seq![])),
            None => Err("note_delete requires 'id'"@),
        }
    } else if name == "ocr_file"@ {
        Ok(
            (
                HttpMethod::Post,
                "/api/mcp/ocr/file"@,
                seq![
                    ("path"@, str_or(arg_str(args, "path"@), seq![])),
                    ("lang"@, str_or(arg_str(args, "lang"@), "eng"@)),
                ],
            ),
        )
    } else if name == "voice_transcribe"@ {
        Ok(
            (
                HttpMethod::Post,
                "/api/mcp/voice/transcribe"@,
                seq![
                    ("path"@, str_or(arg_str(args, "path"@), seq![])),
                    ("lang"@, str_or(arg_str(args, "lang"@), "auto"@)),
                ],
            ),
        )
    } else if name == "translate_text"@ {
        Ok(
            (
                HttpMethod::Post,
                "/api/mcp/translate"@,
                seq![
                    ("text"@, str_or(arg_str(args, "text"@), seq![])),
                    ("from_lang"@, str_or(arg_str(args, "from_lang"@), "en"@)),
                    ("to_lang"@, str_or(arg_str(args, "to_lang"@), "es"@)),
                ],
            ),
        )
    } else if name == "video_process"@ {
        Ok((HttpMethod::Post, "/api/mcp/video/process"@, video_fields(args)))
    } else if name == "photo_rembg"@ {
        Ok(
            (
                HttpMethod::Post,
                "/api/mcp/photo/rembg"@,
                seq![("path"@, str_or(arg_str(args, "path"@), seq![]))],
            ),
        )
    } else {
        Err("Unknown tool: "@ + name)
    }
}

/// A forwarded parameter (name, value) carries the argument of the same
/// name when that argument is given as a text; the list search goes as `q`
/// and carries the `search` argument.
pub open spec fn forwards_arg(args: Seq<(String, ArgValue)>, p: (Seq<char>, Seq<char>)) -> bool {
    &&& (p.0 != "q"@ && p.0 != "limit"@ && arg_str(args, p.0) is Some) ==> p.1 == arg_str(args, p.0)->0
    &&& p.0 == "q"@ ==> arg_str(args, "search"@) == Some(p.1)
}

proof fn lemma_forwards_concat(args: Seq<(String, ArgValue)>, a: Seq<(Seq<char>, Seq<char>)>, b: Seq<(Seq<char>, Seq<char>)>)
    requires
        forall|j: int| 0 <= j < a.len() ==> forwards_arg(args, #[trigger] a[j]),
        forall|j: int| 0 <= j < b.len() ==> forwards_arg(args, #[trigger] b[j]),
    ensures
        forall|j: int| 0 <= j < (a + b).len() ==> forwards_arg(args, #[trigger] (a + b)[j]),
{
    assert forall|j: int| 0 <= j < (a + b).len() implies forwards_arg(args, #[trigger] (a + b)[j]) by {
        if j < a.len() {
            assert((a + b)[j] == a[j]);
        } else {
            assert((a + b)[j] == b[j - a.len()]);
        }
    }
}

proof fn lemma_opt_field_forwards(args: Seq<(String, ArgValue)>, key: Seq<char>)
    requires
        key != "q"@,
    ensures
        forall|j: int| 0 <= j < opt_field(args, key).len() ==> forwards_arg(args, #[trigger] opt_field(args, key)[j]),
{
}

/// An MCP tool call forwards what it is given: each parameter of the
/// request carries the agent's argument of the same name whenever that
/// argument is a text (the list search goes as `q`, from `search`), and a
/// note update or deletion goes to the note named by its `id`.
pub proof fn lemma_calls_forward_their_arguments(name: Seq<char>, args: Seq<(String, ArgValue)>)
    ensures
        spec_plan_tool_call(name, args) is Ok ==> forall|j: int|
            0 <= j < spec_plan_tool_call(name, args)->Ok_0.2.len() ==> forwards_arg(
                args,
                #[trigger] spec_plan_tool_call(name, args)->Ok_0.2[j],
            ),
        (name == "note_update"@ || name == "note_delete"@) && spec_plan_tool_call(name, args) is Ok ==> arg_str(
            args,
            "id"@,
        ) is Some && spec_plan_tool_call(name, args)->Ok_0.1 == "/api/mcp/notes/"@ + arg_str(args, "id"@)->0,
{
    reveal_strlit("q");
    reveal_strlit("limit");
    reveal_strlit("search");
    reveal_strlit("content");
    reveal_strlit("title");
    reveal_strlit("tags");
    reveal_strlit("path");
    reveal_strlit("lang");
    reveal_strlit("text");
    reveal_strlit("from_lang");
    reveal_strlit("to_lang");
    reveal_strlit("operation");
    reveal_strlit("input_path");
    reveal_strlit("start");
    reveal_strlit("end");
    reveal_strlit("audio_format");
    reveal_strlit("compress_resolution");
    reveal_strlit("resize_resolution");
    reveal_strlit("crf");
    reveal_strlit("clipboard_list");
    reveal_strlit("clipboard_copy");
    reveal_strlit("note_create");
    reveal_strlit("note_list");
    reveal_strlit("note_update");
    reveal_strlit("note_delete");
    reveal_strlit("ocr_file");
    reveal_strlit("voice_transcribe");
    reveal_strlit("translate_text");
    reveal_strlit("video_process");
    reveal_strlit("photo_rembg");
    assert("q"@.len() == 1 && "limit"@.len() == 5 && "search"@.len() == 6);
    assert("clipboard_list"@.len() == 14 && "note_list"@.len() == 9 && "clipboard_copy"@.len() == 14);
    assert("note_create"@.len() == 11);
    assert("clipboard_list"@[10] != "clipboard_copy"@[10]);
    assert("note_update"@.len() == 11 && "note_delete"@.len() == 11 && "photo_rembg"@.len() == 11);
    assert("ocr_file"@.len() == 8 && "voice_transcribe"@.len() == 16 && "translate_text"@.len() == 14);
    assert("video_process"@.len() == 13);
    assert("note_update"@[5] == 'u' && "note_create"@[5] == 'c' && "note_delete"@[5] == 'd');
    assert("translate_text"@[0] == 't' && "clipboard_list"@[0] == 'c' && "clipboard_copy"@[0] == 'c');
    assert("photo_rembg"@[0] == 'p' && "note_update"@[0] == 'n' && "note_create"@[0] == 'n' && "note_delete"@[0] == 'n');
    if spec_plan_tool_call(name, args) is Ok {
        let params = spec_plan_tool_call(name, args)->Ok_0.2;
        if name == "clipboard_list"@ || name == "note_list"@ {
            let path = if name == "clipboard_list"@ {
                "/api/mcp/clipboard"@
            } else {
                "/api/mcp/notes"@
            };
            assert(params == list_call(path, args).2);
            let search = str_or(arg_str(args, "search"@), seq![]);
            assert("q"@ != "limit"@);
            if search.len() > 0 {
                assert(arg_str(args, "search"@) == Some(search));
            }
            assert(forall|j: int| 0 <= j < params.len() ==> forwards_arg(args, #[trigger] params[j]));
        } else if name == "note_update"@ {
            let t = match arg_str(args, "title"@) {
                Some(t) => seq![("title"@, t)],
                None => Seq::<(Seq<char>, Seq<char>)>::empty(),
            };
            let c = match arg_str(args, "content"@) {
                Some(c) => seq![("content"@, c)],
                None => Seq::<(Seq<char>, Seq<char>)>::empty(),
            };
            let g = match arg_str(args, "tags"@) {
                Some(t) => seq![("tags"@, t)],
                None => Seq::<(Seq<char>, Seq<char>)>::empty(),
            };
            assert(forall|j: int| 0 <= j < t.len() ==> forwards_arg(args, #[trigger] t[j]));
            assert(forall|j: int| 0 <= j < c.len() ==> forwards_arg(args, #[trigger] c[j]));
            assert(forall|j: int| 0 <= j < g.len() ==> forwards_arg(args, #[trigger] g[j]));
            lemma_forwards_concat(args, t, c);
            lemma_forwards_concat(args, t + c, g);
            assert(params == note_update_fields(args));
            assert(note_update_fields(args) =~= t + c + g);
        } else if name == "video_process"@ {
            let head = seq![
                ("operation"@, str_or(arg_str(args, "operation"@), seq![])),
                ("input_path"@, str_or(arg_str(args, "input_path"@), seq![])),
            ];
            let crf = match arg_int(args, "crf"@) {
                Some(n) => seq![("crf"@, crate::text::int_decimal(n as int))],
                None => Seq::<(Seq<char>, Seq<char>)>::empty(),
            };
            assert(forall|j: int| 0 <= j < head.len() ==> forwards_arg(args, #[trigger] head[j]));
            assert(forall|j: int| 0 <= j < crf.len() ==> forwards_arg(args, #[trigger] crf[j]));
            let o1 = opt_field(args, "start"@);
            let o2 = opt_field(args, "end"@);
            let o3 = opt_field(args, "audio_format"@);
            let o4 = opt_field(args, "compress_resolution"@);
            let o5 = opt_field(args, "resize_resolution"@);
            lemma_opt_field_forwards(args, "start"@);
            lemma_opt_field_forwards(args, "end"@);
            lemma_opt_field_forwards(args, "audio_format"@);
            lemma_opt_field_forwards(args, "compress_resolution"@);
            lemma_opt_field_forwards(args, "resize_resolution"@);
            lemma_forwards_concat(args, head, o1);
            lemma_forwards_concat(args, head + o1, o2);
            lemma_forwards_concat(args, head + o1 + o2, o3);
            lemma_forwards_concat(args, head + o1 + o2 + o3, o4);
            lemma_forwards_concat(args, head + o1 + o2 + o3 + o4, o5);
            lemma_forwards_concat(args, head + o1 + o2 + o3 + o4 + o5, crf);
            assert(params == head + o1 + o2 + o3 + o4 + o5 + crf);
        } else {
            assert(forall|j: int| 0 <= j < params.len() ==> forwards_arg(args, #[trigger] params[j]));
        }
    }
}

/// The first argument named `key`.
pub fn lookup_arg<'a>(args: &'a Vec<(String, ArgValue)>, key: &str) -> (r: Option<&'a ArgValue>)
    ensures
        match arg_lookup(args@, key@) {
            Some(v) => r.is_some() && *r.unwrap() == v,
            None => r.is_none(),
        },
{
    let mut i: usize = 0;
    proof {
        assert(args@.skip(0) == args@);
    }
    while i < args.len()
        invariant
            i <= args.len(),
            arg_lookup(args@, key@) == arg_lookup(args@.skip(i as int), key@),
        decreases args.len() - i,
    {
        proof {
            assert(args@.skip(i as int)[0] == args@[i as int]);
            assert(args@.skip(i as int).drop_first() == args@.skip(i + 1));
        }
        if str_eq(args[i].0.as_str(), key) {
            return Some(&args[i].1);
        }
        i = i + 1;
    }
    None
}

/// The argument `key` when it is a string.
pub fn get_str_arg(args: &Vec<(String, ArgValue)>, key: &str) -> (r: Option<String>)
    ensures
        match arg_str(args@, key@) {
            Some(s) => r.is_some() && r.unwrap()@ == s,
            None => r.is_none(),
        },
{
    match lookup_arg(args, key) {
        Some(ArgValue::Str(s)) => Some(s.clone()),
        _ => None,
    }
}

/// The argument `key` when it is an integer.
pub fn get_int_arg(args: &Vec<(String, ArgValue)>, key: &str) -> (r: Option<i64>)
    ensures
        r == arg_int(args@, key@),
{
    match lookup_arg(args, key) {
        Some(ArgValue::Int(n)) => Some(*n),
        _ => None,
    }
}

/// The argument `key` as a string, or `default`.
pub fn str_arg_or(args: &Vec<(String, ArgValue)>, key: &str, default: &str) -> (r: String)
    ensures
        r@ == str_or(arg_str(args@, key@), default@),
{
    match get_str_arg(args, key) {
        Some(s) => s,
        None => lit(default),
    }
}

fn field(k: &str, v: String) -> (r: (String, String))
    ensures
        r.0@ == k@,
        r.1 == v,
{
    (lit(k), v)
}

fn make_call(method: HttpMethod, path: String, params: Vec<(String, String)>) -> (r: HttpCall)
    ensures
        r.method == method,
        r.path == path,
        r.params == params,
{
    HttpCall { method, path, params }
}

fn exec_list_call(path: &str, args: &Vec<(String, ArgValue)>) -> (r: HttpCall)
    ensures
        r.view() == list_call(path@, args@),
{
    let empty = String::new();
    let search = str_arg_or(args, "search", empty.as_str());
    let limit_n: i64 = match get_int_arg(args, "limit") {
        Some(n) => n,
        None => 50,
    };
    let limit = i64_to_string(limit_n);
    let mut params: Vec<(String, String)> = Vec::new();
    if search.as_str().unicode_len() > 0 {
        params.push(field("q", search));
    }
    params.push(field("limit", limit));
    let r = make_call(HttpMethod::Get, lit(path), params);
    proof {
        assert(pair_views(r.params@) =~= list_call(path@, args@).2);
    }
    r
}

fn push_opt_field(params: &mut Vec<(String, String)>, args: &Vec<(String, ArgValue)>, key: &str)
    ensures
        pair_views(final(params)@) == pair_views(old(params)@) + opt_field(args@, key@),
{
    match get_str_arg(args, key) {
        Some(v) => {
            params.push(field(key, v));
            proof {
                assert(pair_views(params@) =~= pair_views(old(params)@) + opt_field(args@, key@));
            }
        },
        None => {
            proof {
                assert(pair_views(params@) =~= pair_views(old(params)@) + opt_field(args@, key@));
            }
        },
    }
}

/// Maps an MCP tool call to the local API request that serves it (see
/// `spec_plan_tool_call`): clipboard and note listing and editing, OCR,
/// transcription, translation, video processing and background removal.
pub fn plan_tool_call(name: &str, args: &Vec<(String, ArgValue)>) -> (r: Result<HttpCall, String>)
    ensures
        match spec_plan_tool_call(name@, args@) {
            Ok(c) => r is Ok && r->Ok_0.view() == c,
            Err(e) => r is Err && r->Err_0@ == e,
        },
{
    let empty = String::new();
    let e = empty.as_str();
    if str_eq(name, "clipboard_list") {
        Ok(exec_list_call("/api/mcp/clipboard", args))
    } else if str_eq(name, "clipboard_copy") {
        let mut p: Vec<(String, String)> = Vec::new();
        p.push(field("content", str_arg_or(args, "content", e)));
        let r = make_call(HttpMethod::Post, lit("/api/mcp/clipboard/copy"), p);
        proof {
            assert(pair_views(r.params@) =~= spec_plan_tool_call(name@, args@)->Ok_0.2);
        }
        Ok(r)
    } else if str_eq(name, "note_create") {
        let mut p: Vec<(String, String)> = Vec::new();
        p.push(field("title", str_arg_or(args, "title", e)));
        p.push(field("content", str_arg_or(args, "content", e)));
        p.push(field("tags", str_arg_or(args, "tags", e)));
        let r = make_call(HttpMethod::Post, lit("/api/mcp/notes"), p);
        proof {
            assert(pair_views(r.params@) =~= spec_plan_tool_call(name@, args@)->Ok_0.2);
        }
        Ok(r)
    } else if str_eq(name, "note_list") {
        Ok(exec_list_call("/api/mcp/notes", args))
    } else if str_eq(name, "note_update") {
        match get_str_arg(args, "id") {
            Some(id) => {
                let mut path = lit("/api/mcp/notes/");
                path.append(id.as_str());
                let mut p: Vec<(String, String)> = Vec::new();
                proof {
                    assert(pair_views(p@) =~= Seq::<(Seq<char>, Seq<char>)>::empty());
                }
                push_opt_field(&mut p, args, "title");
                push_opt_field(&mut p, args, "content");
                push_opt_field(&mut p, args, "tags");
                let r = make_call(HttpMethod::Put, path, p);
                proof {
                    assert(pair_views(r.params@) =~= note_update_fields(args@));
                }
                Ok(r)
            },
            None => Err(lit("note_update requires 'id'")),
        }
    } else if str_eq(name, "note_delete") {
        match get_str_arg(args, "id") {
            Some(id) => {
                let mut path = lit("/api/mcp/notes/");
                path.append(id.as_str());
                let p: Vec<(String, String)> = Vec::new();
                let r = make_call(HttpMethod::Delete, path, p);
                proof {
                    assert(pair_views(r.params@) =~= Seq::<(Seq<char>, Seq<char>)>::empty());
                }
                Ok(r)
            },
            None => Err(lit("note_delete requires 'id'")),
        }
    } else if str_eq(name, "ocr_file") {
        let mut p: Vec<(String, String)> = Vec::new();
        p.push(field("path", str_arg_or(args, "path", e)));
        p.push(field("lang", str_arg_or(args, "lang", "eng")));
        let r = make_call(HttpMethod::Post, lit("/api/mcp/ocr/file"), p);
        proof {
            assert(pair_views(r.params@) =~= spec_plan_tool_call(name@, args@)->Ok_0.2);
        }
        Ok(r)
    } else if str_eq(name, "voice_transcribe") {
        let mut p: Vec<(String, String)> = Vec::new();
        p.push(field("path", str_arg_or(args, "path", e)));
        p.push(field("lang", str_arg_or(args, "lang", "auto")));
        let r = make_call(HttpMethod::Post, lit("/api/mcp/voice/transcribe"), p);
        proof {
            assert(pair_views(r.params@) =~= spec_plan_tool_call(name@, args@)->Ok_0.2);
        }
        Ok(r)
    } else if str_eq(name, "translate_text") {
        let mut p: Vec<(String, String)> = Vec::new();
        p.push(field("text", str_arg_or(args, "text", e)));
        p.push(field("from_lang", str_arg_or(args, "from_lang", "en")));
        p.push(field("to_lang", str_arg_or(args, "to_lang", "es")));
        let r = make_call(HttpMethod::Post, lit("/api/mcp/translate"), p);
        proof {
            assert(pair_views(r.params@) =~= spec_plan_tool_call(name@, args@)->Ok_0.2);
        }
        Ok(r)
    } else if str_eq(name, "video_process") {
        let mut p: Vec<(String, String)> = Vec::new();
        p.push(field("operation", str_arg_or(args, "operation", e)));
        p.push(field("input_path", str_arg_or(args, "input_path", e)));
        proof {
            assert(pair_views(p@) =~= seq![
                ("operation"@, str_or(arg_str(args@, "operation"@), seq![])),
                ("input_path"@, str_or(arg_str(args@, "input_path"@), seq![])),
            ]);
        }
        push_opt_field(&mut p, args, "start");
        push_opt_field(&mut p, args, "end");
        push_opt_field(&mut p, args, "audio_format");
        push_opt_field(&mut p, args, "compress_resolution");
        push_opt_field(&mut p, args, "resize_resolution");
        let ghost before = pair_views(p@);
        match get_int_arg(args, "crf") {
            Some(n) => {
                p.push(field("crf", i64_to_string(n)));
                proof {
                    assert(pair_views(p@) =~= before.push(("crf"@, int_decimal(n as int))));
                }
            },
            None => {},
        }
        let r = make_call(HttpMethod::Post, lit("/api/mcp/video/process"), p);
        proof {
            assert(pair_views(r.params@) =~= video_fields(args@));
        }
        Ok(r)
    } else if str_eq(name, "photo_rembg") {
        let mut p: Vec<(String, String)> = Vec::new();
        p.push(field("path", str_arg_or(args, "path", e)));
        let r = make_call(HttpMethod::Post, lit("/api/mcp/photo/rembg"), p);
        proof {
            assert(pair_views(r.params@) =~= spec_plan_tool_call(name@, args@)->Ok_0.2);
        }
        Ok(r)
    } else {
        let mut m = lit("Unknown tool: ");
        m.append(name);
        Err(m)
    }
}


// ── JSON-RPC ────────────────────────────────────────────────────────────────

/// MCP protocol version the server speaks.
pub const PROTOCOL_VERSION: &'static str = "2024-11-05";
/// Name the server reports.
pub const SERVER_NAME: &'static str = "eleutheria-telos";
/// JSON-RPC error code for an unknown method.
pub const METHOD_NOT_FOUND: i64 = -32601;
/// JSON-RPC error code for a tool that failed.
pub const INTERNAL_ERROR: i64 = -32603;

/// What a JSON-RPC message is answered with.
pub enum RpcReply {
    /// Protocol version, capabilities and server info.
    Initialize,
    /// An empty result.
    Pong,
    /// The tool manifest.
    ListTools,
    /// Run this tool and answer with its result or error.
    CallTool { name: String },
    /// An error with this code and message.
    Error { code: i64, message: String },
}

/// How a message with `method` is answered; `tool_name` is the `name` in
/// the `params` of a `tools/call`, when there is one. Notifications, and
/// calls without a tool name, get no answer.
pub open spec fn spec_rpc_reply(method: Seq<char>, tool_name: Option<Seq<char>>) -> Option<(int, Seq<char>)> {
    if method == "initialized"@ || method == "notifications/initialized"@ {
        None
    } else if method == "initialize"@ {
        Some((0, seq![]))
    } else if method == "ping"@ {
        Some((1, seq![]))
    } else if method == "tools/list"@ {
        Some((2, seq![]))
    } else if method == "tools/call"@ {
        match tool_name {
            Some(n) => Some((3, n)),
            None => None,
        }
    } else {
        Some((4, "Method not found: "@ + method))
    }
}

/// The shape of a reply: its kind and the text it carries.
pub open spec fn reply_view(r: RpcReply) -> (int, Seq<char>) {
    match r {
        RpcReply::Initialize => (0, seq![]),
        RpcReply::Pong => (1, seq![]),
        RpcReply::ListTools => (2, seq![]),
        RpcReply::CallTool { name } => (3, name@),
        RpcReply::Error { code, message } => (4, message@),
    }
}

/// Decides how a JSON-RPC message is answered (see `spec_rpc_reply`); an
/// unknown method is answered with error `METHOD_NOT_FOUND`.
pub fn rpc_reply(method: &str, tool_name: Option<&str>) -> (r: Option<RpcReply>)
    ensures
        match spec_rpc_reply(method@, match tool_name { Some(n) => Some(n@), None => None }) {
            Some(v) => r.is_some() && reply_view(r.unwrap()) == v && (r.unwrap() matches RpcReply::Error {
                code,
                ..
            } ==> code == METHOD_NOT_FOUND),
            None => r.is_none(),
        },
{
    if str_eq(method, "initialized") || str_eq(method, "notifications/initialized") {
        None
    } else if str_eq(method, "initialize") {
        Some(RpcReply::Initialize)
    } else if str_eq(method, "ping") {
        Some(RpcReply::Pong)
    } else if str_eq(method, "tools/list") {
        Some(RpcReply::ListTools)
    } else if str_eq(method, "tools/call") {
        match tool_name {
            Some(n) => Some(RpcReply::CallTool { name: lit(n) }),
            None => None,
        }
    } else {
        let mut m = lit("Method not found: ");
        m.append(method);
        Some(RpcReply::Error { code: METHOD_NOT_FOUND, message: m })
    }
}

/// The error answering a tool that failed: `INTERNAL_ERROR` and
/// "Tool error: " followed by the failure.
pub fn tool_error(e: &str) -> (r: (i64, String))
    ensures
        r.0 == INTERNAL_ERROR,
        r.1@ == "Tool error: "@ + e@,
{
    let mut m = lit("Tool error: ");
    m.append(e);
    (INTERNAL_ERROR, m)
}

// ── Comma-separated tags ────────────────────────────────────────────────────

/// The pieces of `s` between commas (`str::split(',')`): one more than the
/// number of commas, the empty text giving one empty piece.
pub open spec fn split_commas(s: Seq<char>) -> Seq<Seq<char>>
    decreases s.len(),
{
    if s.len() == 0 {
        seq![seq![]]
    } else {
        let prev = split_commas(s.drop_last());
        if s.last() == ',' {
            prev.push(seq![])
        } else {
            prev.update(prev.len() - 1, prev.last().push(s.last()))
        }
    }
}

/// Tags given as "a, b,c": each piece between commas, trimmed.
pub open spec fn spec_csv_tags(s: Seq<char>) -> Seq<Seq<char>> {
    split_commas(s).map_values(|p: Seq<char>| spec_trim(p))
}

/// Splits comma-separated tags and trims each.
pub fn csv_tags(s: &str) -> (r: Vec<String>)
    ensures
        views(r@) == spec_csv_tags(s@),
{
    let cs = chars_of(s);
    let mut pieces: Vec<Vec<char>> = Vec::new();
    pieces.push(Vec::new());
    let mut i: usize = 0;
    proof {
        assert(cs@.take(0) == Seq::<char>::empty());
        assert(crate::notes::cviews(pieces@) =~= split_commas(cs@.take(0)));
    }
    while i < cs.len()
        invariant
            i <= cs.len(),
            cs@ == s@,
            pieces@.len() >= 1,
            crate::notes::cviews(pieces@) == split_commas(cs@.take(i as int)),
        decreases cs.len() - i,
    {
        let ghost prev = crate::notes::cviews(pieces@);
        proof {
            assert(cs@.take(i as int + 1).drop_last() == cs@.take(i as int));
            assert(cs@.take(i as int + 1).last() == cs@[i as int]);
        }
        if cs[i] == ',' {
            pieces.push(Vec::new());
            proof {
                assert(crate::notes::cviews(pieces@) =~= prev.push(seq![]));
            }
        } else {
            let last = pieces.len() - 1;
            let mut cur = pieces.pop().unwrap();
            cur.push(cs[i]);
            pieces.push(cur);
            proof {
                assert(crate::notes::cviews(pieces@) =~= prev.update(last as int, prev[last as int].push(cs@[i as int])));
            }
        }
        i = i + 1;
    }
    proof {
        assert(cs@.take(cs.len() as int) == cs@);
    }
    let mut out: Vec<String> = Vec::new();
    let mut k: usize = 0;
    while k < pieces.len()
        invariant
            k <= pieces.len(),
            crate::notes::cviews(pieces@) == split_commas(s@),
            views(out@) == split_commas(s@).take(k as int).map_values(|p: Seq<char>| spec_trim(p)),
        decreases pieces.len() - k,
    {
        let t = trim_chars(&pieces[k]);
        let ghost before = out@;
        out.push(string_from_chars(&t));
        proof {
            assert(crate::notes::cviews(pieces@)[k as int] == pieces@[k as int]@);
            assert(views(out@) =~= views(before).push(spec_trim(pieces@[k as int]@)));
            assert(split_commas(s@).take(k + 1) =~= split_commas(s@).take(k as int).push(split_commas(s@)[k as int]));
        }
        k = k + 1;
    }
    proof {
        assert(split_commas(s@).take(pieces.len() as int) =~= split_commas(s@));
    }
    out
}

/// The tags column for comma-separated tags: "[]" when none are given,
/// else the JSON array of the trimmed pieces.
pub fn tags_json_from_csv(s: &str) -> (r: String)
    ensures
        r@ == (if s@.len() == 0 {
            "[]"@
        } else {
            crate::json::spec_json_string_array(spec_csv_tags(s@))
        }),
{
    if s.unicode_len() == 0 {
        lit("[]")
    } else {
        let tags = csv_tags(s);
        crate::json::json_string_array(&tags)
    }
}

/// The `SET` columns of an MCP note update: the update time, then the
/// title, the content and its search copy, and the tags when given. `None`
/// when nothing but the update time would change.
pub fn mcp_note_update_columns(title: bool, content: bool, tags: bool) -> (r: Option<Vec<String>>)
    ensures
        (title || content || tags) ==> r.is_some() && views(r.unwrap()@)
            == crate::notes::spec_update_columns(title, content, tags, false),
        !(title || content || tags) ==> r.is_none(),
{
    if !(title || content || tags) {
        None
    } else {
        Some(crate::notes::note_update_columns(title, content, tags, false))
    }
}


// ── Tool manifest ───────────────────────────────────────────────────────────

/// Type of a tool parameter.
#[derive(PartialEq, Eq, Structural, Clone, Copy, Debug)]
pub enum ParamKind {
    Str,
    Integer,
}

/// One parameter of a tool in the manifest.
pub struct ToolParam {
    pub name: String,
    pub kind: ParamKind,
    pub description: Option<String>,
    /// Allowed values, when the parameter is an enumeration.
    pub choices: Vec<String>,
}

/// One tool in the manifest.
pub struct ToolSpec {
    pub name: String,
    pub description: String,
    /// Names of the parameters that must be given.
    pub required: Vec<String>,
    pub params: Vec<ToolParam>,
}

/// The names of the tools the server offers, in manifest order.
pub open spec fn tool_names() -> Seq<Seq<char>> {
    seq!["clipboard_list"@, "clipboard_copy"@, "note_create"@, "note_list"@, "note_update"@, "note_delete"@, "ocr_file"@, "voice_transcribe"@, "translate_text"@, "video_process"@, "photo_rembg"@]
}

/// The required parameters of the `k`-th tool.
pub open spec fn tool_required(k: int) -> Seq<Seq<char>> {
    if k == 0 {
        seq![]
    } else if k == 1 {
        seq!["content"@]
    } else if k == 2 {
        seq![]
    } else if k == 3 {
        seq![]
    } else if k == 4 {
        seq!["id"@]
    } else if k == 5 {
        seq!["id"@]
    } else if k == 6 {
        seq!["path"@]
    } else if k == 7 {
        seq!["path"@]
    } else if k == 8 {
        seq!["text"@, "from_lang"@, "to_lang"@]
    } else if k == 9 {
        seq!["operation"@, "input_path"@]
    } else if k == 10 {
        seq!["path"@]
    } else {
        seq![]
    }
}

/// The description of the `k`-th tool.
pub open spec fn tool_description(k: int) -> Seq<char> {
    if k == 0 {
        "List recent clipboard history. Optionally filter by search query."@
    } else if k == 1 {
        "Add text to the system clipboard and save to clipboard history."@
    } else if k == 2 {
        "Create a new note."@
    } else if k == 3 {
        "List notes. Optionally filter by full-text search query."@
    } else if k == 4 {
        "Update a note by ID. Only provided fields are updated."@
    } else if k == 5 {
        "Delete a note by ID."@
    } else if k == 6 {
        "Extract text from an image file using OCR (Tesseract). Supports PNG, JPG, TIFF."@
    } else if k == 7 {
        "Transcribe an audio file to text using Whisper (offline AI)."@
    } else if k == 8 {
        "Translate text between languages using the offline translation engine."@
    } else if k == 9 {
        "Process a video file: trim, extract audio, compress, or resize."@
    } else if k == 10 {
        "Remove the background from an image using AI (rembg, offline). Saves result as PNG to ~/Pictures/Eleutheria/."@
    } else {
        seq![]
    }
}

/// The parameters of the `k`-th tool: name, type, description and allowed
/// values, in order.
pub open spec fn tool_params(k: int) -> Seq<(Seq<char>, ParamKind, Option<Seq<char>>, Seq<Seq<char>>)> {
    if k == 0 {
        seq![
            ("search"@, ParamKind::Str, Some("Filter by content (optional)"@), seq![]),
            ("limit"@, ParamKind::Integer, Some("Max results (default 50)"@), seq![]),
        ]
    } else if k == 1 {
        seq![
            ("content"@, ParamKind::Str, Some("Text to copy to clipboard"@), seq![]),
        ]
    } else if k == 2 {
        seq![
            ("title"@, ParamKind::Str, None, seq![]),
            ("content"@, ParamKind::Str, None, seq![]),
            ("tags"@, ParamKind::Str, Some("Comma-separated tags"@), seq![]),
        ]
    } else if k == 3 {
        seq![
            ("search"@, ParamKind::Str, Some("Full-text search query (FTS5)"@), seq![]),
            ("limit"@, ParamKind::Integer, Some("Max results (default 50)"@), seq![]),
        ]
    } else if k == 4 {
        seq![
            ("id"@, ParamKind::Str, Some("Note UUID"@), seq![]),
            ("title"@, ParamKind::Str, None, seq![]),
            ("content"@, ParamKind::Str, None, seq![]),
            ("tags"@, ParamKind::Str, Some("Comma-separated tags"@), seq![]),
        ]
    } else if k == 5 {
        seq![
            ("id"@, ParamKind::Str, Some("Note UUID"@), seq![]),
        ]
    } else if k == 6 {
        seq![
            ("path"@, ParamKind::Str, Some("Absolute path to the image file"@), seq![]),
            ("lang"@, ParamKind::Str, Some("Tesseract language code: eng (default) or spa"@), seq![]),
        ]
    } else if k == 7 {
        seq![
            ("path"@, ParamKind::Str, Some("Absolute path to the audio file (wav, mp3, ogg, flac, m4a)"@), seq![]),
            ("lang"@, ParamKind::Str, Some("Language code (e.g. en, es) or 'auto' for auto-detect (default)"@), seq![]),
        ]
    } else if k == 8 {
        seq![
            ("text"@, ParamKind::Str, None, seq![]),
            ("from_lang"@, ParamKind::Str, Some("Source language code: en, es, fr, de, pt"@), seq![]),
            ("to_lang"@, ParamKind::Str, Some("Target language code: en, es, fr, de, pt"@), seq![]),
        ]
    } else if k == 9 {
        seq![
            ("operation"@, ParamKind::Str, None, seq!["trim"@, "extract_audio"@, "compress"@, "resize"@]),
            ("input_path"@, ParamKind::Str, Some("Absolute path to the input video file"@), seq![]),
            ("start"@, ParamKind::Str, Some("Trim start time (HH:MM:SS)"@), seq![]),
            ("end"@, ParamKind::Str, Some("Trim end time (HH:MM:SS)"@), seq![]),
            ("audio_format"@, ParamKind::Str, None, seq!["mp3"@, "wav"@, "flac"@]),
            ("crf"@, ParamKind::Integer, Some("CRF quality 18–40 (default 28)"@), seq![]),
            ("compress_resolution"@, ParamKind::Str, None, seq!["original"@, "1080"@, "720"@, "480"@]),
            ("resize_resolution"@, ParamKind::Str, None, seq!["1080"@, "720"@, "480"@, "360"@]),
        ]
    } else if k == 10 {
        seq![
            ("path"@, ParamKind::Str, Some("Absolute path to the image file (PNG, JPG, WEBP)"@), seq![]),
        ]
    } else {
        seq![]
    }
}

/// A parameter as plain values.
pub open spec fn param_view(p: ToolParam) -> (Seq<char>, ParamKind, Option<Seq<char>>, Seq<Seq<char>>) {
    (p.name@, p.kind, crate::json::opt_view(p.description), views(p.choices@))
}

/// The parameters of a tool as plain values.
pub open spec fn params_view(ps: Seq<ToolParam>) -> Seq<(Seq<char>, ParamKind, Option<Seq<char>>, Seq<Seq<char>>)> {
    ps.map_values(|p: ToolParam| param_view(p))
}

/// The tool manifest that `tools/list` returns.
pub fn mcp_tools() -> (v: Vec<ToolSpec>)
    ensures
        v@.len() == tool_names().len(),
        forall|k: int| 0 <= k < v@.len() ==> #[trigger] v@[k].name@ == tool_names()[k],
        forall|k: int| 0 <= k < v@.len() ==> views(#[trigger] v@[k].required@) == tool_required(k),
        forall|k: int| 0 <= k < v@.len() ==> #[trigger] v@[k].description@ == tool_description(k),
        forall|k: int| 0 <= k < v@.len() ==> params_view(#[trigger] v@[k].params@) == tool_params(k),
{
    let mut v: Vec<ToolSpec> = Vec::new();
    // clipboard_list
    let mut ps: Vec<ToolParam> = Vec::new();
    let ch: Vec<String> = Vec::new();
    ps.push(ToolParam { name: lit("search"), kind: ParamKind::Str, description: Some(lit("Filter by content (optional)")), choices: ch });
    let ch: Vec<String> = Vec::new();
    ps.push(ToolParam { name: lit("limit"), kind: ParamKind::Integer, description: Some(lit("Max results (default 50)")), choices: ch });
    let mut req: Vec<String> = Vec::new();
    v.push(ToolSpec { name: lit("clipboard_list"), description: lit("List recent clipboard history. Optionally filter by search query."), required: req, params: ps });
    proof {
        assert(views(v@[0].required@) =~= tool_required(0));
        assert(params_view(v@[0].params@) =~~= tool_params(0));
    }
    // clipboard_copy
    let mut ps: Vec<ToolParam> = Vec::new();
    let ch: Vec<String> = Vec::new();
    ps.push(ToolParam { name: lit("content"), kind: ParamKind::Str, description: Some(lit("Text to copy to clipboard")), choices: ch });
    let mut req: Vec<String> = Vec::new();
    req.push(lit("content"));
    v.push(ToolSpec { name: lit("clipboard_copy"), description: lit("Add text to the system clipboard and save to clipboard history."), required: req, params: ps });
    proof {
        assert(views(v@[1].required@) =~= tool_required(1));
        assert(params_view(v@[1].params@) =~~= tool_params(1));
    }
    // note_create
    let mut ps: Vec<ToolParam> = Vec::new();
    let ch: Vec<String> = Vec::new();
    ps.push(ToolParam { name: lit("title"), kind: ParamKind::Str, description: None, choices: ch });
    let ch: Vec<String> = Vec::new();
    ps.push(ToolParam { name: lit("content"), kind: ParamKind::Str, description: None, choices: ch });
    let ch: Vec<String> = Vec::new();
    ps.push(ToolParam { name: lit("tags"), kind: ParamKind::Str, description: Some(lit("Comma-separated tags")), choices: ch });
    let mut req: Vec<String> = Vec::new();
    v.push(ToolSpec { name: lit("note_create"), description: lit("Create a new note."), required: req, params: ps });
    proof {
        assert(views(v@[2].required@) =~= tool_required(2));
        assert(params_view(v@[2].params@) =~~= tool_params(2));
    }
    // note_list
    let mut ps: Vec<ToolParam> = Vec::new();
    let ch: Vec<String> = Vec::new();
    ps.push(ToolParam { name: lit("search"), kind: ParamKind::Str, description: Some(lit("Full-text search query (FTS5)")), choices: ch });
    let ch: Vec<String> = Vec::new();
    ps.push(ToolParam { name: lit("limit"), kind: ParamKind::Integer, description: Some(lit("Max results (default 50)")), choices: ch });
    let mut req: Vec<String> = Vec::new();
    v.push(ToolSpec { name: lit("note_list"), description: lit("List notes. Optionally filter by full-text search query."), required: req, params: ps });
    proof {
        assert(views(v@[3].required@) =~= tool_required(3));
        assert(params_view(v@[3].params@) =~~= tool_params(3));
    }
    // note_update
    let mut ps: Vec<ToolParam> = Vec::new();
    let ch: Vec<String> = Vec::new();
    ps.push(ToolParam { name: lit("id"), kind: ParamKind::Str, description: Some(lit("Note UUID")), choices: ch });
    let ch: Vec<String> = Vec::new();
    ps.push(ToolParam { name: lit("title"), kind: ParamKind::Str, description: None, choices: ch });
    let ch: Vec<String> = Vec::new();
    ps.push(ToolParam { name: lit("content"), kind: ParamKind::Str, description: None, choices: ch });
    let ch: Vec<String> = Vec::new();
    ps.push(ToolParam { name: lit("tags"), kind: ParamKind::Str, description: Some(lit("Comma-separated tags")), choices: ch });
    let mut req: Vec<String> = Vec::new();
    req.push(lit("id"));
    v.push(ToolSpec { name: lit("note_update"), description: lit("Update a note by ID. Only provided fields are updated."), required: req, params: ps });
    proof {
        assert(views(v@[4].required@) =~= tool_required(4));
        assert(params_view(v@[4].params@) =~~= tool_params(4));
    }
    // note_delete
    let mut ps: Vec<ToolParam> = Vec::new();
    let ch: Vec<String> = Vec::new();
    ps.push(ToolParam { name: lit("id"), kind: ParamKind::Str, description: Some(lit("Note UUID")), choices: ch });
    let mut req: Vec<String> = Vec::new();
    req.push(lit("id"));
    v.push(ToolSpec { name: lit("note_delete"), description: lit("Delete a note by ID."), required: req, params: ps });
    proof {
        assert(views(v@[5].required@) =~= tool_required(5));
        assert(params_view(v@[5].params@) =~~= tool_params(5));
    }
    // ocr_file
    let mut ps: Vec<ToolParam> = Vec::new();
    let ch: Vec<String> = Vec::new();
    ps.push(ToolParam { name: lit("path"), kind: ParamKind::Str, description: Some(lit("Absolute path to the image file")), choices: ch });
    let ch: Vec<String> = Vec::new();
    ps.push(ToolParam { name: lit("lang"), kind: ParamKind::Str, description: Some(lit("Tesseract language code: eng (default) or spa")), choices: ch });
    let mut req: Vec<String> = Vec::new();
    req.push(lit("path"));
    v.push(ToolSpec { name: lit("ocr_file"), description: lit("Extract text from an image file using OCR (Tesseract). Supports PNG, JPG, TIFF."), required: req, params: ps });
    proof {
        assert(views(v@[6].required@) =~= tool_required(6));
        assert(params_view(v@[6].params@) =~~= tool_params(6));
    }
    // voice_transcribe
    let mut ps: Vec<ToolParam> = Vec::new();
    let ch: Vec<String> = Vec::new();
    ps.push(ToolParam { name: lit("path"), kind: ParamKind::Str, description: Some(lit("Absolute path to the audio file (wav, mp3, ogg, flac, m4a)")), choices: ch });
    let ch: Vec<String> = Vec::new();
    ps.push(ToolParam { name: lit("lang"), kind: ParamKind::Str, description: Some(lit("Language code (e.g. en, es) or 'auto' for auto-detect (default)")), choices: ch });
    let mut req: Vec<String> = Vec::new();
    req.push(lit("path"));
    v.push(ToolSpec { name: lit("voice_transcribe"), description: lit("Transcribe an audio file to text using Whisper (offline AI)."), required: req, params: ps });
    proof {
        assert(views(v@[7].required@) =~= tool_required(7));
        assert(params_view(v@[7].params@) =~~= tool_params(7));
    }
    // translate_text
    let mut ps: Vec<ToolParam> = Vec::new();
    let ch: Vec<String> = Vec::new();
    ps.push(ToolParam { name: lit("text"), kind: ParamKind::Str, description: None, choices: ch });
    let ch: Vec<String> = Vec::new();
    ps.push(ToolParam { name: lit("from_lang"), kind: ParamKind::Str, description: Some(lit("Source language code: en, es, fr, de, pt")), choices: ch });
    let ch: Vec<String> = Vec::new();
    ps.push(ToolParam { name: lit("to_lang"), kind: ParamKind::Str, description: Some(lit("Target language code: en, es, fr, de, pt")), choices: ch });
    let mut req: Vec<String> = Vec::new();
    req.push(lit("text"));
    req.push(lit("from_lang"));
    req.push(lit("to_lang"));
    v.push(ToolSpec { name: lit("translate_text"), description: lit("Translate text between languages using the offline translation engine."), required: req, params: ps });
    proof {
        assert(views(v@[8].required@) =~= tool_required(8));
        assert(params_view(v@[8].params@) =~~= tool_params(8));
    }
    // video_process
    let mut ps: Vec<ToolParam> = Vec::new();
    let mut ch: Vec<String> = Vec::new();
    ch.push(lit("trim"));
    ch.push(lit("extract_audio"));
    ch.push(lit("compress"));
    ch.push(lit("resize"));
    ps.push(ToolParam { name: lit("operation"), kind: ParamKind::Str, description: None, choices: ch });
    let ch: Vec<String> = Vec::new();
    ps.push(ToolParam { name: lit("input_path"), kind: ParamKind::Str, description: Some(lit("Absolute path to the input video file")), choices: ch });
    let ch: Vec<String> = Vec::new();
    ps.push(ToolParam { name: lit("start"), kind: ParamKind::Str, description: Some(lit("Trim start time (HH:MM:SS)")), choices: ch });
    let ch: Vec<String> = Vec::new();
    ps.push(ToolParam { name: lit("end"), kind: ParamKind::Str, description: Some(lit("Trim end time (HH:MM:SS)")), choices: ch });
    let mut ch: Vec<String> = Vec::new();
    ch.push(lit("mp3"));
    ch.push(lit("wav"));
    ch.push(lit("flac"));
    ps.push(ToolParam { name: lit("audio_format"), kind: ParamKind::Str, description: None, choices: ch });
    let ch: Vec<String> = Vec::new();
    ps.push(ToolParam { name: lit("crf"), kind: ParamKind::Integer, description: Some(lit("CRF quality 18–40 (default 28)")), choices: ch });
    let mut ch: Vec<String> = Vec::new();
    ch.push(lit("original"));
    ch.push(lit("1080"));
    ch.push(lit("720"));
    ch.push(lit("480"));
    ps.push(ToolParam { name: lit("compress_resolution"), kind: ParamKind::Str, description: None, choices: ch });
    let mut ch: Vec<String> = Vec::new();
    ch.push(lit("1080"));
    ch.push(lit("720"));
    ch.push(lit("480"));
    ch.push(lit("360"));
    ps.push(ToolParam { name: lit("resize_resolution"), kind: ParamKind::Str, description: None, choices: ch });
    let mut req: Vec<String> = Vec::new();
    req.push(lit("operation"));
    req.push(lit("input_path"));
    v.push(ToolSpec { name: lit("video_process"), description: lit("Process a video file: trim, extract audio, compress, or resize."), required: req, params: ps });
    proof {
        assert(views(v@[9].required@) =~= tool_required(9));
        assert(params_view(v@[9].params@) =~~= tool_params(9));
    }
    // photo_rembg
    let mut ps: Vec<ToolParam> = Vec::new();
    let ch: Vec<String> = Vec::new();
    ps.push(ToolParam { name: lit("path"), kind: ParamKind::Str, description: Some(lit("Absolute path to the image file (PNG, JPG, WEBP)")), choices: ch });
    let mut req: Vec<String> = Vec::new();
    req.push(lit("path"));
    v.push(ToolSpec { name: lit("photo_rembg"), description: lit("Remove the background from an image using AI (rembg, offline). Saves result as PNG to ~/Pictures/Eleutheria/."), required: req, params: ps });
    proof {
        assert(views(v@[10].required@) =~= tool_required(10));
        assert(params_view(v@[10].params@) =~~= tool_params(10));
    }
    v
}

/// Every tool of the manifest is served: called with its required
/// parameters given as strings, it becomes a request to the local API.
pub proof fn lemma_listed_tools_are_served(k: int, args: Seq<(String, ArgValue)>)
    requires
        0 <= k < tool_names().len(),
        forall|j: int| 0 <= j < tool_required(k).len() ==> arg_str(args, #[trigger] tool_required(k)[j]) is Some,
    ensures
        spec_plan_tool_call(tool_names()[k], args) is Ok,
{
    reveal_strlit("clipboard_list");
    assert("clipboard_list"@.len() == 14);
    assert("clipboard_list"@[0] == 'c' && "clipboard_list"@[13] == 't');
    reveal_strlit("clipboard_copy");
    assert("clipboard_copy"@.len() == 14);
    assert("clipboard_copy"@[0] == 'c' && "clipboard_copy"@[13] == 'y');
    reveal_strlit("note_create");
    assert("note_create"@.len() == 11);
    assert("note_create"@[0] == 'n' && "note_create"@[10] == 'e');
    reveal_strlit("note_list");
    assert("note_list"@.len() == 9);
    assert("note_list"@[0] == 'n' && "note_list"@[8] == 't');
    reveal_strlit("note_update");
    assert("note_update"@.len() == 11);
    assert("note_update"@[0] == 'n' && "note_update"@[10] == 'e');
    reveal_strlit("note_delete");
    assert("note_delete"@.len() == 11);
    assert("note_delete"@[0] == 'n' && "note_delete"@[10] == 'e');
    reveal_strlit("ocr_file");
    assert("ocr_file"@.len() == 8);
    assert("ocr_file"@[0] == 'o' && "ocr_file"@[7] == 'e');
    reveal_strlit("voice_transcribe");
    assert("voice_transcribe"@.len() == 16);
    assert("voice_transcribe"@[0] == 'v' && "voice_transcribe"@[15] == 'e');
    reveal_strlit("translate_text");
    assert("translate_text"@.len() == 14);
    assert("translate_text"@[0] == 't' && "translate_text"@[13] == 't');
    reveal_strlit("video_process");
    assert("video_process"@.len() == 13);
    assert("video_process"@[0] == 'v' && "video_process"@[12] == 's');
    reveal_strlit("photo_rembg");
    assert("photo_rembg"@.len() == 11);
    assert("photo_rembg"@[0] == 'p' && "photo_rembg"@[10] == 'g');
    if k == 0 {
        assert(tool_names()[0] == "clipboard_list"@);
        assert(spec_plan_tool_call(tool_names()[0], args) is Ok);
    } else if k == 1 {
        assert(tool_names()[1] == "clipboard_copy"@);
        assert(spec_plan_tool_call(tool_names()[1], args) is Ok);
    } else if k == 2 {
        assert(tool_names()[2] == "note_create"@);
        assert(spec_plan_tool_call(tool_names()[2], args) is Ok);
    } else if k == 3 {
        assert(tool_names()[3] == "note_list"@);
        assert(spec_plan_tool_call(tool_names()[3], args) is Ok);
    } else if k == 4 {
        assert(tool_names()[4] == "note_update"@);
        assert(spec_plan_tool_call(tool_names()[4], args) is Ok);
        assert(tool_required(4)[0] == "id"@);
        assert(arg_str(args, tool_required(4)[0]) is Some);
    } else if k == 5 {
        assert(tool_names()[5] == "note_delete"@);
        assert(spec_plan_tool_call(tool_names()[5], args) is Ok);
        assert(tool_required(5)[0] == "id"@);
        assert(arg_str(args, tool_required(5)[0]) is Some);
    } else if k == 6 {
        assert(tool_names()[6] == "ocr_file"@);
        assert(spec_plan_tool_call(tool_names()[6], args) is Ok);
    } else if k == 7 {
        assert(tool_names()[7] == "voice_transcribe"@);
        assert(spec_plan_tool_call(tool_names()[7], args) is Ok);
    } else if k == 8 {
        assert(tool_names()[8] == "translate_text"@);
        assert(spec_plan_tool_call(tool_names()[8], args) is Ok);
    } else if k == 9 {
        assert(tool_names()[9] == "video_process"@);
        assert(spec_plan_tool_call(tool_names()[9], args) is Ok);
    } else {
        assert(tool_names()[10] == "photo_rembg"@);
        assert(spec_plan_tool_call(tool_names()[10], args) is Ok);
    }
}

/// A tool that the manifest does not list fails with "Unknown tool: " and
/// its name.
pub proof fn lemma_unlisted_tools_fail(name: Seq<char>, args: Seq<(String, ArgValue)>)
    requires
        !tool_names().contains(name),
    ensures
        spec_plan_tool_call(name, args) == Err::<(HttpMethod, Seq<char>, Seq<(Seq<char>, Seq<char>)>), Seq<char>>("Unknown tool: "@ + name),
{
    reveal_strlit("clipboard_list");
    assert("clipboard_list"@.len() == 14);
    assert("clipboard_list"@[0] == 'c' && "clipboard_list"@[13] == 't');
    reveal_strlit("clipboard_copy");
    assert("clipboard_copy"@.len() == 14);
    assert("clipboard_copy"@[0] == 'c' && "clipboard_copy"@[13] == 'y');
    reveal_strlit("note_create");
    assert("note_create"@.len() == 11);
    assert("note_create"@[0] == 'n' && "note_create"@[10] == 'e');
    reveal_strlit("note_list");
    assert("note_list"@.len() == 9);
    assert("note_list"@[0] == 'n' && "note_list"@[8] == 't');
    reveal_strlit("note_update");
    assert("note_update"@.len() == 11);
    assert("note_update"@[0] == 'n' && "note_update"@[10] == 'e');
    reveal_strlit("note_delete");
    assert("note_delete"@.len() == 11);
    assert("note_delete"@[0] == 'n' && "note_delete"@[10] == 'e');
    reveal_strlit("ocr_file");
    assert("ocr_file"@.len() == 8);
    assert("ocr_file"@[0] == 'o' && "ocr_file"@[7] == 'e');
    reveal_strlit("voice_transcribe");
    assert("voice_transcribe"@.len() == 16);
    assert("voice_transcribe"@[0] == 'v' && "voice_transcribe"@[15] == 'e');
    reveal_strlit("translate_text");
    assert("translate_text"@.len() == 14);
    assert("translate_text"@[0] == 't' && "translate_text"@[13] == 't');
    reveal_strlit("video_process");
    assert("video_process"@.len() == 13);
    assert("video_process"@[0] == 'v' && "video_process"@[12] == 's');
    reveal_strlit("photo_rembg");
    assert("photo_rembg"@.len() == 11);
    assert("photo_rembg"@[0] == 'p' && "photo_rembg"@[10] == 'g');
    assert forall|k: int| 0 <= k < tool_names().len() implies tool_names()[k] != name by {
        if tool_names()[k] == name {
            assert(tool_names().contains(name));
        }
    }
    assert(tool_names()[0] != name);
    assert(tool_names()[1] != name);
    assert(tool_names()[2] != name);
    assert(tool_names()[3] != name);
    assert(tool_names()[4] != name);
    assert(tool_names()[5] != name);
    assert(tool_names()[6] != name);
    assert(tool_names()[7] != name);
    assert(tool_names()[8] != name);
    assert(tool_names()[9] != name);
    assert(tool_names()[10] != name);
}

// ── Agent API forms ─────────────────────────────────────────────────────────

/// Results per agent list request when none is asked for.
pub fn default_limit() -> (r: i64)
    ensures
        r == 50,
{
    50
}

/// The OCR language when the agent gives none.
pub fn default_lang_eng() -> (r: String)
    ensures
        r@ == "eng"@,
{
    lit("eng")
}

/// The transcription language when the agent gives none.
pub fn default_lang_auto() -> (r: String)
    ensures
        r@ == "auto"@,
{
    lit("auto")
}

/// Query of the agent's clipboard list.
pub struct ClipboardQuery {
    pub q: String,
    pub limit: i64,
}

/// Text the agent copies to the clipboard.
pub struct CopyForm {
    pub content: String,
}

/// Query of the agent's note list.
pub struct NoteQuery {
    pub q: String,
    pub limit: i64,
}

/// A note the agent creates; tags comma-separated.
pub struct NoteCreateForm {
    pub title: String,
    pub content: String,
    pub tags: String,
}

/// The fields of a note the agent changes.
pub struct NoteUpdateForm {
    pub title: Option<String>,
    pub content: Option<String>,
    pub tags: Option<String>,
}

/// An image the agent has read.
pub struct OcrForm {
    pub path: String,
    pub lang: String,
}

/// An audio file the agent has transcribed.
pub struct VoiceForm {
    pub path: String,
    pub lang: String,
}

/// A text the agent has translated.
pub struct TranslateForm {
    pub text: String,
    pub from_lang: String,
    pub to_lang: String,
}

/// An image whose background the agent removes.
pub struct RembgForm {
    pub path: String,
}

} // verus!
