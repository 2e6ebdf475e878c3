//! Plugins: their manifests, the sidebar entries they declare, how the app
//! starts them, and how requests are proxied to them.
use vstd::prelude::*;

use crate::notes::{chars_lt, lex_lt, lemma_lex_irreflexive, lemma_lex_total, lemma_lex_transitive};
use crate::text::{chars_of, lit, starts_with, str_eq};

verus! {

// ── Manifests ───────────────────────────────────────────────────────────────

/// A plugin's sidebar entry.
pub struct SidebarConfig {
    pub show: bool,
    pub label: String,
    pub order: Option<u32>,
}

/// What a plugin's description file declares.
pub struct PluginManifest {
    pub id: String,
    pub name: String,
    pub version: String,
    pub author: String,
    pub description: String,
    pub entry: String,
    pub runtime: String,
    pub min_app_version: Option<String>,
    pub icon: Option<String>,
    pub routes: Option<Vec<String>>,
    pub permissions: Option<Vec<String>>,
    pub sidebar: Option<SidebarConfig>,
}

/// A running plugin: its manifest and the port it listens on.
pub struct PluginInfo {
    pub manifest: PluginManifest,
    pub port: u16,
}

// ── Sidebar ─────────────────────────────────────────────────────────────────

/// Does the plugin ask for a sidebar entry?
pub open spec fn shown(p: PluginInfo) -> bool {
    match p.manifest.sidebar {
        Some(s) => s.show,
        None => false,
    }
}

/// Where a plugin's entry goes: its declared order, or last.
pub open spec fn order_key(p: PluginInfo) -> u32 {
    match p.manifest.sidebar {
        Some(s) => match s.order {
            Some(o) => o,
            None => u32::MAX,
        },
        None => u32::MAX,
    }
}

/// Sidebar order: by declared order, then by name.
pub open spec fn key_lt(a: PluginInfo, b: PluginInfo) -> bool {
    order_key(a) < order_key(b) || (order_key(a) == order_key(b) && lex_lt(a.manifest.name@, b.manifest.name@))
}

proof fn lemma_key_lt_asym(a: PluginInfo, b: PluginInfo)
    ensures
        !(key_lt(a, b) && key_lt(b, a)),
{
    if order_key(a) == order_key(b) && lex_lt(a.manifest.name@, b.manifest.name@) && lex_lt(
        b.manifest.name@,
        a.manifest.name@,
    ) {
        lemma_lex_transitive(a.manifest.name@, b.manifest.name@, a.manifest.name@);
        lemma_lex_irreflexive(a.manifest.name@);
    }
}

proof fn lemma_key_lt_trans(a: PluginInfo, b: PluginInfo, c: PluginInfo)
    requires
        key_lt(a, b),
        key_lt(b, c),
    ensures
        key_lt(a, c),
{
    if order_key(a) == order_key(b) && order_key(b) == order_key(c) {
        lemma_lex_transitive(a.manifest.name@, b.manifest.name@, c.manifest.name@);
    }
}

fn order_of(p: &PluginInfo) -> (r: u32)
    ensures
        r == order_key(*p),
{
    match &p.manifest.sidebar {
        Some(s) => match s.order {
            Some(o) => o,
            None => u32::MAX,
        },
        None => u32::MAX,
    }
}

fn precedes(a: &PluginInfo, b: &PluginInfo) -> (r: bool)
    ensures
        r == key_lt(*a, *b),
{
    let oa = order_of(a);
    let ob = order_of(b);
    if oa < ob {
        true
    } else if oa == ob {
        let x = chars_of(a.manifest.name.as_str());
        let y = chars_of(b.manifest.name.as_str());
        chars_lt(&x, &y)
    } else {
        false
    }
}

/// The sidebar's entries: the positions of the plugins that ask for one,
/// each once, ordered by declared order (missing last) and then by name.
pub open spec fn is_sidebar_order(ps: Seq<PluginInfo>, r: Seq<usize>) -> bool {
    &&& forall|k: int| 0 <= k < r.len() ==> r[k] < ps.len() && shown(#[trigger] ps[r[k] as int])
    &&& forall|a: int, b: int| 0 <= a < b < r.len() ==> r[a] != r[b]
    &&& forall|i: int| 0 <= i < ps.len() && shown(#[trigger] ps[i]) ==> r.contains(i as usize)
    &&& forall|a: int, b: int| 0 <= a < b < r.len() ==> !key_lt(ps[r[b] as int], ps[r[a] as int])
}

/// Orders the plugins' sidebar entries.
pub fn sidebar_items(ps: &Vec<PluginInfo>) -> (r: Vec<usize>)
    ensures
        is_sidebar_order(ps@, r@),
{
    let mut r: Vec<usize> = Vec::new();
    let mut i: usize = 0;
    while i < ps.len()
        invariant
            i <= ps@.len(),
            forall|k: int| 0 <= k < r@.len() ==> #[trigger] r@[k] < i,
            forall|k: int| 0 <= k < r@.len() ==> shown(#[trigger] ps@[r@[k] as int]),
            forall|a: int, b: int| 0 <= a < b < r@.len() ==> r@[a] != r@[b],
            forall|j: int| 0 <= j < i && shown(#[trigger] ps@[j]) ==> r@.contains(j as usize),
            forall|a: int, b: int| 0 <= a < b < r@.len() ==> !key_lt(ps@[r@[b] as int], ps@[r@[a] as int]),
        decreases ps.len() - i,
    {
        let p = &ps[i];
        let show = match &p.manifest.sidebar {
            Some(s) => s.show,
            None => false,
        };
        if show {
            let mut pos: usize = 0;
            while pos < r.len() && !precedes(p, &ps[r[pos]])
                invariant
                    pos <= r@.len(),
                    i < ps@.len(),
                    *p == ps@[i as int],
                    forall|k: int| 0 <= k < r@.len() ==> r@[k] < i,
                    forall|q: int| 0 <= q < pos ==> !key_lt(ps@[i as int], #[trigger] ps@[r@[q] as int]),
                decreases r@.len() - pos,
            {
                pos = pos + 1;
            }
            let ghost old_r = r@;
            r.insert(pos, i);
            proof {
                assert(r@ =~= old_r.insert(pos as int, i));
                assert(shown(ps@[i as int]));
                assert forall|k: int| 0 <= k < r@.len() implies #[trigger] r@[k] < i + 1 && shown(
                    ps@[r@[k] as int],
                ) by {
                    if k < pos {
                        assert(r@[k] == old_r[k]);
                    } else if k > pos {
                        assert(r@[k] == old_r[k - 1]);
                    }
                }
                assert forall|a: int, b: int| 0 <= a < b < r@.len() implies !key_lt(
                    ps@[r@[b] as int],
                    ps@[r@[a] as int],
                ) by {
                    let x = ps@[i as int];
                    if a < pos && b < pos {
                        assert(r@[a] == old_r[a] && r@[b] == old_r[b]);
                    } else if a < pos && b == pos {
                        assert(r@[a] == old_r[a]);
                    } else if a < pos && b > pos {
                        assert(r@[a] == old_r[a] && r@[b] == old_r[b - 1]);
                    } else if a == pos {
                        assert(r@[b] == old_r[b - 1]);
                        assert(key_lt(x, ps@[old_r[pos as int] as int]));
                        if key_lt(ps@[old_r[b - 1] as int], x) {
                            if b - 1 == pos {
                                lemma_key_lt_asym(x, ps@[old_r[pos as int] as int]);
                            } else {
                                lemma_key_lt_trans(ps@[old_r[b - 1] as int], x, ps@[old_r[pos as int] as int]);
                            }
                        }
                    } else {
                        assert(r@[a] == old_r[a - 1] && r@[b] == old_r[b - 1]);
                    }
                }
                assert forall|j: int| 0 <= j < i + 1 && shown(#[trigger] ps@[j]) implies r@.contains(
                    j as usize,
                ) by {
                    if j == i {
                        assert(r@[pos as int] == i);
                    } else {
                        assert(old_r.contains(j as usize));
                        let q = choose|q: int| 0 <= q < old_r.len() && old_r[q] == j as usize;
                        if q < pos {
                            assert(r@[q] == j as usize);
                        } else {
                            assert(r@[q + 1] == j as usize);
                        }
                    }
                }
                assert forall|a: int, b: int| 0 <= a < b < r@.len() implies r@[a] != r@[b] by {
                    if a < pos && b < pos {
                    } else if a < pos && b == pos {
                        assert(r@[a] == old_r[a]);
                    } else if a < pos {
                        assert(r@[a] == old_r[a] && r@[b] == old_r[b - 1]);
                    } else if a == pos {
                        assert(r@[b] == old_r[b - 1]);
                    } else {
                        assert(r@[a] == old_r[a - 1] && r@[b] == old_r[b - 1]);
                    }
                }
            }
        }
        i = i + 1;
    }
    r
}

// ── Starting plugins ────────────────────────────────────────────────────────

/// How a plugin is started: the program, and its arguments.
pub open spec fn spec_plugin_command(runtime: Seq<char>, entry: Seq<char>, dir: Seq<char>) -> Option<
    (Seq<char>, Seq<Seq<char>>),
> {
    if runtime == "python"@ {
        Some(("python3"@, seq![entry]))
    } else if runtime == "node"@ {
        Some(("node"@, seq![entry]))
    } else if runtime == "binary"@ {
        Some((crate::paths::spec_join(dir, entry), seq![]))
    } else {
        None
    }
}

/// The folder a plugin runs in: `../plugins/<id>`.
pub open spec fn spec_plugin_dir(id: Seq<char>) -> Seq<char> {
    crate::paths::spec_join("../plugins"@, id)
}

/// The command that starts a plugin, by its runtime; `None` for an unknown
/// runtime (the plugin is skipped).
pub fn plugin_command(m: &PluginManifest) -> (r: Option<(String, Vec<String>)>)
    ensures
        match spec_plugin_command(m.runtime@, m.entry@, spec_plugin_dir(m.id@)) {
            Some((prog, args)) => r matches Some((p, a)) && p@ == prog && crate::tags::views(a@) == args,
            None => r is None,
        },
{
    let rt = m.runtime.as_str();
    if str_eq(rt, "python") || str_eq(rt, "node") {
        let mut a: Vec<String> = Vec::new();
        a.push(m.entry.clone());
        proof {
            assert(crate::tags::views(a@) =~= seq![m.entry@]);
        }
        let prog = if str_eq(rt, "python") {
            lit("python3")
        } else {
            lit("node")
        };
        Some((prog, a))
    } else if str_eq(rt, "binary") {
        let dir = crate::paths::join("../plugins", m.id.as_str());
        let prog = crate::paths::join(dir.as_str(), m.entry.as_str());
        let a: Vec<String> = Vec::new();
        proof {
            assert(crate::tags::views(a@) =~= Seq::<Seq<char>>::empty());
        }
        Some((prog, a))
    } else {
        None
    }
}

// ── Proxying ────────────────────────────────────────────────────────────────

/// The path prefix of a plugin's pages: `/plugins/<id>`.
pub open spec fn spec_plugin_prefix(id: Seq<char>) -> Seq<char> {
    "/plugins/"@ + id
}

/// Is a declared route the plugin's prefix, or under it?
pub open spec fn route_matches(r: Seq<char>, id: Seq<char>) -> bool {
    let p = spec_plugin_prefix(id);
    r == p || (p.len() + 1 <= r.len() && r.take(p.len() + 1int) == p.push('/'))
}

/// Does one of the declared routes match?
pub open spec fn any_route_matches(rs: Seq<String>, id: Seq<char>) -> bool {
    exists|k: int| 0 <= k < rs.len() && route_matches(#[trigger] rs[k]@, id)
}

/// May a request reach the plugin? Yes unless its manifest lists routes and
/// none of them is its prefix or lies under it.
pub open spec fn spec_route_allowed(routes: Option<Seq<String>>, id: Seq<char>) -> bool {
    match routes {
        None => true,
        Some(rs) => any_route_matches(rs, id),
    }
}

/// Checks a request to a plugin against the routes its manifest declares.
pub fn route_allowed(routes: &Option<Vec<String>>, id: &str) -> (r: bool)
    ensures
        r == spec_route_allowed(
            match routes {
                Some(v) => Some(v@),
                None => None,
            },
            id@,
        ),
{
    match routes {
        None => true,
        Some(rs) => {
            let prefix = crate::text::concat("/plugins/", id);
            let mut under = prefix.clone();
            under.push('/');
            let mut k: usize = 0;
            while k < rs.len()
                invariant
                    k <= rs@.len(),
                    prefix@ == spec_plugin_prefix(id@),
                    under@ == prefix@.push('/'),
                    *routes == Some(*rs),
                    forall|j: int| 0 <= j < k ==> !route_matches(#[trigger] rs@[j]@, id@),
                decreases rs.len() - k,
            {
                let r = rs[k].as_str();
                if str_eq(r, prefix.as_str()) || starts_with(r, under.as_str()) {
                    proof {
                        assert(route_matches(rs@[k as int]@, id@));
                        assert(any_route_matches(rs@, id@));
                    }
                    return true;
                }
                k = k + 1;
            }
            false
        },
    }
}

/// The path a proxied request has in the plugin: what follows the plugin's
/// prefix, `/` when nothing does or the prefix is missing.
pub open spec fn spec_subpath(path: Seq<char>, id: Seq<char>) -> Seq<char> {
    let p = spec_plugin_prefix(id);
    if p.len() <= path.len() && path.take(p.len() as int) == p && path.len() > p.len() {
        path.skip(p.len() as int)
    } else {
        "/"@
    }
}

/// The URL a request to a plugin is forwarded to.
pub fn target_url(path_and_query: &str, id: &str, port: u16) -> (r: String)
    ensures
        r@ == "http://127.0.0.1:"@ + crate::text::nat_digits(port as nat) + spec_subpath(path_and_query@, id@),
{
    let prefix = crate::text::concat("/plugins/", id);
    let n = chars_of(prefix.as_str()).len();
    let total = chars_of(path_and_query).len();
    let sub = if starts_with(path_and_query, prefix.as_str()) && total > n {
        crate::text::skip_chars(path_and_query, n)
    } else {
        lit("/")
    };
    let mut r = lit("http://127.0.0.1:");
    crate::text::push_u64(&mut r, port as u64);
    r.append(sub.as_str());
    r
}

/// Request headers not passed on to a plugin.
pub open spec fn spec_dropped_request_header(name: Seq<char>) -> bool {
    name == "host"@ || name == "authorization"@ || name == "connection"@ || name == "keep-alive"@
}

/// Is a request header passed on to the plugin?
pub fn forward_request_header(name: &str) -> (r: bool)
    ensures
        r == !spec_dropped_request_header(name@),
{
    !(str_eq(name, "host") || str_eq(name, "authorization") || str_eq(name, "connection") || str_eq(
        name,
        "keep-alive",
    ))
}

/// Response headers not passed back from a plugin.
pub open spec fn spec_dropped_response_header(name: Seq<char>) -> bool {
    name == "transfer-encoding"@ || name == "connection"@ || name == "keep-alive"@
}

/// Is a response header passed back to the client?
pub fn forward_response_header(name: &str) -> (r: bool)
    ensures
        r == !spec_dropped_response_header(name@),
{
    !(str_eq(name, "transfer-encoding") || str_eq(name, "connection") || str_eq(name, "keep-alive"))
}

/// Query of the plugin sidebar: the shell's layout.
pub struct SidebarQuery {
    pub layout: Option<String>,
}

/// Is the sidebar drawn for the tablet layout (icons only)?
pub fn is_tablet(q: &SidebarQuery) -> (r: bool)
    ensures
        r == (crate::json::opt_view(q.layout) == Some("tablet"@)),
{
    match &q.layout {
        Some(l) => str_eq(l.as_str(), "tablet"),
        None => false,
    }
}

} // verus!
