use eleutheria_telos::plugins::{
    forward_request_header, forward_response_header, plugin_command, route_allowed, sidebar_items,
    target_url, PluginInfo, PluginManifest, SidebarConfig,
};

fn s(x: &str) -> String {
    x.to_string()
}

fn manifest(id: &str, name: &str, runtime: &str, sidebar: Option<SidebarConfig>) -> PluginManifest {
    PluginManifest {
        id: s(id),
        name: s(name),
        version: s("1.0"),
        author: s("me"),
        description: s("d"),
        entry: s("main.py"),
        runtime: s(runtime),
        min_app_version: None,
        icon: None,
        routes: None,
        permissions: None,
        sidebar,
    }
}

fn bar(show: bool, order: Option<u32>) -> Option<SidebarConfig> {
    Some(SidebarConfig { show, label: s("L"), order })
}

#[test]
fn sidebar_order() {
    let ps = vec![
        PluginInfo { manifest: manifest("a", "Zed", "python", bar(true, None)), port: 1 },
        PluginInfo { manifest: manifest("b", "Beta", "python", bar(true, Some(2))), port: 2 },
        PluginInfo { manifest: manifest("c", "Alpha", "python", bar(true, Some(2))), port: 3 },
        PluginInfo { manifest: manifest("d", "Hidden", "python", bar(false, Some(1))), port: 4 },
        PluginInfo { manifest: manifest("e", "None", "python", None), port: 5 },
        PluginInfo { manifest: manifest("f", "First", "python", bar(true, Some(0))), port: 6 },
    ];
    assert_eq!(sidebar_items(&ps), vec![5, 2, 1, 0]);
}

#[test]
fn start_commands() {
    let (p, a) = plugin_command(&manifest("x", "X", "python", None)).unwrap();
    assert_eq!(p, "python3");
    assert_eq!(a, vec![s("main.py")]);
    let (p, a) = plugin_command(&manifest("x", "X", "binary", None)).unwrap();
    assert_eq!(p, "../plugins/x/main.py");
    assert!(a.is_empty());
    assert!(plugin_command(&manifest("x", "X", "ruby", None)).is_none());
}

#[test]
fn proxy_routes() {
    assert!(route_allowed(&None, "x"));
    let routes = Some(vec![s("/plugins/x/api")]);
    assert!(route_allowed(&routes, "x"));
    assert!(!route_allowed(&routes, "y"));
    assert!(route_allowed(&Some(vec![s("/plugins/x")]), "x"));
    assert!(!route_allowed(&Some(vec![s("/plugins/xy")]), "x"));
    assert_eq!(target_url("/plugins/x/api/list?q=1", "x", 9001), "http://127.0.0.1:9001/api/list?q=1");
    assert_eq!(target_url("/plugins/x", "x", 9001), "http://127.0.0.1:9001/");
    assert_eq!(target_url("/other", "x", 80), "http://127.0.0.1:80/");
    assert!(!forward_request_header("authorization"));
    assert!(forward_request_header("content-type"));
    assert!(!forward_response_header("transfer-encoding"));
    assert!(forward_response_header("content-length"));
}
