use dsh_launcher::proxy::{
    build_proxy_env, normalize_proxy_url, npm_proxy_env, parse_proxy_server, proxy_env_or_none,
    NO_PROXY_DEFAULT,
};
use std::collections::{HashMap, HashSet};

#[test]
fn parses_per_protocol_and_single_addr_forms() {
    let (http, https) = parse_proxy_server("http=127.0.0.1:8080;https=127.0.0.1:8443");
    assert_eq!(http.as_deref(), Some("127.0.0.1:8080"));
    assert_eq!(https.as_deref(), Some("127.0.0.1:8443"));
    let (http, https) = parse_proxy_server(" 127.0.0.1:7890 ");
    assert_eq!(http.as_deref(), Some("127.0.0.1:7890"));
    assert_eq!(https.as_deref(), Some("127.0.0.1:7890"));
    assert_eq!(parse_proxy_server(""), (None, None));
    let (http, https) = parse_proxy_server("ftp=1.2.3.4:21");
    assert_eq!(http, None);
    assert_eq!(https, None);
}

#[test]
fn proxy_server_edges() {
    assert_eq!(
        parse_proxy_server(" HTTP = a:1 ; http = b:2 "),
        (Some("b:2".to_string()), None)
    );
    assert_eq!(
        parse_proxy_server("https=x=y;junk"),
        (None, Some("x=y".to_string()))
    );
    assert_eq!(parse_proxy_server("http="), (Some(String::new()), None));
    assert_eq!(parse_proxy_server("   "), (None, None));
}

#[test]
fn normalizes_scheme() {
    assert_eq!(
        normalize_proxy_url("127.0.0.1:7890").as_deref(),
        Some("http://127.0.0.1:7890")
    );
    assert_eq!(
        normalize_proxy_url("socks5://127.0.0.1:7891").as_deref(),
        Some("socks5://127.0.0.1:7891")
    );
    assert_eq!(normalize_proxy_url("   "), None);
}

#[test]
fn builds_node_env_with_critical_switch() {
    let env: HashMap<String, String> = build_proxy_env("http=1.2.3.4:8080;https=1.2.3.4:8080")
        .into_iter()
        .collect();
    assert_eq!(
        env.get("HTTP_PROXY").map(String::as_str),
        Some("http://1.2.3.4:8080")
    );
    assert_eq!(
        env.get("HTTPS_PROXY").map(String::as_str),
        Some("http://1.2.3.4:8080")
    );
    assert_eq!(
        env.get("ALL_PROXY").map(String::as_str),
        Some("http://1.2.3.4:8080")
    );
    assert_eq!(
        env.get("NO_PROXY").map(String::as_str),
        Some(NO_PROXY_DEFAULT)
    );
    assert!(env.contains_key("http_proxy"));
    assert!(env.contains_key("no_proxy"));
    assert_eq!(env.get("NODE_USE_ENV_PROXY").map(String::as_str), Some("1"));
}

#[test]
fn npm_env_adds_npm_config_and_respects_switch() {
    let env: HashMap<String, String> = npm_proxy_env(true, "127.0.0.1:7890").into_iter().collect();
    assert_eq!(
        env.get("npm_config_proxy").map(String::as_str),
        Some("http://127.0.0.1:7890")
    );
    assert_eq!(
        env.get("npm_config_https_proxy").map(String::as_str),
        Some("http://127.0.0.1:7890")
    );
    assert!(npm_proxy_env(false, "127.0.0.1:7890").is_empty());
    assert!(npm_proxy_env(true, "").is_empty());
}

#[test]
fn no_duplicate_keys() {
    let env = build_proxy_env("http=a:1;https=a:1");
    let keys: HashSet<&str> = env.iter().map(|(k, _)| k.as_str()).collect();
    assert_eq!(keys.len(), env.len(), "环境变量键不得重复：{:?}", env);
}

#[test]
fn env_in_order_and_only_with_addresses() {
    let names: Vec<String> = npm_proxy_env(true, "http=a:1;https=b:2")
        .into_iter()
        .map(|(k, v)| format!("{}={}", k, v))
        .collect();
    assert_eq!(
        names,
        vec![
            "HTTP_PROXY=http://a:1",
            "http_proxy=http://a:1",
            "HTTPS_PROXY=http://b:2",
            "https_proxy=http://b:2",
            "ALL_PROXY=http://a:1",
            "NO_PROXY=127.0.0.1,localhost,::1",
            "no_proxy=127.0.0.1,localhost,::1",
            "NODE_USE_ENV_PROXY=1",
            "npm_config_proxy=http://a:1",
            "npm_config_https_proxy=http://a:1",
        ]
    );
    assert!(proxy_env_or_none(false, "a:1").is_empty());
    assert_eq!(proxy_env_or_none(true, "https=b:2").len(), 6);
    // an empty address for HTTP gives no URL, but the switch stays
    let env = npm_proxy_env(true, "http=;https=b:2");
    assert_eq!(env.len(), 5);
    assert_eq!(env[0].0, "HTTPS_PROXY");
}
