//! Proxy settings as environment variables for child processes.
//!
//! Node heeds the usual variables only where `NODE_USE_ENV_PROXY` is set, and npm reads its own
//! `npm_config_*` variables alone, so both sets are given.

use crate::text::{
    find_char, has_sub, holds, holds_char, length, lower, lower_of, opt_view, part, position, same,
    split, split_of, trim, trim_of, views,
};
use vstd::prelude::*;

verus! {

/// The addresses that are reached without a proxy.
pub const NO_PROXY_DEFAULT: &'static str = "127.0.0.1,localhost,::1";

/// The names and values of a list of variables.
pub open spec fn pairs(v: Seq<(String, String)>) -> Seq<(Seq<char>, Seq<char>)> {
    Seq::new(v.len(), |i: int| (v[i].0@, v[i].1@))
}

/// The scheme and the address of a part `scheme=address`.
pub open spec fn scheme_part(part: Seq<char>) -> Option<(Seq<char>, Seq<char>)> {
    let p = trim_of(part);
    let n = find_char(p, '=');
    if n < p.len() {
        Some((lower_of(trim_of(p.take(n))), trim_of(p.skip(n + 1))))
    } else {
        None
    }
}

/// The address for `scheme`: the last part with that scheme counts.
pub open spec fn address_for(parts: Seq<Seq<char>>, scheme: Seq<char>) -> Option<Seq<char>>
    decreases parts.len(),
{
    if parts.len() == 0 {
        None
    } else {
        match scheme_part(parts.last()) {
            Some(p) if p.0 == scheme => Some(p.1),
            _ => address_for(parts.drop_last(), scheme),
        }
    }
}

/// The addresses for HTTP and HTTPS in a system proxy setting: `http=..;https=..`, or one address
/// for both.
pub open spec fn proxy_addresses(server: Seq<char>) -> (Option<Seq<char>>, Option<Seq<char>>) {
    if server.contains('=') {
        let parts = split_of(server, ';');
        (address_for(parts, "http"@), address_for(parts, "https"@))
    } else {
        let s = trim_of(server);
        if s.len() == 0 {
            (None, None)
        } else {
            (Some(s), Some(s))
        }
    }
}

/// An address with a scheme: where it has none, `http`.
pub open spec fn proxy_url(addr: Seq<char>) -> Option<Seq<char>> {
    let a = trim_of(addr);
    if a.len() == 0 {
        None
    } else if has_sub(a, "://"@) {
        Some(a)
    } else {
        Some("http://"@ + a)
    }
}

/// The URL for an address that may be missing.
pub open spec fn url_of(addr: Option<Seq<char>>) -> Option<Seq<char>> {
    match addr {
        Some(a) => proxy_url(a),
        None => None,
    }
}

/// The URL for everything: that of HTTP where there is an address for it, else that of HTTPS.
pub open spec fn url_for_all(http: Option<Seq<char>>, https: Option<Seq<char>>) -> Option<Seq<char>> {
    if http is Some {
        url_of(http)
    } else {
        url_of(https)
    }
}

/// A URL under two names, where there is one.
pub open spec fn twice(
    a: Seq<char>,
    b: Seq<char>,
    url: Option<Seq<char>>,
) -> Seq<(Seq<char>, Seq<char>)> {
    match url {
        Some(u) => seq![(a, u), (b, u)],
        None => Seq::empty(),
    }
}

/// A URL under one name, where there is one.
pub open spec fn once(a: Seq<char>, url: Option<Seq<char>>) -> Seq<(Seq<char>, Seq<char>)> {
    match url {
        Some(u) => seq![(a, u)],
        None => Seq::empty(),
    }
}

/// The variables that turn a proxy on for Node.
pub open spec fn proxy_env(server: Seq<char>) -> Seq<(Seq<char>, Seq<char>)> {
    let (http, https) = proxy_addresses(server);
    if http is None && https is None {
        Seq::empty()
    } else {
        twice("HTTP_PROXY"@, "http_proxy"@, url_of(http)) + twice(
            "HTTPS_PROXY"@,
            "https_proxy"@,
            url_of(https),
        ) + once("ALL_PROXY"@, url_for_all(http, https)) + seq![
            ("NO_PROXY"@, NO_PROXY_DEFAULT@),
            ("no_proxy"@, NO_PROXY_DEFAULT@),
            ("NODE_USE_ENV_PROXY"@, "1"@),
        ]
    }
}

/// The variables that turn a proxy on for Node, none where the switch is off.
pub open spec fn switched_env(on: bool, server: Seq<char>) -> Seq<(Seq<char>, Seq<char>)> {
    if on {
        proxy_env(server)
    } else {
        Seq::empty()
    }
}

/// The variables that turn a proxy on for npm.
pub open spec fn npm_env(on: bool, server: Seq<char>) -> Seq<(Seq<char>, Seq<char>)> {
    let env = switched_env(on, server);
    if env.len() == 0 {
        env
    } else {
        let (http, https) = proxy_addresses(server);
        env + twice("npm_config_proxy"@, "npm_config_https_proxy"@, url_for_all(http, https))
    }
}

fn scheme_of(part_text: &str) -> (r: Option<(String, String)>)
    ensures
        match r {
            Some(p) => scheme_part(part_text@) == Some((p.0@, p.1@)),
            None => scheme_part(part_text@) is None,
        },
{
    let p = trim(part_text);
    let n: usize = position(p, '=');
    let len: usize = length(p);
    if n < len {
        let before = part(p, 0, n);
        let behind = part(p, n + 1, len);
        proof {
            assert(before@ =~= p@.take(n as int));
            assert(behind@ =~= p@.skip(n + 1));
        }
        Some((lower(trim(before)), trim(behind).to_owned()))
    } else {
        None
    }
}

/// The addresses for HTTP and HTTPS in a system proxy setting.
pub fn parse_proxy_server(server: &str) -> (r: (Option<String>, Option<String>))
    ensures
        (opt_view(r.0), opt_view(r.1)) == proxy_addresses(server@),
{
    if holds_char(server, '=') {
        let parts = split(server, ';');
        let ghost all = views(parts@);
        let mut http: Option<String> = None;
        let mut https: Option<String> = None;
        let mut i: usize = 0;
        while i < parts.len()
            invariant
                i <= parts@.len(),
                all == views(parts@),
                opt_view(http) == address_for(all.take(i as int), "http"@),
                opt_view(https) == address_for(all.take(i as int), "https"@),
            decreases parts@.len() - i,
        {
            proof {
                let next = all.take(i + 1);
                assert(next.drop_last() =~= all.take(i as int));
                assert(next.last() == parts@[i as int]@);
                reveal_strlit("http");
                reveal_strlit("https");
                assert("http"@.len() != "https"@.len());
            }
            match scheme_of(parts[i].as_str()) {
                Some((scheme, addr)) => {
                    if same(scheme.as_str(), "http") {
                        http = Some(addr);
                    } else if same(scheme.as_str(), "https") {
                        https = Some(addr);
                    }
                },
                None => {},
            }
            i += 1;
        }
        proof {
            assert(all.take(all.len() as int) =~= all);
        }
        (http, https)
    } else {
        let s = trim(server);
        if s.is_empty() {
            (None, None)
        } else {
            (Some(s.to_owned()), Some(s.to_owned()))
        }
    }
}

/// An address with a scheme: where it has none, `http`.
pub fn normalize_proxy_url(addr: &str) -> (r: Option<String>)
    ensures
        opt_view(r) == proxy_url(addr@),
{
    let a = trim(addr);
    if a.is_empty() {
        None
    } else if holds(a, "://") {
        Some(a.to_owned())
    } else {
        Some("http://".to_owned().concat(a))
    }
}

fn url(addr: &Option<String>) -> (r: Option<String>)
    ensures
        opt_view(r) == url_of(opt_view(*addr)),
{
    match addr {
        Some(a) => normalize_proxy_url(a.as_str()),
        None => None,
    }
}

fn all_url(http: &Option<String>, https: &Option<String>) -> (r: Option<String>)
    ensures
        opt_view(r) == url_for_all(opt_view(*http), opt_view(*https)),
{
    if http.is_some() {
        url(http)
    } else {
        url(https)
    }
}

fn put(env: &mut Vec<(String, String)>, name: &str, value: &str)
    ensures
        pairs(final(env)@) == pairs(old(env)@).push((name@, value@)),
{
    env.push((name.to_owned(), value.to_owned()));
    proof {
        assert(pairs(env@) =~= pairs(old(env)@).push((name@, value@)));
    }
}

fn put_twice(env: &mut Vec<(String, String)>, a: &str, b: &str, value: &Option<String>)
    ensures
        pairs(final(env)@) == pairs(old(env)@) + twice(a@, b@, opt_view(*value)),
{
    let ghost before = pairs(env@);
    match value {
        Some(u) => {
            put(env, a, u.as_str());
            put(env, b, u.as_str());
            proof {
                assert(pairs(env@) =~= before + seq![(a@, u@), (b@, u@)]);
            }
        },
        None => {
            proof {
                assert(before + Seq::<(Seq<char>, Seq<char>)>::empty() =~= before);
            }
        },
    }
}

/// The variables that turn a proxy on for Node.
pub fn build_proxy_env(server: &str) -> (r: Vec<(String, String)>)
    ensures
        pairs(r@) == proxy_env(server@),
{
    let (http, https) = parse_proxy_server(server);
    let mut env: Vec<(String, String)> = Vec::new();
    proof {
        assert(pairs(env@) =~= Seq::empty());
    }
    if http.is_none() && https.is_none() {
        return env;
    }
    put_twice(&mut env, "HTTP_PROXY", "http_proxy", &url(&http));
    put_twice(&mut env, "HTTPS_PROXY", "https_proxy", &url(&https));
    let ghost before = pairs(env@);
    let all = all_url(&http, &https);
    match &all {
        Some(u) => {
            put(&mut env, "ALL_PROXY", u.as_str());
        },
        None => {},
    }
    proof {
        assert(pairs(env@) =~= before + once("ALL_PROXY"@, opt_view(all)));
    }
    put(&mut env, "NO_PROXY", NO_PROXY_DEFAULT);
    put(&mut env, "no_proxy", NO_PROXY_DEFAULT);
    put(&mut env, "NODE_USE_ENV_PROXY", "1");
    proof {
        assert(pairs(env@) =~= proxy_env(server@));
    }
    env
}

/// The variables that turn a proxy on for Node, none where the switch is off.
pub fn proxy_env_or_none(proxy_on: bool, proxy_addr: &str) -> (r: Vec<(String, String)>)
    ensures
        pairs(r@) == switched_env(proxy_on, proxy_addr@),
{
    if !proxy_on {
        let none: Vec<(String, String)> = Vec::new();
        proof {
            assert(pairs(none@) =~= Seq::empty());
        }
        return none;
    }
    build_proxy_env(proxy_addr)
}

/// The variables that turn a proxy on for npm.
pub fn npm_proxy_env(proxy_on: bool, proxy_addr: &str) -> (r: Vec<(String, String)>)
    ensures
        pairs(r@) == npm_env(proxy_on, proxy_addr@),
{
    let mut env = proxy_env_or_none(proxy_on, proxy_addr);
    if env.len() > 0 {
        let (http, https) = parse_proxy_server(proxy_addr);
        put_twice(&mut env, "npm_config_proxy", "npm_config_https_proxy", &all_url(&http, &https));
    }
    env
}

/// Whether no name occurs twice.
pub open spec fn names_differ(env: Seq<(Seq<char>, Seq<char>)>) -> bool {
    forall|i: int, j: int|
        0 <= i < j < env.len() ==> (#[trigger] env[i]).0 != (#[trigger] env[j]).0
}

/// The names of the variables, in the order in which they stand.
pub open spec fn name_rank(name: Seq<char>) -> int {
    if name == "HTTP_PROXY"@ {
        1
    } else if name == "http_proxy"@ {
        2
    } else if name == "HTTPS_PROXY"@ {
        3
    } else if name == "https_proxy"@ {
        4
    } else if name == "ALL_PROXY"@ {
        5
    } else if name == "NO_PROXY"@ {
        6
    } else if name == "no_proxy"@ {
        7
    } else if name == "NODE_USE_ENV_PROXY"@ {
        8
    } else if name == "npm_config_proxy"@ {
        9
    } else if name == "npm_config_https_proxy"@ {
        10
    } else {
        0
    }
}

proof fn lemma_ranks()
    ensures
        name_rank("HTTP_PROXY"@) == 1,
        name_rank("http_proxy"@) == 2,
        name_rank("HTTPS_PROXY"@) == 3,
        name_rank("https_proxy"@) == 4,
        name_rank("ALL_PROXY"@) == 5,
        name_rank("NO_PROXY"@) == 6,
        name_rank("no_proxy"@) == 7,
        name_rank("NODE_USE_ENV_PROXY"@) == 8,
        name_rank("npm_config_proxy"@) == 9,
        name_rank("npm_config_https_proxy"@) == 10,
{
    reveal_strlit("HTTP_PROXY");
    reveal_strlit("http_proxy");
    reveal_strlit("HTTPS_PROXY");
    reveal_strlit("https_proxy");
    reveal_strlit("ALL_PROXY");
    reveal_strlit("NO_PROXY");
    reveal_strlit("no_proxy");
    reveal_strlit("NODE_USE_ENV_PROXY");
    reveal_strlit("npm_config_proxy");
    reveal_strlit("npm_config_https_proxy");
    assert("HTTP_PROXY"@[0] == 'H');
    assert("http_proxy"@[0] == 'h');
    assert("HTTPS_PROXY"@[0] == 'H');
    assert("https_proxy"@[0] == 'h');
    assert("HTTP_PROXY"@.len() == 10 && "http_proxy"@.len() == 10);
    assert("HTTPS_PROXY"@.len() == 11 && "https_proxy"@.len() == 11);
    assert("ALL_PROXY"@.len() == 9 && "NO_PROXY"@.len() == 8 && "no_proxy"@.len() == 8);
    assert("NODE_USE_ENV_PROXY"@.len() == 18);
    assert("npm_config_proxy"@.len() == 16 && "npm_config_https_proxy"@.len() == 22);
    assert("NO_PROXY"@[0] == 'N');
    assert("no_proxy"@[0] == 'n');
}

proof fn lemma_ranks_rise(env: Seq<(Seq<char>, Seq<char>)>)
    requires
        forall|i: int, j: int|
            0 <= i < j < env.len() ==> name_rank((#[trigger] env[i]).0) < name_rank(
                (#[trigger] env[j]).0,
            ),
    ensures
        names_differ(env),
{
}

/// No variable is given twice, neither to Node nor to npm.
pub proof fn law_no_duplicate_names(on: bool, server: Seq<char>)
    ensures
        names_differ(proxy_env(server)),
        names_differ(npm_env(on, server)),
{
    lemma_ranks();
    lemma_ranks_rise(proxy_env(server));
    lemma_ranks_rise(npm_env(on, server));
}

/// Wherever a variable is given at all, the switch that makes Node heed it is given too.
pub proof fn law_node_switch_is_given(on: bool, server: Seq<char>)
    ensures
        npm_env(on, server).len() > 0 ==> npm_env(on, server).contains(
            ("NODE_USE_ENV_PROXY"@, "1"@),
        ),
        proxy_env(server).len() > 0 ==> proxy_env(server).contains(
            ("NODE_USE_ENV_PROXY"@, "1"@),
        ),
        !on ==> npm_env(on, server).len() == 0,
{
    let env = proxy_env(server);
    if env.len() > 0 {
        let n = env.len() - 1;
        assert(env[n] == ("NODE_USE_ENV_PROXY"@, "1"@));
        assert(on ==> npm_env(on, server)[n] == ("NODE_USE_ENV_PROXY"@, "1"@));
    }
}

/// A proxy URL has a scheme.
pub proof fn law_proxy_url_has_scheme(addr: Seq<char>)
    ensures
        proxy_url(addr) is Some ==> has_sub(proxy_url(addr)->0, "://"@),
{
    let a = trim_of(addr);
    if a.len() > 0 && !has_sub(a, "://"@) {
        reveal_strlit("://");
        reveal_strlit("http://");
        let u = "http://"@ + a;
        assert(u.subrange(4, 7) =~= "://"@);
        assert(crate::text::stands_at(u, "://"@, 4));
    }
}

} // verus!
