//! What holds of the proxy: which address serves which scheme, and which variables tell of it.

use crate::proxy::{
    address_for, npm_env, proxy_addresses, proxy_env, proxy_url, scheme_part, switched_env,
    url_for_all, url_of,
};
use crate::text::{
    has_sub, is_space, join_of, lemma_find_char, lemma_find_char_is, lower_of, strips, Strip,
};
use crate::text_laws::{all_stripped, law_strip_takes_off_what_stands_round, lemma_split_join};
use vstd::prelude::*;

verus! {

/// Whether a text is empty or neither starts nor ends with white space.
pub open spec fn is_trimmed(s: Seq<char>) -> bool {
    s.len() > 0 ==> !is_space(s[0]) && !is_space(s.last())
}

/// Whether a part names an address for `scheme`.
pub open spec fn names_scheme(part: Seq<char>, scheme: Seq<char>) -> bool {
    match scheme_part(part) {
        Some(p) => p.0 == scheme,
        None => false,
    }
}

/// An address without schemes serves both schemes, without the white space round it; an empty one
/// serves none.
pub proof fn law_plain_address_serves_both(a: Seq<char>, s: Seq<char>, b: Seq<char>)
    requires
        all_stripped(a, Strip::Space),
        all_stripped(b, Strip::Space),
        is_trimmed(s),
        !s.contains('='),
    ensures
        s.len() > 0 ==> proxy_addresses(a + s + b) == (Some(s), Some(s)),
        s.len() == 0 ==> proxy_addresses(a + s + b) == (None::<Seq<char>>, None::<Seq<char>>),
{
    let all = a + s + b;
    assert(!all.contains('=')) by {
        if all.contains('=') {
            let i = choose|i: int| 0 <= i < all.len() && all[i] == '=';
            if i < a.len() {
                assert(strips(Strip::Space, a[i]));
            } else if i < a.len() + s.len() {
                assert(s[i - a.len()] == '=');
            } else {
                assert(strips(Strip::Space, b[i - a.len() - s.len()]));
            }
        }
    }
    law_strip_takes_off_what_stands_round(a, s, b, Strip::Space);
}

/// A part `scheme=address` names an address for a scheme, in whatever case and with white space
/// round both; a part without `=` names none. Only the first `=` parts them.
pub proof fn law_part_names_an_address(
    g: Seq<Seq<char>>,
    scheme: Seq<char>,
    address: Seq<char>,
)
    requires
        g.len() == 4,
        forall|i: int| 0 <= i < 4 ==> all_stripped(#[trigger] g[i], Strip::Space),
        is_trimmed(scheme),
        is_trimmed(address),
        scheme.len() > 0,
        address.len() > 0,
        !scheme.contains('='),
    ensures
        scheme_part(g[0] + (scheme + g[1] + seq!['='] + g[2] + address) + g[3]) == Some(
            (lower_of(scheme), address),
        ),
        scheme_part(g[0] + scheme + g[3]) is None,
{
    let none = Seq::<char>::empty();
    assert(all_stripped(g[0], Strip::Space) && all_stripped(g[1], Strip::Space) && all_stripped(
        g[2],
        Strip::Space,
    ) && all_stripped(g[3], Strip::Space));
    let core = scheme + g[1] + seq!['='] + g[2] + address;
    assert(core[0] == scheme[0] && core.last() == address.last());
    law_strip_takes_off_what_stands_round(g[0], core, g[3], Strip::Space);
    let n = (scheme.len() + g[1].len()) as int;
    assert forall|j: int| 0 <= j < n implies core[j] != '=' by {
        if j < scheme.len() {
            assert(core[j] == scheme[j]);
            assert(scheme.contains(scheme[j]));
        } else {
            assert(core[j] == g[1][j - scheme.len()]);
            assert(strips(Strip::Space, g[1][j - scheme.len()]));
        }
    }
    assert(core[n] == '=');
    lemma_find_char_is(core, '=', n);
    assert(core.take(n) =~= none + scheme + g[1]);
    assert(core.skip(n + 1) =~= g[2] + address + none);
    law_strip_takes_off_what_stands_round(none, scheme, g[1], Strip::Space);
    law_strip_takes_off_what_stands_round(g[2], address, none, Strip::Space);
    law_strip_takes_off_what_stands_round(g[0], scheme, g[3], Strip::Space);
    lemma_find_char(scheme, '=');
}

proof fn lemma_address(parts: Seq<Seq<char>>, k: int, scheme: Seq<char>, address: Seq<char>)
    requires
        0 <= k < parts.len(),
        scheme_part(parts[k]) == Some((scheme, address)),
        forall|j: int|
            k < j < parts.len() ==> !names_scheme(#[trigger] parts[j], scheme),
    ensures
        address_for(parts, scheme) == Some(address),
    decreases parts.len(),
{
    if k < parts.len() - 1 {
        let d = parts.drop_last();
        assert(!names_scheme(parts[parts.len() - 1], scheme));
        assert forall|j: int| k < j < d.len() implies !names_scheme(#[trigger] d[j], scheme) by {
            assert(d[j] == parts[j]);
        }
        lemma_address(d, k, scheme, address);
    }
}

proof fn lemma_no_address(parts: Seq<Seq<char>>, scheme: Seq<char>)
    requires
        forall|j: int|
            0 <= j < parts.len() ==> !names_scheme(#[trigger] parts[j], scheme),
    ensures
        address_for(parts, scheme) is None,
    decreases parts.len(),
{
    if parts.len() > 0 {
        let d = parts.drop_last();
        assert(!names_scheme(parts[parts.len() - 1], scheme));
        assert forall|j: int| 0 <= j < d.len() implies !names_scheme(#[trigger] d[j], scheme) by {
            assert(d[j] == parts[j]);
        }
        lemma_no_address(d, scheme);
    }
}

/// Whether no part at or behind `k` names an address for `scheme`.
pub open spec fn unnamed_from(parts: Seq<Seq<char>>, k: int, scheme: Seq<char>) -> bool {
    forall|j: int|
        k <= j < parts.len() ==> !names_scheme(#[trigger] parts[j], scheme)
}

/// Of the parts of an address with schemes, the last that names an address for a scheme serves that
/// scheme; a scheme that no part names is not served.
pub proof fn law_schemes_have_their_own_addresses(
    parts: Seq<Seq<char>>,
    k: int,
    address: Seq<char>,
)
    requires
        parts.len() > 0,
        0 <= k < parts.len(),
        forall|i: int| 0 <= i < parts.len() ==> !(#[trigger] parts[i]).contains(';'),
        join_of(parts, seq![';']).contains('='),
    ensures
        ({
            let r = proxy_addresses(join_of(parts, seq![';']));
            &&& scheme_part(parts[k]) == Some(("http"@, address)) && unnamed_from(
                parts,
                k + 1,
                "http"@,
            ) ==> r.0 == Some(address)
            &&& scheme_part(parts[k]) == Some(("https"@, address)) && unnamed_from(
                parts,
                k + 1,
                "https"@,
            ) ==> r.1 == Some(address)
            &&& unnamed_from(parts, 0, "http"@) ==> r.0 is None
            &&& unnamed_from(parts, 0, "https"@) ==> r.1 is None
        }),
{
    lemma_split_join(parts, ';');
    if scheme_part(parts[k]) == Some(("http"@, address)) && unnamed_from(parts, k + 1, "http"@) {
        lemma_address(parts, k, "http"@, address);
    }
    if scheme_part(parts[k]) == Some(("https"@, address)) && unnamed_from(parts, k + 1, "https"@) {
        lemma_address(parts, k, "https"@, address);
    }
    if unnamed_from(parts, 0, "http"@) {
        lemma_no_address(parts, "http"@);
    }
    if unnamed_from(parts, 0, "https"@) {
        lemma_no_address(parts, "https"@);
    }
}

/// An address is taken as one of HTTP where it names no scheme, and stays as it is where it does,
/// without the white space round it. An empty one is none.
pub proof fn law_address_gets_a_scheme(a: Seq<char>, s: Seq<char>, b: Seq<char>)
    requires
        all_stripped(a, Strip::Space),
        all_stripped(b, Strip::Space),
        is_trimmed(s),
    ensures
        s.len() == 0 <==> proxy_url(a + s + b) is None,
        s.len() > 0 && has_sub(s, "://"@) ==> proxy_url(a + s + b) == Some(s),
        s.len() > 0 && !has_sub(s, "://"@) ==> proxy_url(a + s + b) == Some("http://"@ + s),
{
    law_strip_takes_off_what_stands_round(a, s, b, Strip::Space);
}

/// Whether `env` gives the variable `name` the value `value`.
pub open spec fn gives(
    env: Seq<(Seq<char>, Seq<char>)>,
    name: Seq<char>,
    value: Seq<char>,
) -> bool {
    env.contains((name, value))
}

proof fn lemma_env(server: Seq<char>)
    ensures
        ({
            let (http, https) = proxy_addresses(server);
            let all = url_for_all(http, https);
            let env = proxy_env(server);
            let npm = npm_env(true, server);
            http is Some || https is Some ==> {
                &&& url_of(http) is Some ==> gives(env, "HTTP_PROXY"@, url_of(http)->0) && gives(
                    env,
                    "http_proxy"@,
                    url_of(http)->0,
                )
                &&& url_of(https) is Some ==> gives(env, "HTTPS_PROXY"@, url_of(https)->0) && gives(
                    env,
                    "https_proxy"@,
                    url_of(https)->0,
                )
                &&& all is Some ==> gives(env, "ALL_PROXY"@, all->0)
                &&& gives(env, "NO_PROXY"@, "127.0.0.1,localhost,::1"@)
                &&& gives(env, "no_proxy"@, "127.0.0.1,localhost,::1"@)
                &&& all is Some ==> gives(npm, "npm_config_proxy"@, all->0) && gives(
                    npm,
                    "npm_config_https_proxy"@,
                    all->0,
                )
                &&& forall|i: int| 0 <= i < env.len() ==> npm.contains(#[trigger] env[i])
            }
        }),
{
    let (http, https) = proxy_addresses(server);
    let env = proxy_env(server);
    let npm = npm_env(true, server);
    if http is Some || https is Some {
        let a: int = if url_of(http) is Some {
            2
        } else {
            0
        };
        let b: int = if url_of(https) is Some {
            2
        } else {
            0
        };
        let c: int = if url_for_all(http, https) is Some {
            1
        } else {
            0
        };
        if url_of(http) is Some {
            assert(env[0] == ("HTTP_PROXY"@, url_of(http)->0));
            assert(env[1] == ("http_proxy"@, url_of(http)->0));
        }
        if url_of(https) is Some {
            assert(env[a] == ("HTTPS_PROXY"@, url_of(https)->0));
            assert(env[a + 1] == ("https_proxy"@, url_of(https)->0));
        }
        if url_for_all(http, https) is Some {
            assert(env[a + b] == ("ALL_PROXY"@, url_for_all(http, https)->0));
        }
        assert(env[a + b + c] == ("NO_PROXY"@, "127.0.0.1,localhost,::1"@));
        assert(env[a + b + c + 1] == ("no_proxy"@, "127.0.0.1,localhost,::1"@));
        let n = env.len() as int;
        if url_for_all(http, https) is Some {
            assert(npm[n] == ("npm_config_proxy"@, url_for_all(http, https)->0));
            assert(npm[n + 1] == ("npm_config_https_proxy"@, url_for_all(http, https)->0));
        }
        assert forall|i: int| 0 <= i < env.len() implies npm.contains(#[trigger] env[i]) by {
            assert(npm[i] == env[i]);
        }
    }
}

/// Where the address of a scheme is known, its two variables give it; the variable for all schemes
/// gives that of HTTP, or that of HTTPS where HTTP has none; and the machine itself is always left
/// out. For npm its own two variables give the address for all schemes besides. Without an address
/// there are no variables.
pub proof fn law_variables_give_the_addresses(server: Seq<char>)
    ensures
        ({
            let r = proxy_addresses(server);
            let env = proxy_env(server);
            let npm = npm_env(true, server);
            &&& r.0 is None && r.1 is None <==> env.len() == 0
            &&& r.0 is None && r.1 is None <==> npm.len() == 0
            &&& r.0 is Some && proxy_url(r.0->0) is Some ==> {
                let u = proxy_url(r.0->0)->0;
                &&& gives(env, "HTTP_PROXY"@, u) && gives(env, "http_proxy"@, u)
                &&& gives(env, "ALL_PROXY"@, u)
                &&& gives(npm, "npm_config_proxy"@, u) && gives(npm, "npm_config_https_proxy"@, u)
            }
            &&& r.1 is Some && proxy_url(r.1->0) is Some ==> {
                let u = proxy_url(r.1->0)->0;
                &&& gives(env, "HTTPS_PROXY"@, u) && gives(env, "https_proxy"@, u)
                &&& r.0 is None ==> gives(env, "ALL_PROXY"@, u) && gives(
                    npm,
                    "npm_config_proxy"@,
                    u,
                ) && gives(npm, "npm_config_https_proxy"@, u)
            }
            &&& env.len() > 0 ==> gives(env, "NO_PROXY"@, "127.0.0.1,localhost,::1"@) && gives(
                env,
                "no_proxy"@,
                "127.0.0.1,localhost,::1"@,
            )
            &&& forall|i: int| 0 <= i < env.len() ==> npm.contains(#[trigger] env[i])
        }),
        switched_env(true, server) == proxy_env(server),
        switched_env(false, server).len() == 0,
        npm_env(false, server).len() == 0,
{
    lemma_env(server);
}

} // verus!
