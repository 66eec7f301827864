//! What holds of plugins: where the values of a listed plugin come from, which names are taken, and
//! which plugins the registry knows.

use crate::json::{field, json_text, text_field, JsonTree};
use crate::patch::{insert_ids, rows_of};
use crate::plugins::{
    asked_version, bare_name, builtin_of, builtins_of, bundles_of, dep_names, deps_of, has_blank,
    has_shell_char, installed_fault, last_char, name_fault, on_drive, patch_path, pkg_known,
    pkg_opt, plugin_list, plugins_told, registry_spec, shell_char, texts_of, PkgInfo,
};
use crate::text::{
    byte_len, drop_front, has_sub, is_ctrl, is_space, lines_of, stands_at, strips, trim_of, Strip,
};
use crate::text_laws::{all_stripped, law_strip_takes_off_what_stands_round, lemma_front_padded};
use vstd::prelude::*;

verus! {

/// The document of a package names a patch file under `dsh`, `bundle`, `patch`.
pub open spec fn names_patch(t: JsonTree, patch: JsonTree) -> bool {
    exists|d: JsonTree, b: JsonTree|
        field(t, "dsh"@) == Some(d) && #[trigger] field(d, "bundle"@) == Some(b) && #[trigger] field(
            b,
            "patch"@,
        ) == Some(patch)
}

/// A dependency is listed in the order of the manifest, under its name, with what the manifest asks
/// for. Its version and description are those that the package's own document tells, it is a layer of
/// the profile if and only if that document names a patch file, and its entries are those that this
/// file inserts.
pub proof fn law_listed_plugin_tells_of_its_package(
    deps: Seq<(Seq<char>, Seq<char>)>,
    bundles: Seq<Seq<char>>,
    known: Seq<Option<PkgInfo>>,
    builtin: Seq<(String, String)>,
    off: Seq<Seq<char>>,
    i: int,
    t: JsonTree,
    content: Option<String>,
    patch: Option<String>,
)
    requires
        0 <= i < deps.len(),
        installed_fault(deps[i].0) is None,
        content is Some,
        json_text(content->0@) == Some(t),
        pkg_opt(known[i]) == pkg_known(deps[i].0, content, patch),
    ensures
        ({
            let p = plugin_list(deps, bundles, known, builtin, off)[i];
            &&& p.name == deps[i].0
            &&& p.spec_text == deps[i].1
            &&& p.version == text_field(t, "version"@)
            &&& p.description == text_field(t, "description"@)
            &&& p.is_bundle <==> exists|f: JsonTree| names_patch(t, f)
            &&& !p.is_builtin
            &&& patch is Some && (exists|f: JsonTree| names_patch(t, f) && f is Text) ==> p.entry_ids
                == insert_ids(rows_of(lines_of(patch->0@)), None)
            &&& patch is None || !(exists|f: JsonTree| names_patch(t, f) && f is Text)
                ==> p.entry_ids.len() == 0
        }),
{
    let p = plugin_list(deps, bundles, known, builtin, off)[i];
    let f = crate::plugins::patch_field(t);
    if f is Some {
        let d = field(t, "dsh"@)->0;
        let b = field(d, "bundle"@)->0;
        assert(field(d, "bundle"@) == Some(b) && field(b, "patch"@) == Some(f->0));
        assert(names_patch(t, f->0));
    }
    assert forall|g: JsonTree| #[trigger] names_patch(t, g) implies f == Some(g) by {}
}

/// A dependency is in use if and only if the profile lists it as a layer; one that is a layer but
/// not listed is told to be out of use, and of one that is none nothing is told. It is told as
/// disabled if and only if one of its entries is.
pub proof fn law_listed_plugin_tells_how_it_is_used(
    deps: Seq<(Seq<char>, Seq<char>)>,
    bundles: Seq<Seq<char>>,
    known: Seq<Option<PkgInfo>>,
    builtin: Seq<(String, String)>,
    off: Seq<Seq<char>>,
    i: int,
)
    requires
        0 <= i < deps.len(),
    ensures
        ({
            let p = plugin_list(deps, bundles, known, builtin, off)[i];
            &&& p.enabled == Some(true) <==> bundles.contains(deps[i].0)
            &&& p.enabled == Some(false) <==> !bundles.contains(deps[i].0) && p.is_bundle
            &&& p.patch_disabled <==> exists|k: int|
                0 <= k < p.entry_ids.len() && off.contains(#[trigger] p.entry_ids[k])
            &&& known[i] is None ==> p.version.len() == 0 && p.description.len() == 0
                && !p.is_bundle && p.entry_ids.len() == 0
            &&& known[i] is Some ==> p.is_bundle == known[i]->0.is_bundle && p.version
                == known[i]->0.version@ && p.description == known[i]->0.description@ && p.entry_ids
                == crate::text::views(known[i]->0.entry_ids@)
        }),
{
}

/// Behind the dependencies come the layers of the profile that are none of them, each with its own
/// version and description, in use and not to be disabled.
pub proof fn law_other_layers_come_behind(
    deps: Seq<(Seq<char>, Seq<char>)>,
    bundles: Seq<Seq<char>>,
    known: Seq<Option<PkgInfo>>,
    builtin: Seq<(String, String)>,
    off: Seq<Seq<char>>,
    j: int,
)
    ensures
        ({
            let names = builtins_of(bundles, dep_names(deps));
            let list = plugin_list(deps, bundles, known, builtin, off);
            &&& list.len() == deps.len() + names.len()
            &&& 0 <= j < names.len() ==> {
                let p = list[deps.len() + j];
                &&& p.name == names[j]
                &&& p.version == builtin[j].0@
                &&& p.description == builtin[j].1@
                &&& p.spec_text.len() == 0 && p.entry_ids.len() == 0
                &&& p.is_bundle && p.is_builtin && !p.patch_disabled
                &&& p.enabled == Some(true)
            }
        }),
{
}

/// The layers that are no dependencies stay in the order of the profile.
pub proof fn law_other_layers_one_by_one(
    a: Seq<Seq<char>>,
    x: Seq<char>,
    b: Seq<Seq<char>>,
    names: Seq<Seq<char>>,
)
    ensures
        builtins_of(a + b, names) == builtins_of(a, names) + builtins_of(b, names),
        builtins_of(seq![x], names) == if names.contains(x) {
            Seq::empty()
        } else {
            seq![x]
        },
    decreases b.len(),
{
    let none = Seq::<Seq<char>>::empty();
    assert(builtins_of(none, names) =~= none);
    assert(seq![x].drop_last() =~= none);
    assert(none.push(x) =~= seq![x]);
    if b.len() == 0 {
        assert(a + b =~= a);
        assert(builtins_of(a, names) + builtins_of(b, names) =~= builtins_of(a, names));
    } else {
        assert((a + b).drop_last() =~= a + b.drop_last());
        law_other_layers_one_by_one(a, x, b.drop_last(), names);
        assert(builtins_of(a + b, names) =~= builtins_of(a, names) + builtins_of(b, names));
    }
}

/// The dependencies of a manifest are the fields under `dependencies`, in their order, each with
/// its text; a value that is no text counts as empty. The layers are the texts in the list under
/// `dsh`, `profile`, `bundles`.
pub proof fn law_manifest_is_read_field_by_field(
    t: JsonTree,
    fields: Seq<(Seq<char>, JsonTree)>,
    i: int,
    d: JsonTree,
    p: JsonTree,
    list: Seq<JsonTree>,
)
    ensures
        field(t, "dependencies"@) == Some(JsonTree::Object(fields)) ==> deps_of(t).len()
            == fields.len() && (0 <= i < fields.len() ==> deps_of(t)[i].0 == fields[i].0 && (
        fields[i].1 is Text ==> deps_of(t)[i].1 == fields[i].1->Text_0) && (!(fields[i].1 is Text)
            ==> deps_of(t)[i].1.len() == 0)),
        field(t, "dependencies"@) is None ==> deps_of(t).len() == 0,
        field(t, "dsh"@) == Some(d) && field(d, "profile"@) == Some(p) && field(p, "bundles"@) == Some(
            JsonTree::List(list),
        ) ==> bundles_of(t) == texts_of(list),
        field(t, "dsh"@) is None ==> bundles_of(t).len() == 0,
{
}

/// The texts in a list are taken in their order, and everything else is passed over.
pub proof fn law_texts_are_taken_one_by_one(
    a: Seq<JsonTree>,
    x: JsonTree,
    b: Seq<JsonTree>,
)
    ensures
        texts_of(a + b) == texts_of(a) + texts_of(b),
        texts_of(seq![x]) == if x is Text {
            seq![x->Text_0]
        } else {
            Seq::empty()
        },
    decreases b.len(),
{
    let none = Seq::<JsonTree>::empty();
    assert(texts_of(none) =~= Seq::empty());
    assert(seq![x].drop_last() =~= none);
    if x is Text {
        assert(Seq::<Seq<char>>::empty().push(x->Text_0) =~= seq![x->Text_0]);
    }
    if b.len() == 0 {
        assert(a + b =~= a);
        assert(texts_of(a) + texts_of(b) =~= texts_of(a));
    } else {
        assert((a + b).drop_last() =~= a + b.drop_last());
        law_texts_are_taken_one_by_one(a, x, b.drop_last());
        assert(texts_of(a + b) =~= texts_of(a) + texts_of(b));
    }
}

/// The version that DSH asks of a part of it is told without the carets and tildes before it.
pub proof fn law_range_marks_are_taken_off(
    t: JsonTree,
    d: JsonTree,
    name: Seq<char>,
    carets: Seq<char>,
    tildes: Seq<char>,
    v: Seq<char>,
)
    requires
        field(t, "dependencies"@) == Some(d),
        field(d, name) == Some(JsonTree::Text(carets + tildes + v)),
        all_stripped(carets, Strip::Only('^')),
        all_stripped(tildes, Strip::Only('~')),
        v.len() > 0 ==> v[0] != '~' && (tildes.len() == 0 ==> v[0] != '^'),
    ensures
        asked_version(t, name) == v,
{
    let s = tildes + v;
    assert(carets + tildes + v =~= carets + s);
    lemma_front_padded(carets, s, Strip::Only('^'));
    if s.len() > 0 {
        if tildes.len() > 0 {
            assert(s[0] == tildes[0]);
            assert(strips(Strip::Only('~'), tildes[0]));
        } else {
            assert(s[0] == v[0]);
        }
    }
    assert(drop_front(s, Strip::Only('^')) == s);
    lemma_front_padded(tildes, v, Strip::Only('~'));
    assert(drop_front(v, Strip::Only('~')) == v);
}

/// A part of DSH is told with the version that DSH asks for, and with its own where DSH asks for
/// none; with the description of the first of its documents that can be read.
pub proof fn law_part_of_dsh_is_told(
    name: Seq<char>,
    dsh: Option<JsonTree>,
    first: Option<JsonTree>,
    second: Option<JsonTree>,
)
    ensures
        ({
            let r = builtin_of(name, dsh, first, second);
            let asked = dsh is Some && asked_version(dsh->0, name).len() > 0;
            &&& asked ==> r.0 == asked_version(dsh->0, name)
            &&& !asked && first is Some ==> r.0 == text_field(first->0, "version"@)
            &&& !asked && first is None && second is Some ==> r.0 == text_field(
                second->0,
                "version"@,
            )
            &&& first is Some ==> r.1 == text_field(first->0, "description"@)
            &&& first is None && second is Some ==> r.1 == text_field(second->0, "description"@)
            &&& first is None && second is None ==> r.1.len() == 0
        }),
{
}

/// The characters that a shell reads in its own way.
pub open spec fn shell_chars() -> Seq<char> {
    seq!['&', '|', '<', '>', '^', '(', ')', '%', '!', ';', '"', '\'', '`']
}

proof fn lemma_shell_char(c: char)
    ensures
        shell_char(c) <==> shell_chars().contains(c),
{
    let v = shell_chars();
    assert(v[0] == '&' && v[1] == '|' && v[2] == '<' && v[3] == '>' && v[4] == '^' && v[5] == '('
        && v[6] == ')' && v[7] == '%' && v[8] == '!' && v[9] == ';' && v[10] == '"' && v[11]
        == '\'' && v[12] == '`');
}

/// A name is taken, white space round it left out, if and only if it is not empty, not over 200
/// bytes long, starts with no hyphen, and holds no white space, no control character and none that
/// a shell reads in its own way. For an installed plugin it also holds no `..`, backslash or colon.
pub proof fn law_names_that_are_taken(a: Seq<char>, n: Seq<char>, b: Seq<char>)
    requires
        all_stripped(a, Strip::Space),
        all_stripped(b, Strip::Space),
        n.len() > 0 ==> !is_space(n[0]) && !is_space(n.last()),
    ensures
        ({
            let good = n.len() > 0 && byte_len(n) <= 200 && n[0] != '-' && forall|i: int|
                0 <= i < n.len() ==> !is_space(#[trigger] n[i]) && !is_ctrl(n[i])
                    && !shell_chars().contains(n[i]);
            let inside = !has_sub(n, ".."@) && !n.contains('\\') && !n.contains(':');
            &&& name_fault(a + n + b) is None <==> good
            &&& installed_fault(a + n + b) is None <==> good && inside
            &&& good && !inside ==> installed_fault(a + n + b) == Some("无效的插件名："@ + n)
            &&& n.len() == 0 ==> name_fault(a + n + b) == Some("请输入要安装的插件包名"@)
            &&& n.len() > 0 && byte_len(n) > 200 ==> name_fault(a + n + b) == Some(
                "包名过长（最多 200 字符）"@,
            )
        }),
{
    law_strip_takes_off_what_stands_round(a, n, b, Strip::Space);
    assert forall|i: int| 0 <= i < n.len() implies shell_char(#[trigger] n[i])
        == shell_chars().contains(n[i]) by {
        lemma_shell_char(n[i]);
    }
    if has_blank(n) {
        let i = choose|i: int| 0 <= i < n.len() && (is_space(#[trigger] n[i]) || is_ctrl(n[i]));
        assert(is_space(n[i]) || is_ctrl(n[i]));
    }
    if has_shell_char(n) {
        let i = choose|i: int| 0 <= i < n.len() && shell_char(#[trigger] n[i]);
        assert(shell_chars().contains(n[i]));
    }
}

proof fn lemma_last_char(s: Seq<char>, c: char)
    ensures
        -1 <= last_char(s, c) < s.len(),
        last_char(s, c) >= 0 ==> s[last_char(s, c)] == c,
        forall|j: int| last_char(s, c) < j < s.len() ==> s[j] != c,
    decreases s.len(),
{
    if s.len() > 0 && s.last() != c {
        let d = s.drop_last();
        lemma_last_char(d, c);
        assert forall|j: int| last_char(s, c) < j < s.len() implies s[j] != c by {
            if j < d.len() {
                assert(d[j] == s[j]);
            }
        }
    }
}

/// A name without a version stays as it is, and so does an address in which a path follows the last
/// `@`.
pub proof fn law_names_without_a_version_stay(s: Seq<char>, head: Seq<char>, tail: Seq<char>)
    requires
        s.len() > 0 ==> !is_space(s[0]) && !is_space(s.last()),
    ensures
        (forall|i: int| 1 <= i < s.len() ==> s[i] != '@') ==> bare_name(s) == s,
        s == head + seq!['@'] + tail && !tail.contains('@') && tail.contains('/') ==> bare_name(s)
            == s,
{
    let none = Seq::<char>::empty();
    law_strip_takes_off_what_stands_round(none, s, none, Strip::Space);
    assert(none + s + none =~= s);
    lemma_last_char(s, '@');
    let i = last_char(s, '@');
    if s == head + seq!['@'] + tail && !tail.contains('@') && tail.contains('/') {
        let h = head.len() as int;
        assert(s[h] == '@');
        assert(i == h) by {
            if i > h {
                assert(tail[i - h - 1] == '@');
                assert(tail.contains('@'));
            }
        }
        assert(s.skip(i + 1) =~= tail);
    }
}

/// What a package is asked for by a path, a workspace or an address is not looked up in the registry;
/// a range of versions, a tag and an alias are.
pub proof fn law_registry_is_asked_for_versions_only(rest: Seq<char>, drive: char)
    requires
        rest.len() > 0,
        !is_space(rest[0]),
        !is_space(rest.last()),
        'a' <= drive <= 'z' || 'A' <= drive <= 'Z',
    ensures
        !registry_spec("file:"@ + rest),
        !registry_spec("link:"@ + rest),
        !registry_spec("portal:"@ + rest),
        !registry_spec("workspace:"@ + rest),
        !registry_spec("bitbucket:"@ + rest),
        !registry_spec("gist:"@ + rest),
        !registry_spec("git"@ + rest),
        !registry_spec("."@ + rest),
        !registry_spec(seq![drive, ':'] + rest),
        rest.contains('\\') ==> !registry_spec(rest),
        has_sub(rest, "://"@) ==> !registry_spec(rest),
        rest.contains('/') && !rest.contains(':') ==> !registry_spec(rest),
        rest[0] != '.' && !"git"@.is_prefix_of(rest) && (forall|i: int|
            0 <= i < rest.len() ==> (#[trigger] rest[i]) != '/' && rest[i] != '\\' && rest[i] != ':')
            ==> registry_spec(rest),
        !rest.contains('\\') && !has_sub("npm:"@ + rest, "://"@) ==> registry_spec("npm:"@ + rest),
{
    reveal_strlit("file:");
    reveal_strlit("link:");
    reveal_strlit("portal:");
    reveal_strlit("workspace:");
    reveal_strlit("bitbucket:");
    reveal_strlit("gist:");
    reveal_strlit("git");
    reveal_strlit(".");
    reveal_strlit("://");
    reveal_strlit("npm:");
    lemma_plain_text(rest);
    lemma_prefixed("file:"@, rest);
    lemma_prefixed("link:"@, rest);
    lemma_prefixed("portal:"@, rest);
    lemma_prefixed("workspace:"@, rest);
    lemma_prefixed("bitbucket:"@, rest);
    lemma_prefixed("gist:"@, rest);
    lemma_prefixed("git"@, rest);
    lemma_prefixed("."@, rest);
    lemma_prefixed(seq![drive, ':'], rest);
    lemma_prefixed("npm:"@, rest);
    assert(on_drive(seq![drive, ':'] + rest));
    if rest[0] != '.' && !"git"@.is_prefix_of(rest) && (forall|i: int|
        0 <= i < rest.len() ==> (#[trigger] rest[i]) != '/' && rest[i] != '\\' && rest[i] != ':') {
        lemma_no_colon_prefix(rest);
    }
    if !rest.contains('\\') && !has_sub("npm:"@ + rest, "://"@) {
        let s = "npm:"@ + rest;
        assert(s[0] == 'n' && s[1] == 'p' && s[3] == ':');
        assert(s.contains(':'));
        lemma_starts_otherwise(s, "file:"@);
        lemma_starts_otherwise(s, "link:"@);
        lemma_starts_otherwise(s, "portal:"@);
        lemma_starts_otherwise(s, "workspace:"@);
        lemma_starts_otherwise(s, "bitbucket:"@);
        lemma_starts_otherwise(s, "gist:"@);
        lemma_starts_otherwise(s, "git"@);
        lemma_starts_otherwise(s, "."@);
        assert(!s.contains('\\')) by {
            if s.contains('\\') {
                let j = choose|j: int| 0 <= j < s.len() && s[j] == '\\';
                assert(rest[j - 4] == '\\');
            }
        }
    }
}

proof fn lemma_plain_text(s: Seq<char>)
    requires
        s.len() > 0,
        !is_space(s[0]),
        !is_space(s.last()),
    ensures
        trim_of(s) == s,
{
    let none = Seq::<char>::empty();
    law_strip_takes_off_what_stands_round(none, s, none, Strip::Space);
    assert(none + s + none =~= s);
}

proof fn lemma_prefixed(p: Seq<char>, rest: Seq<char>)
    requires
        p.len() > 0,
        !is_space(p[0]),
        rest.len() > 0,
        !is_space(rest.last()),
    ensures
        p.is_prefix_of(p + rest),
        trim_of(p + rest) == p + rest,
{
    assert((p + rest).subrange(0, p.len() as int) =~= p);
    assert((p + rest)[0] == p[0]);
    assert((p + rest).last() == rest.last());
    lemma_plain_text(p + rest);
}

proof fn lemma_starts_otherwise(s: Seq<char>, p: Seq<char>)
    requires
        s.len() > 0,
        p.len() > 0,
        s[0] != p[0],
    ensures
        !p.is_prefix_of(s),
{
    if p.is_prefix_of(s) {
        assert(p[0] == s.subrange(0, p.len() as int)[0]);
    }
}

proof fn lemma_no_colon_prefix(s: Seq<char>)
    requires
        s.len() > 0,
        s[0] != '.',
        !"git"@.is_prefix_of(s),
        trim_of(s) == s,
        forall|i: int|
            0 <= i < s.len() ==> (#[trigger] s[i]) != '/' && s[i] != '\\' && s[i] != ':',
    ensures
        registry_spec(s),
{
    reveal_strlit("file:");
    reveal_strlit("link:");
    reveal_strlit("portal:");
    reveal_strlit("workspace:");
    reveal_strlit("bitbucket:");
    reveal_strlit("gist:");
    reveal_strlit(".");
    reveal_strlit("://");
    lemma_without(s, "file:"@, 4);
    lemma_without(s, "link:"@, 4);
    lemma_without(s, "portal:"@, 6);
    lemma_without(s, "workspace:"@, 9);
    lemma_without(s, "bitbucket:"@, 9);
    lemma_without(s, "gist:"@, 4);
    lemma_starts_otherwise(s, "."@);
    assert(!has_sub(s, "://"@)) by {
        if has_sub(s, "://"@) {
            let i = choose|i: int| stands_at(s, "://"@, i);
            assert(s.subrange(i, i + 3)[0] == ':');
            assert(s[i] == ':');
        }
    }
    assert(!s.contains('\\'));
    assert(!s.contains('/'));
}

proof fn lemma_without(s: Seq<char>, p: Seq<char>, k: int)
    requires
        0 <= k < p.len(),
        p[k] == ':',
        forall|i: int| 0 <= i < s.len() ==> (#[trigger] s[i]) != ':',
    ensures
        !p.is_prefix_of(s),
{
    if p.is_prefix_of(s) {
        assert(p[k] == s.subrange(0, p.len() as int)[k]);
        assert(s[k] == ':');
    }
}

/// Of a package whose name is not taken, or whose document cannot be read, nothing is known.
pub proof fn law_unreadable_package_is_unknown(
    name: Seq<char>,
    content: Option<String>,
    patch: Option<String>,
)
    ensures
        pkg_known(name, content, patch) is Some <==> installed_fault(name) is None && content is Some
            && json_text(content->0@) is Some,
{
}

/// A dependency is told as disabled if and only if the patch file of the profile disables one of the
/// entries that its package inserts; everything else about it is told whatever that file holds.
pub proof fn law_patch_file_disables_plugins(
    deps: Seq<(Seq<char>, Seq<char>)>,
    bundles: Seq<Seq<char>>,
    known: Seq<Option<PkgInfo>>,
    builtin: Seq<(String, String)>,
    patch: Seq<char>,
    off: Seq<Seq<char>>,
    i: int,
)
    requires
        0 <= i < deps.len(),
        known[i] is Some,
    ensures
        ({
            let p = plugins_told(deps, bundles, known, builtin, patch)[i];
            let q = plugin_list(deps, bundles, known, builtin, off)[i];
            let ids = crate::text::views(known[i]->0.entry_ids@);
            &&& p.patch_disabled <==> exists|k: int|
                0 <= k < ids.len() && crate::patch_laws::off_ids(patch).contains(#[trigger] ids[k])
            &&& p.name == q.name && p.version == q.version && p.enabled == q.enabled && p.entry_ids
                == q.entry_ids
            &&& plugins_told(deps, bundles, known, builtin, patch).len() == plugin_list(
                deps,
                bundles,
                known,
                builtin,
                off,
            ).len()
        }),
{
}

/// A patch file is read only of a package whose name is taken, and only where the package's own
/// document names it by a text.
pub proof fn law_patch_file_is_the_named_one(
    name: Seq<char>,
    content: Option<String>,
    s: Seq<char>,
)
    ensures
        patch_path(name, content) == Some(s) <==> installed_fault(name) is None && content is Some
            && json_text(content->0@) is Some && names_patch(
            json_text(content->0@)->0,
            JsonTree::Text(s),
        ),
{
    if content is Some && json_text(content->0@) is Some {
        let t = json_text(content->0@)->0;
        let f = crate::plugins::patch_field(t);
        if f is Some {
            let d = field(t, "dsh"@)->0;
            let b = field(d, "bundle"@)->0;
            assert(field(d, "bundle"@) == Some(b) && field(b, "patch"@) == Some(f->0));
            assert(names_patch(t, f->0));
        }
    }
}

} // verus!
