//! The plugins of a profile: their names, what is installed, and the list of them.
//!
//! A plugin is a dependency of the profile. A package that declares `dsh.bundle.patch` is a layer
//! of the profile, and the profile's `dsh.profile.bundles` names the layers that are in use.

use crate::json::{
    as_text, field, get, json_text, lemma_field_trees, lemma_trees, parse, text, text_field,
    text_of_field, tree, trees, field_trees, Json, JsonTree,
};
use crate::patch::{disabled_ids, extract_insert_ids, insert_ids, read_disabled_ids, rows_of};
use crate::path::{join_path, joined};
use crate::text::{
    bytes_in, byte_len, chars_of, control, copy_list, has_sub, holds, holds_char, is_ctrl, is_space,
    lines_of, list_has, opt_view, part, same, starts, strip_front, trim, trim_of, drop_front, views,
    white_space, Strip,
};
use vstd::prelude::*;

verus! {

/// The position of the last `c` in `s`, or -1.
pub open spec fn last_char(s: Seq<char>, c: char) -> int
    decreases s.len(),
{
    if s.len() == 0 {
        -1
    } else if s.last() == c {
        s.len() - 1
    } else {
        last_char(s.drop_last(), c)
    }
}

/// The name of a package without the version behind it. What is no name with a version, a path or
/// an address, stays as it is.
pub open spec fn bare_name(spec_text: Seq<char>) -> Seq<char> {
    let s = trim_of(spec_text);
    let i = last_char(s, '@');
    if i > 0 && !s.skip(i + 1).contains('/') && (s[0] == '@' || !s.take(i).contains('/')) {
        s.take(i)
    } else {
        s
    }
}

/// The name of a package without the version behind it: `@scope/name@1.0.0` is `@scope/name`.
pub fn bare_pkg_name(spec_text: &str) -> (r: &str)
    ensures
        r@ == bare_name(spec_text@),
{
    let s = trim(spec_text);
    let cs = chars_of(s);
    let mut i: usize = cs.len();
    proof {
        assert(s@.take(s@.len() as int) =~= s@);
    }
    while i > 0 && cs[i - 1] != '@'
        invariant
            cs@ == s@,
            i <= cs@.len(),
            last_char(s@, '@') == last_char(s@.take(i as int), '@'),
        decreases i,
    {
        proof {
            assert(s@.take(i as int).drop_last() =~= s@.take(i - 1));
        }
        i -= 1;
    }
    if i <= 1 {
        proof {
            if i == 1 {
                assert(s@.take(1).last() == '@');
            }
        }
        return s;
    }
    proof {
        assert(s@.take(i as int).last() == '@');
    }
    let head = part(s, 0, i - 1);
    let behind = part(s, i, cs.len());
    proof {
        assert(head@ =~= s@.take(i - 1));
        assert(behind@ =~= s@.skip(i as int));
    }
    if !holds_char(behind, '/') && (cs[0] == '@' || !holds_char(head, '/')) {
        head
    } else {
        s
    }
}

proof fn lemma_last_char(s: Seq<char>, c: char, n: int)
    requires
        0 <= n < s.len(),
        s[n] == c,
        forall|j: int| n < j < s.len() ==> s[j] != c,
    ensures
        last_char(s, c) == n,
    decreases s.len(),
{
    if n < s.len() - 1 {
        assert(s.last() == s[s.len() - 1]);
        lemma_last_char(s.drop_last(), c, n);
    }
}

/// A version behind a name is taken off.
pub proof fn law_version_is_taken_off(name: Seq<char>, version: Seq<char>)
    requires
        name.len() > 0,
        !is_space(name[0]),
        name[0] == '@' || !name.contains('/'),
        !version.contains('@'),
        !version.contains('/'),
        version.len() > 0 ==> !is_space(version.last()),
    ensures
        bare_name(name + seq!['@'] + version) == name,
{
    let s = name + seq!['@'] + version;
    assert(s[0] == name[0]);
    assert(s.last() == if version.len() > 0 {
        version.last()
    } else {
        '@'
    });
    crate::text_laws::lemma_untrimmed(s, Strip::Space);
    let n = name.len() as int;
    assert forall|j: int| n < j < s.len() implies s[j] != '@' by {
        assert(s[j] == version[j - n - 1]);
        assert(version.contains(version[j - n - 1]));
    }
    lemma_last_char(s, '@', n);
    assert(s.take(n) =~= name);
    assert(s.skip(n + 1) =~= version);
}

/// Whether a character could be read as more than itself by a shell.
pub open spec fn shell_char(c: char) -> bool {
    c == '&' || c == '|' || c == '<' || c == '>' || c == '^' || c == '(' || c == ')' || c == '%' || c
        == '!' || c == ';' || c == '"' || c == '\'' || c == '`'
}

/// Whether a text holds a blank or a control character.
pub open spec fn has_blank(s: Seq<char>) -> bool {
    exists|i: int| 0 <= i < s.len() && (is_space(#[trigger] s[i]) || is_ctrl(s[i]))
}

/// Whether a text holds a character that a shell could read as more than itself.
pub open spec fn has_shell_char(s: Seq<char>) -> bool {
    exists|i: int| 0 <= i < s.len() && shell_char(#[trigger] s[i])
}

/// What is wrong with the name of a plugin.
pub open spec fn name_fault(name: Seq<char>) -> Option<Seq<char>> {
    let n = trim_of(name);
    if n.len() == 0 {
        Some("请输入要安装的插件包名"@)
    } else if byte_len(n) > 200 {
        Some("包名过长（最多 200 字符）"@)
    } else if n[0] == '-' {
        Some("包名不能以 - 开头"@)
    } else if has_blank(n) {
        Some("包名包含非法字符（空格 / 控制符）"@)
    } else if has_shell_char(n) {
        Some("包名包含不安全的 shell 字符"@)
    } else {
        None
    }
}

/// What is wrong with the name of an installed plugin, which becomes a part of a path.
pub open spec fn installed_fault(name: Seq<char>) -> Option<Seq<char>> {
    let n = trim_of(name);
    if name_fault(name) is Some {
        name_fault(name)
    } else if has_sub(n, ".."@) || n.contains('\\') || n.contains(':') {
        Some("无效的插件名："@ + n)
    } else {
        None
    }
}

fn blank_in(s: &str) -> (r: bool)
    ensures
        r == has_blank(s@),
{
    let cs = chars_of(s);
    let mut i: usize = 0;
    while i < cs.len()
        invariant
            cs@ == s@,
            i <= cs@.len(),
            forall|k: int| 0 <= k < i ==> !is_space(#[trigger] cs@[k]) && !is_ctrl(cs@[k]),
        decreases cs@.len() - i,
    {
        if white_space(cs[i]) || control(cs[i]) {
            proof {
                assert(is_space(s@[i as int]) || is_ctrl(s@[i as int]));
            }
            return true;
        }
        i += 1;
    }
    false
}

fn shell_in(s: &str) -> (r: bool)
    ensures
        r == has_shell_char(s@),
{
    let cs = chars_of(s);
    let mut i: usize = 0;
    while i < cs.len()
        invariant
            cs@ == s@,
            i <= cs@.len(),
            forall|k: int| 0 <= k < i ==> !shell_char(#[trigger] cs@[k]),
        decreases cs@.len() - i,
    {
        let c = cs[i];
        if c == '&' || c == '|' || c == '<' || c == '>' || c == '^' || c == '(' || c == ')' || c
            == '%' || c == '!' || c == ';' || c == '"' || c == '\'' || c == '`' {
            proof {
                assert(shell_char(s@[i as int]));
            }
            return true;
        }
        i += 1;
    }
    false
}

/// Whether `name` can be the name of a plugin to install.
pub fn validate_plugin_name(name: &str) -> (r: Result<(), String>)
    ensures
        match r {
            Ok(_) => name_fault(name@) is None,
            Err(m) => name_fault(name@) == Some(m@),
        },
{
    let n = trim(name);
    if n.is_empty() {
        return Err("请输入要安装的插件包名".to_owned());
    }
    if bytes_in(n) > 200 {
        return Err("包名过长（最多 200 字符）".to_owned());
    }
    if n.get_char(0) == '-' {
        return Err("包名不能以 - 开头".to_owned());
    }
    if blank_in(n) {
        return Err("包名包含非法字符（空格 / 控制符）".to_owned());
    }
    if shell_in(n) {
        return Err("包名包含不安全的 shell 字符".to_owned());
    }
    Ok(())
}

/// Whether `name` can be the name of an installed plugin.
pub fn validate_installed_name(name: &str) -> (r: Result<(), String>)
    ensures
        match r {
            Ok(_) => installed_fault(name@) is None,
            Err(m) => installed_fault(name@) == Some(m@),
        },
{
    match validate_plugin_name(name) {
        Ok(_) => {},
        Err(m) => {
            return Err(m);
        },
    }
    let n = trim(name);
    if holds(n, "..") || holds_char(n, '\\') || holds_char(n, ':') {
        return Err("无效的插件名：".to_owned().concat(n));
    }
    Ok(())
}

/// Whether a path starts with a drive: a letter and a colon.
pub open spec fn on_drive(s: Seq<char>) -> bool {
    s.len() >= 2 && s[1] == ':' && ('a' <= s[0] <= 'z' || 'A' <= s[0] <= 'Z')
}

/// Whether a dependency is a directory or a file here: it says so, or it is a path.
pub open spec fn local_spec(s: Seq<char>) -> bool {
    ||| "file:"@.is_prefix_of(s) || "link:"@.is_prefix_of(s) || "portal:"@.is_prefix_of(s)
    ||| "workspace:"@.is_prefix_of(s)
    ||| "."@.is_prefix_of(s) || s.contains('\\') || on_drive(s)
}

/// Whether a dependency comes from a repository or from an address.
pub open spec fn remote_spec(s: Seq<char>) -> bool {
    ||| "git"@.is_prefix_of(s) || "bitbucket:"@.is_prefix_of(s) || "gist:"@.is_prefix_of(s)
    ||| has_sub(s, "://"@)
}

/// Whether a dependency comes from the registry, so that its newest version can be asked for. A
/// slash stands in a path or in the name of a repository, unless a scheme such as `npm:` comes
/// before it.
pub open spec fn registry_spec(spec_text: Seq<char>) -> bool {
    let s = trim_of(spec_text);
    !local_spec(s) && !remote_spec(s) && (s.contains(':') || !s.contains('/'))
}

fn starts_with_drive(s: &str) -> (r: bool)
    ensures
        r == on_drive(s@),
{
    let cs = chars_of(s);
    cs.len() >= 2 && cs[1] == ':' && ('a' <= cs[0] && cs[0] <= 'z' || 'A' <= cs[0] && cs[0] <= 'Z')
}

/// Whether a dependency comes from the registry.
pub fn is_registry_spec(spec_text: &str) -> (r: bool)
    ensures
        r == registry_spec(spec_text@),
{
    let s = trim(spec_text);
    let local = starts(s, "file:") || starts(s, "link:") || starts(s, "portal:") || starts(
        s,
        "workspace:",
    ) || starts(s, ".") || holds_char(s, '\\') || starts_with_drive(s);
    let remote = starts(s, "git") || starts(s, "bitbucket:") || starts(s, "gist:") || holds(
        s,
        "://",
    );
    !local && !remote && (holds_char(s, ':') || !holds_char(s, '/'))
}

/// The directory of the profile whose plugins are managed.
pub fn profile_dir(home: &str, profile: &str) -> (r: String)
    ensures
        r@ == joined(joined(home@, "profiles"@), profile@),
{
    join_path(join_path(home, "profiles").as_str(), profile)
}

/// What a package's document declares as its patch.
pub open spec fn patch_field(t: JsonTree) -> Option<JsonTree> {
    match field(t, "dsh"@) {
        Some(d) => match field(d, "bundle"@) {
            Some(b) => field(b, "patch"@),
            None => None,
        },
        None => None,
    }
}

fn declared_patch<'a>(j: &'a Json) -> (r: Option<&'a Json>)
    ensures
        match r {
            Some(x) => patch_field(j@) == Some(x@),
            None => patch_field(j@) is None,
        },
{
    match get(j, "dsh") {
        Some(d) => match get(d, "bundle") {
            Some(b) => get(b, "patch"),
            None => None,
        },
        None => None,
    }
}

/// What is known of an installed package.
pub struct PkgInfo {
    /// Its version.
    pub version: String,
    /// Its description.
    pub description: String,
    /// Whether it is a layer of the profile.
    pub is_bundle: bool,
    /// The ids that its patch inserts.
    pub entry_ids: Vec<String>,
}

/// The values of a package.
pub struct PkgView {
    /// Its version.
    pub version: Seq<char>,
    /// Its description.
    pub description: Seq<char>,
    /// Whether it is a layer of the profile.
    pub is_bundle: bool,
    /// The ids that its patch inserts.
    pub entry_ids: Seq<Seq<char>>,
}

impl View for PkgInfo {
    type V = PkgView;

    open spec fn view(&self) -> PkgView {
        PkgView {
            version: self.version@,
            description: self.description@,
            is_bundle: self.is_bundle,
            entry_ids: views(self.entry_ids@),
        }
    }
}

/// The values of a package that may be missing.
pub open spec fn pkg_opt(o: Option<PkgInfo>) -> Option<PkgView> {
    match o {
        Some(p) => Some(p@),
        None => None,
    }
}

/// What a package's document says, `patch` being the text of the patch that it declares.
pub open spec fn pkg_in(t: JsonTree, patch: Option<String>) -> PkgView {
    PkgView {
        version: text_field(t, "version"@),
        description: text_field(t, "description"@),
        is_bundle: patch_field(t) is Some,
        entry_ids: if as_text(patch_field(t)) is Some && patch is Some {
            insert_ids(rows_of(lines_of(patch->0@)), None)
        } else {
            Seq::empty()
        },
    }
}

/// What a package's document says, `patch` being the text of the patch that it declares.
pub fn package_info(j: &Json, patch: &Option<String>) -> (r: PkgInfo)
    ensures
        r@ == pkg_in(j@, *patch),
{
    let declared = declared_patch(j);
    let mut entry_ids: Vec<String> = Vec::new();
    proof {
        assert(views(entry_ids@) =~= Seq::empty());
    }
    match (text(declared), patch) {
        (Some(_), Some(c)) => {
            entry_ids = extract_insert_ids(c.as_str());
        },
        _ => {},
    }
    PkgInfo {
        version: text_of_field(j, "version"),
        description: text_of_field(j, "description"),
        is_bundle: declared.is_some(),
        entry_ids,
    }
}

/// The path of the patch file that the document of an installed package names.
pub open spec fn patch_path(name: Seq<char>, content: Option<String>) -> Option<Seq<char>> {
    if installed_fault(name) is None && content is Some && json_text(content->0@) is Some {
        as_text(patch_field(json_text(content->0@)->0))
    } else {
        None
    }
}

/// The path of the patch that an installed package declares, in its own directory.
pub fn installed_patch(name: &str, content: &Option<String>) -> (r: Option<String>)
    ensures
        opt_view(r) == patch_path(name@, *content),
{
    if validate_installed_name(name).is_err() {
        return None;
    }
    match content {
        Some(c) => match parse(c.as_str()) {
            Some(j) => match text(declared_patch(&j)) {
                Some(s) => Some(s.to_owned()),
                None => None,
            },
            None => None,
        },
        None => None,
    }
}

/// What is known of the installed package `name`, from the text of its package file and of its
/// patch.
pub open spec fn pkg_known(
    name: Seq<char>,
    content: Option<String>,
    patch: Option<String>,
) -> Option<PkgView> {
    if installed_fault(name) is None && content is Some && json_text(content->0@) is Some {
        Some(pkg_in(json_text(content->0@)->0, patch))
    } else {
        None
    }
}

/// What is known of the installed package `name`, from the text of its package file and of its
/// patch.
pub fn installed_pkg_info(name: &str, content: &Option<String>, patch: &Option<String>) -> (r: Option<
    PkgInfo,
>)
    ensures
        pkg_opt(r) == pkg_known(name@, *content, *patch),
{
    if validate_installed_name(name).is_err() {
        return None;
    }
    match content {
        Some(c) => match parse(c.as_str()) {
            Some(j) => Some(package_info(&j, patch)),
            None => None,
        },
        None => None,
    }
}

/// The version that DSH's own document asks of a package, without the sign before it.
pub open spec fn asked_version(t: JsonTree, name: Seq<char>) -> Seq<char> {
    match field(t, "dependencies"@) {
        Some(d) => match as_text(field(d, name)) {
            Some(s) => drop_front(drop_front(s, Strip::Only('^')), Strip::Only('~')),
            None => Seq::empty(),
        },
        None => Seq::empty(),
    }
}

/// What a text of JSON says, where there is one.
pub open spec fn doc_of(content: Option<String>) -> Option<JsonTree> {
    match content {
        Some(c) => json_text(c@),
        None => None,
    }
}

/// The version and the description of a package that comes with DSH.
///
/// The version is the one that DSH's document asks for, else that of the package. The description
/// is that of the first of the two documents of the package that can be read.
pub open spec fn builtin_of(
    name: Seq<char>,
    dsh: Option<JsonTree>,
    first: Option<JsonTree>,
    second: Option<JsonTree>,
) -> (Seq<char>, Seq<char>) {
    let asked = match dsh {
        Some(t) => asked_version(t, name),
        None => Seq::empty(),
    };
    let own = if first is Some {
        first
    } else {
        second
    };
    match own {
        Some(t) => (
            if asked.len() == 0 {
                text_field(t, "version"@)
            } else {
                asked
            },
            text_field(t, "description"@),
        ),
        None => (asked, Seq::empty()),
    }
}

/// The document in a text of JSON, where there is one.
pub fn doc(content: &Option<String>) -> (r: Option<Json>)
    ensures
        match r {
            Some(j) => doc_of(*content) == Some(j@),
            None => doc_of(*content) is None,
        },
{
    match content {
        Some(c) => parse(c.as_str()),
        None => None,
    }
}

/// The documents of a list of options.
pub open spec fn json_opt(o: Option<Json>) -> Option<JsonTree> {
    match o {
        Some(j) => Some(j@),
        None => None,
    }
}

/// The version and the description of a package that comes with DSH, from the documents.
pub fn builtin_in(name: &str, dsh: &Option<Json>, first: &Option<Json>, second: &Option<Json>) -> (r: (
    String,
    String,
))
    ensures
        (r.0@, r.1@) == builtin_of(name@, json_opt(*dsh), json_opt(*first), json_opt(*second)),
{
    let mut version = String::new();
    match dsh {
        Some(j) => match get(j, "dependencies") {
            Some(d) => match text(get(d, name)) {
                Some(s) => {
                    version = strip_front(
                        strip_front(s, Strip::Only('^')),
                        Strip::Only('~'),
                    ).to_owned();
                },
                None => {},
            },
            None => {},
        },
        None => {},
    }
    let own = if first.is_some() {
        first
    } else {
        second
    };
    match own {
        Some(j) => {
            if version.as_str().is_empty() {
                version = text_of_field(j, "version");
            }
            (version, text_of_field(j, "description"))
        },
        None => (version, String::new()),
    }
}

/// The version and the description of a package that comes with DSH, from the texts of DSH's
/// package file and of the two places where its own may stand.
pub fn builtin_pkg_info(
    name: &str,
    dsh: &Option<String>,
    first: &Option<String>,
    second: &Option<String>,
) -> (r: (String, String))
    ensures
        (r.0@, r.1@) == builtin_of(name@, doc_of(*dsh), doc_of(*first), doc_of(*second)),
{
    builtin_in(name, &doc(dsh), &doc(first), &doc(second))
}

/// What a profile's document says about its plugins.
pub struct Manifest {
    /// The dependencies and their specs, in order.
    pub deps: Vec<(String, String)>,
    /// The layers that are in use.
    pub bundles: Vec<String>,
}

/// The names and specs of a list of dependencies.
pub open spec fn dep_views(v: Seq<(String, String)>) -> Seq<(Seq<char>, Seq<char>)> {
    Seq::new(v.len(), |i: int| (v[i].0@, v[i].1@))
}

/// The names in a list of dependencies.
pub open spec fn dep_names(v: Seq<(Seq<char>, Seq<char>)>) -> Seq<Seq<char>> {
    Seq::new(v.len(), |i: int| v[i].0)
}

/// The dependencies that a profile's document declares.
pub open spec fn deps_of(t: JsonTree) -> Seq<(Seq<char>, Seq<char>)> {
    match field(t, "dependencies"@) {
        Some(JsonTree::Object(fields)) => Seq::new(
            fields.len(),
            |i: int|
                (
                    fields[i].0,
                    match as_text(Some(fields[i].1)) {
                        Some(s) => s,
                        None => Seq::empty(),
                    },
                ),
        ),
        _ => Seq::empty(),
    }
}

/// The strings in a list of trees.
pub open spec fn texts_of(s: Seq<JsonTree>) -> Seq<Seq<char>>
    decreases s.len(),
{
    if s.len() == 0 {
        Seq::empty()
    } else {
        match s.last() {
            JsonTree::Text(x) => texts_of(s.drop_last()).push(x),
            _ => texts_of(s.drop_last()),
        }
    }
}

/// The layers that a profile's document names.
pub open spec fn bundles_of(t: JsonTree) -> Seq<Seq<char>> {
    match field(t, "dsh"@) {
        Some(d) => match field(d, "profile"@) {
            Some(p) => match field(p, "bundles"@) {
                Some(JsonTree::List(s)) => texts_of(s),
                _ => Seq::empty(),
            },
            None => Seq::empty(),
        },
        None => Seq::empty(),
    }
}

fn declared_deps(j: &Json) -> (r: Vec<(String, String)>)
    ensures
        dep_views(r@) == deps_of(j@),
{
    let mut out: Vec<(String, String)> = Vec::new();
    proof {
        assert(dep_views(out@) =~= Seq::empty());
    }
    match get(j, "dependencies") {
        Some(d) => match d {
            Json::Object(v) => {
                proof {
                    lemma_field_trees(v@);
                }
                let ghost fields = field_trees(v@);
                let mut i: usize = 0;
                while i < v.len()
                    invariant
                        i <= v@.len(),
                        fields == field_trees(v@),
                        fields.len() == v@.len(),
                        field(j@, "dependencies"@) == Some(JsonTree::Object(fields)),
                        forall|k: int|
                            0 <= k < v@.len() ==> #[trigger] fields[k] == (
                                v@[k].0@,
                                tree(v@[k].1),
                            ),
                        dep_views(out@) == deps_of(j@).take(i as int),
                    decreases v@.len() - i,
                {
                    let value = match text(Some(&v[i].1)) {
                        Some(s) => s.to_owned(),
                        None => String::new(),
                    };
                    let ghost before = out@;
                    out.push((v[i].0.clone(), value));
                    proof {
                        assert(fields[i as int] == (v@[i as int].0@, tree(v@[i as int].1)));
                        let x = deps_of(j@)[i as int];
                        assert(dep_views(out@) =~= dep_views(before).push(
                            (out@.last().0@, out@.last().1@),
                        ));
                        assert((out@.last().0@, out@.last().1@) == x);
                        assert(deps_of(j@).take(i + 1) =~= deps_of(j@).take(i as int).push(x));
                    }
                    i += 1;
                }
                proof {
                    assert(deps_of(j@).take(v@.len() as int) =~= deps_of(j@));
                }
            },
            _ => {},
        },
        None => {},
    }
    out
}

fn declared_bundles(j: &Json) -> (r: Vec<String>)
    ensures
        views(r@) == bundles_of(j@),
{
    let mut out: Vec<String> = Vec::new();
    proof {
        assert(views(out@) =~= Seq::empty());
    }
    let d = match get(j, "dsh") {
        Some(d) => d,
        None => {
            return out;
        },
    };
    let p = match get(d, "profile") {
        Some(p) => p,
        None => {
            return out;
        },
    };
    match get(p, "bundles") {
        Some(b) => match b {
            Json::List(v) => {
                proof {
                    lemma_trees(v@);
                }
                let ghost items = trees(v@);
                let mut i: usize = 0;
                while i < v.len()
                    invariant
                        i <= v@.len(),
                        items == trees(v@),
                        items.len() == v@.len(),
                        forall|k: int| 0 <= k < v@.len() ==> #[trigger] items[k] == tree(v@[k]),
                        views(out@) == texts_of(items.take(i as int)),
                    decreases v@.len() - i,
                {
                    let ghost before = out@;
                    proof {
                        let next = items.take(i + 1);
                        assert(next.drop_last() =~= items.take(i as int));
                        assert(next.last() == items[i as int]);
                        assert(items[i as int] == tree(v@[i as int]));
                    }
                    match text(Some(&v[i])) {
                        Some(s) => {
                            out.push(s.to_owned());
                            proof {
                                assert(views(out@) =~= views(before).push(s@));
                            }
                        },
                        None => {},
                    }
                    i += 1;
                }
                proof {
                    assert(items.take(items.len() as int) =~= items);
                }
            },
            _ => {},
        },
        None => {},
    }
    out
}

/// What a profile's document says about its plugins.
pub fn manifest_of(j: &Json) -> (r: Manifest)
    ensures
        dep_views(r.deps@) == deps_of(j@),
        views(r.bundles@) == bundles_of(j@),
{
    Manifest { deps: declared_deps(j), bundles: declared_bundles(j) }
}

/// What the text of a profile's package file says about its plugins.
pub fn read_manifest(content: &Option<String>) -> (r: Option<Manifest>)
    ensures
        match r {
            Some(m) => doc_of(*content) is Some && dep_views(m.deps@) == deps_of(
                doc_of(*content)->0,
            ) && views(m.bundles@) == bundles_of(doc_of(*content)->0),
            None => doc_of(*content) is None,
        },
{
    match doc(content) {
        Some(j) => Some(manifest_of(&j)),
        None => None,
    }
}

/// Whether `name` is among the dependencies.
pub fn has_dep(deps: &Vec<(String, String)>, name: &str) -> (r: bool)
    ensures
        r == dep_names(dep_views(deps@)).contains(name@),
{
    let mut i: usize = 0;
    while i < deps.len()
        invariant
            i <= deps@.len(),
            forall|k: int| 0 <= k < i ==> dep_names(dep_views(deps@))[k] != name@,
        decreases deps@.len() - i,
    {
        if same(deps[i].0.as_str(), name) {
            proof {
                assert(dep_names(dep_views(deps@))[i as int] == name@);
            }
            return true;
        }
        i += 1;
    }
    false
}

/// The layers in use that are no dependencies: they come with DSH.
pub open spec fn builtins_of(bundles: Seq<Seq<char>>, names: Seq<Seq<char>>) -> Seq<Seq<char>>
    decreases bundles.len(),
{
    if bundles.len() == 0 {
        Seq::empty()
    } else if names.contains(bundles.last()) {
        builtins_of(bundles.drop_last(), names)
    } else {
        builtins_of(bundles.drop_last(), names).push(bundles.last())
    }
}

/// The layers in use that come with DSH.
pub fn builtin_names(m: &Manifest) -> (r: Vec<String>)
    ensures
        views(r@) == builtins_of(views(m.bundles@), dep_names(dep_views(m.deps@))),
{
    let ghost all = views(m.bundles@);
    let ghost names = dep_names(dep_views(m.deps@));
    let mut out: Vec<String> = Vec::new();
    let mut i: usize = 0;
    proof {
        assert(views(out@) =~= Seq::empty());
    }
    while i < m.bundles.len()
        invariant
            i <= m.bundles@.len(),
            all == views(m.bundles@),
            names == dep_names(dep_views(m.deps@)),
            views(out@) == builtins_of(all.take(i as int), names),
        decreases m.bundles@.len() - i,
    {
        let ghost before = out@;
        proof {
            let next = all.take(i + 1);
            assert(next.drop_last() =~= all.take(i as int));
            assert(next.last() == m.bundles@[i as int]@);
        }
        if !has_dep(&m.deps, m.bundles[i].as_str()) {
            out.push(m.bundles[i].clone());
            proof {
                assert(views(out@) =~= views(before).push(m.bundles@[i as int]@));
            }
        }
        i += 1;
    }
    proof {
        assert(all.take(all.len() as int) =~= all);
    }
    out
}

/// A plugin in the list.
pub struct PluginInfo {
    /// Its name.
    pub name: String,
    /// The spec of the dependency, empty for a layer that comes with DSH.
    pub spec_text: String,
    /// The installed version, empty where it is not known.
    pub version: String,
    /// Its description.
    pub description: String,
    /// Whether it is a layer of the profile.
    pub is_bundle: bool,
    /// Whether it comes with DSH.
    pub is_builtin: bool,
    /// Whether the layer is in use; nothing for a plain dependency.
    pub enabled: Option<bool>,
    /// The ids that its patch inserts.
    pub entry_ids: Vec<String>,
    /// Whether the profile's patch disables one of them.
    pub patch_disabled: bool,
}

/// The values of a plugin.
pub struct PluginView {
    /// Its name.
    pub name: Seq<char>,
    /// The spec of the dependency.
    pub spec_text: Seq<char>,
    /// The installed version.
    pub version: Seq<char>,
    /// Its description.
    pub description: Seq<char>,
    /// Whether it is a layer of the profile.
    pub is_bundle: bool,
    /// Whether it comes with DSH.
    pub is_builtin: bool,
    /// Whether the layer is in use.
    pub enabled: Option<bool>,
    /// The ids that its patch inserts.
    pub entry_ids: Seq<Seq<char>>,
    /// Whether the profile's patch disables one of them.
    pub patch_disabled: bool,
}

impl View for PluginInfo {
    type V = PluginView;

    open spec fn view(&self) -> PluginView {
        PluginView {
            name: self.name@,
            spec_text: self.spec_text@,
            version: self.version@,
            description: self.description@,
            is_bundle: self.is_bundle,
            is_builtin: self.is_builtin,
            enabled: self.enabled,
            entry_ids: views(self.entry_ids@),
            patch_disabled: self.patch_disabled,
        }
    }
}

/// The values of a list of plugins.
pub open spec fn plugin_views(v: Seq<PluginInfo>) -> Seq<PluginView> {
    Seq::new(v.len(), |i: int| v[i]@)
}

/// A package of which nothing is known.
pub open spec fn no_pkg() -> PkgView {
    PkgView {
        version: Seq::empty(),
        description: Seq::empty(),
        is_bundle: false,
        entry_ids: Seq::empty(),
    }
}

/// Whether `off` holds one of `ids`.
pub open spec fn any_off(ids: Seq<Seq<char>>, off: Seq<Seq<char>>) -> bool {
    exists|i: int| 0 <= i < ids.len() && off.contains(#[trigger] ids[i])
}

/// A plugin that is a dependency.
pub open spec fn dep_plugin(
    dep: (Seq<char>, Seq<char>),
    known: Option<PkgView>,
    bundles: Seq<Seq<char>>,
    off: Seq<Seq<char>>,
) -> PluginView {
    let p = match known {
        Some(p) => p,
        None => no_pkg(),
    };
    PluginView {
        name: dep.0,
        spec_text: dep.1,
        version: p.version,
        description: p.description,
        is_bundle: p.is_bundle,
        is_builtin: false,
        enabled: if bundles.contains(dep.0) {
            Some(true)
        } else if p.is_bundle {
            Some(false)
        } else {
            None
        },
        entry_ids: p.entry_ids,
        patch_disabled: any_off(p.entry_ids, off),
    }
}

/// A layer that comes with DSH.
pub open spec fn builtin_plugin(name: Seq<char>, version: Seq<char>, description: Seq<char>) -> PluginView {
    PluginView {
        name,
        spec_text: Seq::empty(),
        version,
        description,
        is_bundle: true,
        is_builtin: true,
        enabled: Some(true),
        entry_ids: Seq::empty(),
        patch_disabled: false,
    }
}

/// Whether a list disables one of the ids.
pub fn disables_any(ids: &Vec<String>, off: &Vec<String>) -> (r: bool)
    ensures
        r == any_off(views(ids@), views(off@)),
{
    let mut i: usize = 0;
    while i < ids.len()
        invariant
            i <= ids@.len(),
            forall|k: int| 0 <= k < i ==> !views(off@).contains(#[trigger] views(ids@)[k]),
        decreases ids@.len() - i,
    {
        if list_has(off, ids[i].as_str()) {
            proof {
                assert(views(off@).contains(views(ids@)[i as int]));
            }
            return true;
        }
        i += 1;
    }
    false
}

fn dep_entry(
    dep: &(String, String),
    known: &Option<PkgInfo>,
    bundles: &Vec<String>,
    off: &Vec<String>,
) -> (r: PluginInfo)
    ensures
        r@ == dep_plugin((dep.0@, dep.1@), pkg_opt(*known), views(bundles@), views(off@)),
{
    let in_use = list_has(bundles, dep.0.as_str());
    match known {
        Some(p) => PluginInfo {
            name: dep.0.clone(),
            spec_text: dep.1.clone(),
            version: p.version.clone(),
            description: p.description.clone(),
            is_bundle: p.is_bundle,
            is_builtin: false,
            enabled: if in_use {
                Some(true)
            } else if p.is_bundle {
                Some(false)
            } else {
                None
            },
            entry_ids: copy_list(&p.entry_ids),
            patch_disabled: disables_any(&p.entry_ids, off),
        },
        None => {
            let none: Vec<String> = Vec::new();
            proof {
                assert(views(none@) =~= Seq::empty());
            }
            PluginInfo {
                name: dep.0.clone(),
                spec_text: dep.1.clone(),
                version: String::new(),
                description: String::new(),
                is_bundle: false,
                is_builtin: false,
                enabled: if in_use {
                    Some(true)
                } else {
                    None
                },
                entry_ids: none,
                patch_disabled: false,
            }
        },
    }
}

/// The list of the plugins: the dependencies in the order of the document, then the layers that
/// come with DSH.
pub open spec fn plugin_list(
    deps: Seq<(Seq<char>, Seq<char>)>,
    bundles: Seq<Seq<char>>,
    known: Seq<Option<PkgInfo>>,
    builtin: Seq<(String, String)>,
    off: Seq<Seq<char>>,
) -> Seq<PluginView> {
    let names = builtins_of(bundles, dep_names(deps));
    Seq::new(deps.len(), |i: int| dep_plugin(deps[i], pkg_opt(known[i]), bundles, off)) + Seq::new(
        names.len(),
        |i: int| builtin_plugin(names[i], builtin[i].0@, builtin[i].1@),
    )
}

/// The plugins of a profile whose patch file holds `patch`.
pub open spec fn plugins_told(
    deps: Seq<(Seq<char>, Seq<char>)>,
    bundles: Seq<Seq<char>>,
    known: Seq<Option<PkgInfo>>,
    builtin: Seq<(String, String)>,
    patch: Seq<char>,
) -> Seq<PluginView> {
    plugin_list(deps, bundles, known, builtin, disabled_ids(rows_of(lines_of(patch))))
}

/// The list of the plugins of a profile.
///
/// `known` tells of each dependency what is installed, `builtin` the version and the description
/// of each layer that comes with DSH, and `patch` is the text of the profile's patch file.
pub fn run_plugin_list(
    m: &Manifest,
    known: &Vec<Option<PkgInfo>>,
    builtin: &Vec<(String, String)>,
    patch: &str,
) -> (r: Vec<PluginInfo>)
    requires
        known@.len() == m.deps@.len(),
        builtin@.len() == builtins_of(views(m.bundles@), dep_names(dep_views(m.deps@))).len(),
    ensures
        plugin_views(r@) == plugins_told(
            dep_views(m.deps@),
            views(m.bundles@),
            known@,
            builtin@,
            patch@,
        ),
{
    let off = read_disabled_ids(patch);
    let ghost deps = dep_views(m.deps@);
    let ghost bundles = views(m.bundles@);
    let ghost offv = views(off@);
    let ghost front = Seq::new(
        deps.len(),
        |i: int| dep_plugin(deps[i], pkg_opt(known@[i]), bundles, offv),
    );
    let mut out: Vec<PluginInfo> = Vec::new();
    let mut i: usize = 0;
    while i < m.deps.len()
        invariant
            i <= m.deps@.len(),
            known@.len() == m.deps@.len(),
            deps == dep_views(m.deps@),
            bundles == views(m.bundles@),
            offv == views(off@),
            front == Seq::new(
                deps.len(),
                |i: int| dep_plugin(deps[i], pkg_opt(known@[i]), bundles, offv),
            ),
            plugin_views(out@) == front.take(i as int),
        decreases m.deps@.len() - i,
    {
        let ghost before = out@;
        out.push(dep_entry(&m.deps[i], &known[i], &m.bundles, &off));
        proof {
            assert(plugin_views(out@) =~= plugin_views(before).push(out@.last()@));
            assert(out@.last()@ == front[i as int]);
            assert(front.take(i + 1) =~= front.take(i as int).push(front[i as int]));
        }
        i += 1;
    }
    proof {
        assert(front.take(front.len() as int) =~= front);
    }
    let names = builtin_names(m);
    let ghost nv = views(names@);
    let ghost back = Seq::new(
        nv.len(),
        |i: int| builtin_plugin(nv[i], builtin@[i].0@, builtin@[i].1@),
    );
    let mut k: usize = 0;
    proof {
        assert(front + back.take(0) =~= front);
    }
    while k < names.len()
        invariant
            k <= names@.len(),
            nv == views(names@),
            builtin@.len() == nv.len(),
            back == Seq::new(
                nv.len(),
                |i: int| builtin_plugin(nv[i], builtin@[i].0@, builtin@[i].1@),
            ),
            plugin_views(out@) == front + back.take(k as int),
        decreases names@.len() - k,
    {
        let ghost before = out@;
        let none: Vec<String> = Vec::new();
        proof {
            assert(views(none@) =~= Seq::empty());
        }
        out.push(
            PluginInfo {
                name: names[k].clone(),
                spec_text: String::new(),
                version: builtin[k].0.clone(),
                description: builtin[k].1.clone(),
                is_bundle: true,
                is_builtin: true,
                enabled: Some(true),
                entry_ids: none,
                patch_disabled: false,
            },
        );
        proof {
            assert(plugin_views(out@) =~= plugin_views(before).push(out@.last()@));
            assert(out@.last()@ == back[k as int]);
            assert(front + back.take(k + 1) =~= (front + back.take(k as int)).push(
                back[k as int],
            ));
        }
        k += 1;
    }
    proof {
        assert(back.take(back.len() as int) =~= back);
    }
    out
}

/// The names of a safe plugin's path have no way up and no other root: none of its parts is `..`,
/// and it holds neither a backslash nor a drive.
pub proof fn law_installed_name_stays_below(name: Seq<char>, i: int)
    requires
        installed_fault(name) is None,
        0 <= i < trim_of(name).len(),
    ensures
        !crate::text::stands_at(trim_of(name), ".."@, i),
        trim_of(name)[i] != '\\',
        trim_of(name)[i] != ':',
        !is_space(trim_of(name)[i]),
        !is_ctrl(trim_of(name)[i]),
        !shell_char(trim_of(name)[i]),
{
    let n = trim_of(name);
    assert(n.contains(n[i]));
    assert(!has_blank(n) && !has_shell_char(n));
    assert(!has_sub(n, ".."@));
}

} // verus!
