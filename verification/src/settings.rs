//! The launcher's settings: loading them, changing them, and the start with Windows.

use crate::json::{
    depth, empty_object, field, field_at, fields_depth, fields_whole, is_object, json_pretty,
    json_read, json_text, json_tree, number_value, read_text, set_field, text_value, whole,
    with_field, write_pretty, JsonTree,
};
use crate::numbers::digits_of;
use crate::text::{
    chars_of, control, holds_char, is_ctrl, is_space, lower, lower_of, opt_view, same, starts, trim,
    trim_of, white_space,
};
use serde_json::Value;
use vstd::prelude::*;

verus! {

/// The settings of the launcher.
pub struct Settings {
    /// A directory that may hold an installation of DSH.
    pub junction_path: String,
    /// Another directory that may hold one.
    pub d_drive_path: String,
    /// The port of the web interface.
    pub web_port: u16,
    /// The profile whose plugins are managed.
    pub plugin_profile: String,
    /// The npm registry, empty for the official one.
    pub registry: String,
    /// What closing the window does: `tray` or `quit`.
    pub close_action: String,
}

/// The values of the settings.
pub struct SettingsView {
    /// A directory that may hold an installation of DSH.
    pub junction_path: Seq<char>,
    /// Another directory that may hold one.
    pub d_drive_path: Seq<char>,
    /// The port of the web interface.
    pub web_port: u16,
    /// The profile whose plugins are managed.
    pub plugin_profile: Seq<char>,
    /// The npm registry.
    pub registry: Seq<char>,
    /// What closing the window does.
    pub close_action: Seq<char>,
}

impl View for Settings {
    type V = SettingsView;

    open spec fn view(&self) -> SettingsView {
        SettingsView {
            junction_path: self.junction_path@,
            d_drive_path: self.d_drive_path@,
            web_port: self.web_port,
            plugin_profile: self.plugin_profile@,
            registry: self.registry@,
            close_action: self.close_action@,
        }
    }
}

/// The settings where nothing is set.
pub open spec fn default_settings() -> SettingsView {
    SettingsView {
        junction_path: Seq::empty(),
        d_drive_path: Seq::empty(),
        web_port: 3080,
        plugin_profile: "web"@,
        registry: Seq::empty(),
        close_action: "tray"@,
    }
}

impl Default for Settings {
    fn default() -> (r: Settings)
        ensures
            r@ == default_settings(),
    {
        Settings {
            junction_path: String::new(),
            d_drive_path: String::new(),
            web_port: 3080,
            plugin_profile: "web".to_owned(),
            registry: String::new(),
            close_action: "tray".to_owned(),
        }
    }
}

impl Settings {
    /// The same settings once more.
    pub fn copy(&self) -> (r: Settings)
        ensures
            r@ == self@,
    {
        Settings {
            junction_path: self.junction_path.clone(),
            d_drive_path: self.d_drive_path.clone(),
            web_port: self.web_port,
            plugin_profile: self.plugin_profile.clone(),
            registry: self.registry.clone(),
            close_action: self.close_action.clone(),
        }
    }
}

/// Whether `name` names a directory directly under the profiles, and one that a profile can be.
pub open spec fn profile_name_ok(name: Seq<char>) -> bool {
    let t = trim_of(name);
    &&& t.len() > 0
    &&& t[0] != '.'
    &&& !t.contains('/')
    &&& !t.contains('\\')
    &&& lower_of(t) != "node_modules"@
    &&& forall|i: int| 0 <= i < t.len() ==> !is_ctrl(#[trigger] t[i]) && !is_space(t[i])
}

/// Whether `name` can be the name of a profile.
pub fn valid_profile_name(name: &str) -> (r: bool)
    ensures
        r == profile_name_ok(name@),
{
    let t = trim(name);
    if t.is_empty() || t.get_char(0) == '.' || holds_char(t, '/') || holds_char(t, '\\') {
        return false;
    }
    if same(lower(t).as_str(), "node_modules") {
        return false;
    }
    let cs = chars_of(t);
    let mut i: usize = 0;
    while i < cs.len()
        invariant
            cs@ == t@,
            t@ == trim_of(name@),
            i <= cs@.len(),
            forall|k: int| 0 <= k < i ==> !is_ctrl(#[trigger] cs@[k]) && !is_space(cs@[k]),
        decreases cs@.len() - i,
    {
        if control(cs[i]) || white_space(cs[i]) {
            proof {
                assert(is_ctrl(t@[i as int]) || is_space(t@[i as int]));
            }
            return false;
        }
        i += 1;
    }
    true
}

/// A place where settings may stand, with what was read there.
pub struct Candidate {
    /// The path of the file.
    pub path: String,
    /// The settings in it or what is wrong with it, where it could be read.
    pub parsed: Option<Result<Settings, String>>,
}

/// What is said of a file, beside what was said of one before it.
pub open spec fn told_too(said: Option<Seq<char>>, m: Seq<char>) -> Seq<char> {
    match said {
        Some(e) => e + "；"@ + m,
        None => m,
    }
}

/// The settings that count, and what is said against the files: the first file that can be read
/// and understood decides, and a profile that cannot be one is replaced. What was said of a file
/// before it stays said.
pub open spec fn loaded_from(
    c: Seq<Candidate>,
    i: int,
    said: Option<Seq<char>>,
) -> (SettingsView, Option<Seq<char>>)
    decreases c.len() - i,
{
    if i >= c.len() {
        (default_settings(), said)
    } else {
        match c[i].parsed {
            None => loaded_from(c, i + 1, said),
            Some(Err(e)) => loaded_from(c, i + 1, Some(c[i].path@ + " 解析失败："@ + e@)),
            Some(Ok(s)) => if profile_name_ok(s@.plugin_profile) {
                (s@, said)
            } else {
                (
                    SettingsView { plugin_profile: "web"@, ..s@ },
                    Some(told_too(said, c[i].path@ + " 中的 pluginProfile 无效，已回退为 web"@)),
                )
            },
        }
    }
}

/// The settings that count among those read, and what is said against the files.
pub fn load_settings(candidates: &Vec<Candidate>) -> (r: (Settings, Option<String>))
    ensures
        (r.0@, opt_view(r.1)) == loaded_from(candidates@, 0, None),
{
    let mut said: Option<String> = None;
    let mut i: usize = 0;
    while i < candidates.len()
        invariant
            i <= candidates@.len(),
            loaded_from(candidates@, 0, None) == loaded_from(
                candidates@,
                i as int,
                opt_view(said),
            ),
        decreases candidates@.len() - i,
    {
        let c = &candidates[i];
        match &c.parsed {
            None => {},
            Some(Err(e)) => {
                said = Some(c.path.clone().concat(" 解析失败：").concat(e.as_str()));
            },
            Some(Ok(s)) => {
                let mut out = s.copy();
                if valid_profile_name(s.plugin_profile.as_str()) {
                    return (out, said);
                }
                out.plugin_profile = "web".to_owned();
                let m = c.path.clone().concat(" 中的 pluginProfile 无效，已回退为 web");
                let told = match said {
                    Some(e) => e.concat("；").concat(m.as_str()),
                    None => m,
                };
                return (out, Some(told));
            },
        }
        i += 1;
    }
    (Settings::default(), said)
}

/// The settings in use and what was said against their file.
pub struct SettingsStore {
    /// The settings, once they are loaded.
    pub current: Option<Settings>,
    /// What was said when they were loaded.
    pub load_error: Option<String>,
}

/// The settings in use, if they are loaded.
pub open spec fn in_use(s: SettingsStore) -> Option<SettingsView> {
    match s.current {
        Some(x) => Some(x@),
        None => None,
    }
}

/// The settings in use. The first call takes them from the candidates.
pub fn settings(store: &mut SettingsStore, candidates: &Vec<Candidate>) -> (r: Settings)
    ensures
        in_use(*final(store)) == Some(r@),
        match in_use(*old(store)) {
            Some(s) => r@ == s && final(store).load_error == old(store).load_error,
            None => (r@, opt_view(final(store).load_error)) == loaded_from(candidates@, 0, None),
        },
{
    match &store.current {
        Some(s) => {
            return s.copy();
        },
        None => {},
    }
    let (s, said) = load_settings(candidates);
    store.load_error = said;
    store.current = Some(s.copy());
    s
}

/// What was said against the settings file when it was loaded.
pub fn settings_load_error(store: &SettingsStore) -> (r: Option<String>)
    ensures
        opt_view(r) == opt_view(store.load_error),
{
    match &store.load_error {
        Some(m) => Some(m.clone()),
        None => None,
    }
}

/// The settings that are to change.
pub struct SettingsPatch {
    /// The profile whose plugins are managed.
    pub plugin_profile: Option<String>,
    /// The npm registry.
    pub registry: Option<String>,
    /// What closing the window does.
    pub close_action: Option<String>,
    /// The port of the web interface.
    pub web_port: Option<u16>,
}

/// Whether `r` can be a registry: empty, or an HTTP address.
pub open spec fn registry_ok(r: Seq<char>) -> bool {
    r.len() == 0 || "http://"@.is_prefix_of(r) || "https://"@.is_prefix_of(r)
}

/// Whether `a` is something that closing the window can do.
pub open spec fn close_action_ok(a: Seq<char>) -> bool {
    a == "tray"@ || a == "quit"@
}

/// What is said against a patch: the first value in it that cannot be.
pub open spec fn patch_fault(p: SettingsPatch) -> Option<Seq<char>> {
    if p.plugin_profile is Some && !profile_name_ok(trim_of(p.plugin_profile->0@)) {
        Some("无效的 profile 名称"@)
    } else if p.registry is Some && !registry_ok(trim_of(p.registry->0@)) {
        Some("registry 地址需以 http:// 或 https:// 开头"@)
    } else if p.close_action is Some && !close_action_ok(p.close_action->0@) {
        Some("closeAction 只能是 tray 或 quit"@)
    } else {
        None
    }
}

/// The settings behind a patch.
pub open spec fn patched(s: SettingsView, p: SettingsPatch) -> SettingsView {
    SettingsView {
        plugin_profile: match p.plugin_profile {
            Some(v) => trim_of(v@),
            None => s.plugin_profile,
        },
        registry: match p.registry {
            Some(v) => trim_of(v@),
            None => s.registry,
        },
        close_action: match p.close_action {
            Some(v) => v@,
            None => s.close_action,
        },
        web_port: match p.web_port {
            Some(v) => v,
            None => s.web_port,
        },
        ..s
    }
}

/// Applies a patch, or says what is wrong with it.
pub fn apply_patch(current: &Settings, patch: &SettingsPatch) -> (r: Result<Settings, String>)
    ensures
        match r {
            Ok(s) => patch_fault(*patch) is None && s@ == patched(current@, *patch),
            Err(m) => patch_fault(*patch) == Some(m@),
        },
{
    let mut s = current.copy();
    match &patch.plugin_profile {
        Some(v) => {
            let t = trim(v.as_str());
            if !valid_profile_name(t) {
                return Err("无效的 profile 名称".to_owned());
            }
            s.plugin_profile = t.to_owned();
        },
        None => {},
    }
    match &patch.registry {
        Some(v) => {
            let t = trim(v.as_str());
            if !t.is_empty() && !starts(t, "http://") && !starts(t, "https://") {
                return Err("registry 地址需以 http:// 或 https:// 开头".to_owned());
            }
            s.registry = t.to_owned();
        },
        None => {},
    }
    match &patch.close_action {
        Some(v) => {
            if !same(v.as_str(), "tray") && !same(v.as_str(), "quit") {
                return Err("closeAction 只能是 tray 或 quit".to_owned());
            }
            s.close_action = v.clone();
        },
        None => {},
    }
    match patch.web_port {
        Some(v) => {
            s.web_port = v;
        },
        None => {},
    }
    Ok(s)
}

/// The document behind the settings file `raw`: an empty file stands for an empty object, and a
/// file that is no JSON is left to its owner.
pub open spec fn settings_doc(raw: Seq<char>) -> Result<JsonTree, Seq<char>> {
    if trim_of(raw).len() == 0 {
        Ok(JsonTree::Object(Seq::empty()))
    } else {
        match json_read(raw) {
            Ok(t) => Ok(t),
            Err(m) => Err(
                "settings.json 格式无效（"@ + m + "），请先手工修复该文件再保存设置"@,
            ),
        }
    }
}

/// The fields of a settings file with those that the launcher manages set.
pub open spec fn merged_fields(
    fields: Seq<(Seq<char>, JsonTree)>,
    s: SettingsView,
    port: Option<u16>,
) -> Seq<(Seq<char>, JsonTree)> {
    let f = with_field(
        with_field(
            with_field(fields, "pluginProfile"@, JsonTree::Text(s.plugin_profile)),
            "registry"@,
            JsonTree::Text(s.registry),
        ),
        "closeAction"@,
        JsonTree::Text(s.close_action),
    );
    match port {
        Some(n) => with_field(f, "webPort"@, JsonTree::Number(digits_of(n as nat))),
        None => f,
    }
}

/// Sets the fields that the launcher manages in a document. All other fields stay.
pub fn merge_settings(doc: Value, s: &Settings, port: Option<u16>) -> (r: Result<Value, String>)
    ensures
        match r {
            Ok(v) => json_tree(doc) is Object && json_tree(v) == JsonTree::Object(
                merged_fields(json_tree(doc)->Object_0, s@, port),
            ),
            Err(m) => !(json_tree(doc) is Object) && m@
                == "settings.json 格式无效：根节点必须是 JSON 对象"@,
        },
{
    let mut doc = doc;
    if !is_object(&doc) {
        return Err("settings.json 格式无效：根节点必须是 JSON 对象".to_owned());
    }
    set_field(&mut doc, "pluginProfile", text_value(s.plugin_profile.as_str()));
    set_field(&mut doc, "registry", text_value(s.registry.as_str()));
    set_field(&mut doc, "closeAction", text_value(s.close_action.as_str()));
    match port {
        Some(n) => {
            set_field(&mut doc, "webPort", number_value(n));
        },
        None => {},
    }
    Ok(doc)
}

/// The settings behind a patch and the new text of their file, whose text is `raw` now.
///
/// A patch with a value that cannot be, and a file that is no JSON object, are refused: then
/// nothing is to be written.
pub fn save_settings(current: &Settings, patch: &SettingsPatch, raw: &str) -> (r: Result<
    (Settings, String),
    String,
>)
    ensures
        match patch_fault(*patch) {
            Some(m) => r matches Err(e) && e@ == m,
            None => match settings_doc(raw@) {
                Err(m) => r matches Err(e) && e@ == m,
                Ok(JsonTree::Object(fields)) => {
                    &&& r is Ok
                    &&& r->Ok_0.0@ == patched(current@, *patch)
                    &&& r->Ok_0.1@ == json_pretty(
                        JsonTree::Object(
                            merged_fields(fields, patched(current@, *patch), patch.web_port),
                        ),
                    )
                    &&& fields_whole(fields) ==> json_text(r->Ok_0.1@) == Some(
                        JsonTree::Object(
                            merged_fields(fields, patched(current@, *patch), patch.web_port),
                        ),
                    )
                },
                Ok(_) => r matches Err(e) && e@
                    == "settings.json 格式无效：根节点必须是 JSON 对象"@,
            },
        },
{
    let s = match apply_patch(current, patch) {
        Ok(s) => s,
        Err(m) => {
            return Err(m);
        },
    };
    let doc: Value = if trim(raw).is_empty() {
        let d = empty_object();
        proof {
            assert(fields_depth(Seq::empty()) == 0);
            assert(depth(json_tree(d)) == 1);
        }
        d
    } else {
        match read_text(raw) {
            Ok(v) => v,
            Err(e) => {
                return Err(
                    "settings.json 格式无效（".to_owned().concat(e.as_str()).concat(
                        "），请先手工修复该文件再保存设置",
                    ),
                );
            },
        }
    };
    let ghost before = json_tree(doc);
    let out = match merge_settings(doc, &s, patch.web_port) {
        Ok(v) => v,
        Err(m) => {
            return Err(m);
        },
    };
    proof {
        lemma_merged(before->Object_0, s@, patch.web_port);
    }
    match write_pretty(&out) {
        Ok(text) => Ok((s, text)),
        Err(m) => Err(m),
    }
}

proof fn lemma_push_depth(f: Seq<(Seq<char>, JsonTree)>, x: (Seq<char>, JsonTree))
    ensures
        fields_depth(f.push(x)) == (if fields_depth(f) > depth(x.1) {
            fields_depth(f)
        } else {
            depth(x.1)
        }),
        fields_whole(f.push(x)) == (fields_whole(f) && whole(x.1)),
{
    assert(f.push(x).drop_last() =~= f);
}

proof fn lemma_update_flat(f: Seq<(Seq<char>, JsonTree)>, i: int, x: (Seq<char>, JsonTree))
    requires
        0 <= i < f.len(),
        depth(x.1) == 0,
        whole(x.1),
    ensures
        fields_depth(f.update(i, x)) <= fields_depth(f),
        fields_whole(f) ==> fields_whole(f.update(i, x)),
    decreases f.len(),
{
    let g = f.update(i, x);
    if i == f.len() - 1 {
        assert(g.drop_last() =~= f.drop_last());
    } else {
        assert(g.drop_last() =~= f.drop_last().update(i, x));
        lemma_update_flat(f.drop_last(), i, x);
    }
}

proof fn lemma_with_flat(f: Seq<(Seq<char>, JsonTree)>, key: Seq<char>, x: JsonTree)
    requires
        depth(x) == 0,
        whole(x),
    ensures
        fields_depth(with_field(f, key, x)) <= fields_depth(f),
        fields_whole(f) ==> fields_whole(with_field(f, key, x)),
{
    lemma_field_found(f, key);
    let i = field_at(f, key);
    if i < f.len() {
        lemma_update_flat(f, i, (key, x));
    } else {
        lemma_push_depth(f, (key, x));
    }
}

proof fn lemma_merged(f: Seq<(Seq<char>, JsonTree)>, s: SettingsView, port: Option<u16>)
    ensures
        fields_depth(merged_fields(f, s, port)) <= fields_depth(f),
        fields_whole(f) ==> fields_whole(merged_fields(f, s, port)),
{
    let a = JsonTree::Text(s.plugin_profile);
    let b = JsonTree::Text(s.registry);
    let c = JsonTree::Text(s.close_action);
    let f1 = with_field(f, "pluginProfile"@, a);
    let f2 = with_field(f1, "registry"@, b);
    let f3 = with_field(f2, "closeAction"@, c);
    lemma_with_flat(f, "pluginProfile"@, a);
    lemma_with_flat(f1, "registry"@, b);
    lemma_with_flat(f2, "closeAction"@, c);
    match port {
        Some(n) => {
            crate::numbers::lemma_digits(n as nat);
            let d = digits_of(n as nat);
            assert(crate::text::is_digit(d[0]));
            lemma_with_flat(f3, "webPort"@, JsonTree::Number(d));
        },
        None => {},
    }
}

proof fn lemma_field_found(f: Seq<(Seq<char>, JsonTree)>, key: Seq<char>)
    ensures
        0 <= field_at(f, key) <= f.len(),
        field_at(f, key) < f.len() ==> f[field_at(f, key)].0 == key,
        forall|j: int| 0 <= j < field_at(f, key) ==> (#[trigger] f[j]).0 != key,
    decreases f.len(),
{
    if f.len() > 0 && f[0].0 != key {
        let t = f.skip(1);
        lemma_field_found(t, key);
        let n = field_at(t, key);
        assert forall|j: int| 0 <= j < n + 1 implies (#[trigger] f[j]).0 != key by {
            if j > 0 {
                assert(f[j] == t[j - 1]);
            }
        }
        if n < t.len() {
            assert(f[n + 1] == t[n]);
        }
    }
}

proof fn lemma_field_is(f: Seq<(Seq<char>, JsonTree)>, key: Seq<char>, n: int)
    requires
        0 <= n <= f.len(),
        forall|j: int| 0 <= j < n ==> (#[trigger] f[j]).0 != key,
        n < f.len() ==> f[n].0 == key,
    ensures
        field_at(f, key) == n,
{
    lemma_field_found(f, key);
    let m = field_at(f, key);
    if m < n {
        assert(f[m].0 != key);
    } else if n < m {
        assert(f[n].0 != key);
    }
}

/// A field that was set is found, and all others stay as they were.
pub proof fn law_set_field(f: Seq<(Seq<char>, JsonTree)>, key: Seq<char>, x: JsonTree, k: Seq<char>)
    ensures
        field(JsonTree::Object(with_field(f, key, x)), k) == if k == key {
            Some(x)
        } else {
            field(JsonTree::Object(f), k)
        },
{
    let g = with_field(f, key, x);
    lemma_field_found(f, key);
    lemma_field_found(f, k);
    let i = field_at(f, key);
    let m = field_at(f, k);
    if k == key {
        assert forall|j: int| 0 <= j < i implies (#[trigger] g[j]).0 != key by {
            assert(g[j] == f[j]);
        }
        lemma_field_is(g, key, i);
    } else {
        let n = if m == f.len() {
            g.len() as int
        } else {
            m
        };
        assert forall|j: int| 0 <= j < n implies (#[trigger] g[j]).0 != k by {
            if j < f.len() && j != i {
                assert(g[j] == f[j]);
                assert(f[j].0 != k);
            }
        }
        if n < g.len() {
            assert(g[n] == f[n]);
        }
        lemma_field_is(g, k, n);
    }
}

/// Saving sets the fields that the launcher manages, and keeps every other field of the file; the
/// port changes only where the patch sets it.
pub proof fn law_saving_keeps_other_fields(
    f: Seq<(Seq<char>, JsonTree)>,
    s: SettingsView,
    port: Option<u16>,
    k: Seq<char>,
)
    ensures
        ({
            let now = field(JsonTree::Object(merged_fields(f, s, port)), k);
            if k == "pluginProfile"@ {
                now == Some(JsonTree::Text(s.plugin_profile))
            } else if k == "registry"@ {
                now == Some(JsonTree::Text(s.registry))
            } else if k == "closeAction"@ {
                now == Some(JsonTree::Text(s.close_action))
            } else if k == "webPort"@ && port is Some {
                now == Some(JsonTree::Number(digits_of(port->0 as nat)))
            } else {
                now == field(JsonTree::Object(f), k)
            }
        }),
{
    reveal_strlit("pluginProfile");
    reveal_strlit("registry");
    reveal_strlit("closeAction");
    reveal_strlit("webPort");
    assert("pluginProfile"@.len() == 13 && "registry"@.len() == 8 && "closeAction"@.len() == 11
        && "webPort"@.len() == 7);
    let a = JsonTree::Text(s.plugin_profile);
    let b = JsonTree::Text(s.registry);
    let c = JsonTree::Text(s.close_action);
    let f1 = with_field(f, "pluginProfile"@, a);
    let f2 = with_field(f1, "registry"@, b);
    let f3 = with_field(f2, "closeAction"@, c);
    law_set_field(f, "pluginProfile"@, a, k);
    law_set_field(f1, "registry"@, b, k);
    law_set_field(f2, "closeAction"@, c, k);
    match port {
        Some(n) => {
            law_set_field(f3, "webPort"@, JsonTree::Number(digits_of(n as nat)), k);
        },
        None => {},
    }
}

/// Whether settings hold what the launcher can work with.
pub open spec fn settings_ok(s: SettingsView) -> bool {
    profile_name_ok(s.plugin_profile) && registry_ok(s.registry) && close_action_ok(s.close_action)
}

/// A patch that is taken leaves settings that were in order in order.
pub proof fn law_patch_keeps_settings_ok(s: SettingsView, p: SettingsPatch)
    requires
        settings_ok(s),
        patch_fault(p) is None,
    ensures
        settings_ok(patched(s, p)),
{
    if p.plugin_profile is Some {
        crate::text_laws::lemma_trimmed(p.plugin_profile->0@, crate::text::Strip::Space);
    }
}

/// Whatever the files hold, the profile in use can be one.
pub proof fn law_loaded_profile_is_valid(c: Seq<Candidate>, i: int, said: Option<Seq<char>>)
    requires
        0 <= i,
    ensures
        profile_name_ok(loaded_from(c, i, said).0.plugin_profile),
    decreases c.len() - i,
{
    reveal_strlit("web");
    reveal_strlit("node_modules");
    let w = "web"@;
    crate::text_laws::lemma_untrimmed(w, crate::text::Strip::Space);
    assert(lower_of(w).len() == 3);
    assert(profile_name_ok(w));
    if i < c.len() {
        match c[i].parsed {
            None => {
                law_loaded_profile_is_valid(c, i + 1, said);
            },
            Some(Err(e)) => {
                law_loaded_profile_is_valid(c, i + 1, Some(c[i].path@ + " 解析失败："@ + e@));
            },
            Some(Ok(s)) => {},
        }
    }
}

proof fn lemma_said_stays(c: Seq<Candidate>, i: int, said: Option<Seq<char>>)
    requires
        0 <= i,
        said is Some,
    ensures
        loaded_from(c, i, said).1 is Some,
        (forall|j: int| i <= j < c.len() ==> !((#[trigger] c[j]).parsed matches Some(Err(_))))
            ==> said->0.is_prefix_of(loaded_from(c, i, said).1->0),
    decreases c.len() - i,
{
    if i < c.len() {
        match c[i].parsed {
            None => {
                lemma_said_stays(c, i + 1, said);
            },
            Some(Err(e)) => {
                lemma_said_stays(c, i + 1, Some(c[i].path@ + " 解析失败："@ + e@));
            },
            Some(Ok(_)) => {
                let m = loaded_from(c, i, said).1->0;
                assert(m.subrange(0, said->0.len() as int) =~= said->0);
            },
        }
    } else {
        assert(said->0.subrange(0, said->0.len() as int) =~= said->0);
    }
}

/// A settings file that is there and cannot be understood is told of, also where a later file is
/// used. The last such file is told of by name and with its reason.
pub proof fn law_bad_file_is_told(c: Seq<Candidate>, k: int, e: String)
    requires
        0 <= k < c.len(),
        c[k].parsed == Some(Err::<Settings, String>(e)),
        forall|j: int| 0 <= j < k ==> !((#[trigger] c[j]).parsed matches Some(Ok(_))),
    ensures
        loaded_from(c, 0, None).1 is Some,
        (forall|j: int| k < j < c.len() ==> !((#[trigger] c[j]).parsed matches Some(Err(_)))) ==> (
        c[k].path@ + " 解析失败："@ + e@).is_prefix_of(loaded_from(c, 0, None).1->0),
{
    lemma_bad_file_is_told(c, 0, None, k, e);
}

proof fn lemma_bad_file_is_told(
    c: Seq<Candidate>,
    i: int,
    said: Option<Seq<char>>,
    k: int,
    e: String,
)
    requires
        0 <= i <= k < c.len(),
        c[k].parsed == Some(Err::<Settings, String>(e)),
        forall|j: int| 0 <= j < k ==> !((#[trigger] c[j]).parsed matches Some(Ok(_))),
    ensures
        loaded_from(c, i, said).1 is Some,
        (forall|j: int| k < j < c.len() ==> !((#[trigger] c[j]).parsed matches Some(Err(_)))) ==> (
        c[k].path@ + " 解析失败："@ + e@).is_prefix_of(loaded_from(c, i, said).1->0),
    decreases k - i,
{
    if i == k {
        lemma_said_stays(c, k + 1, Some(c[k].path@ + " 解析失败："@ + e@));
    } else {
        match c[i].parsed {
            None => {
                lemma_bad_file_is_told(c, i + 1, said, k, e);
            },
            Some(Err(x)) => {
                lemma_bad_file_is_told(
                    c,
                    i + 1,
                    Some(c[i].path@ + " 解析失败："@ + x@),
                    k,
                    e,
                );
            },
            Some(Ok(_)) => {},
        }
    }
}

/// Whether the start with Windows is on: the registry holds a value that is not blank.
pub fn get_autostart(value: &Option<String>) -> (r: bool)
    ensures
        r == (match value {
            Some(v) => trim_of(v@).len() > 0,
            None => false,
        }),
{
    match value {
        Some(v) => !trim(v.as_str()).is_empty(),
        None => false,
    }
}

/// What the registry is to hold for the start with Windows: the program's path in quotation marks,
/// so that blanks in it do not end it. Nothing where it is to be off.
pub fn set_autostart(enabled: bool, exe: &str) -> (r: Option<String>)
    ensures
        opt_view(r) == if enabled {
            Some("\""@ + exe@ + "\""@)
        } else {
            None
        },
{
    if enabled {
        Some("\"".to_owned().concat(exe).concat("\""))
    } else {
        None
    }
}

} // verus!
