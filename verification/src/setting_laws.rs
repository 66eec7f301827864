//! What holds of the settings: which values are taken, where they are read from, and what a change
//! changes.

use crate::json::{json_read, JsonTree};
use crate::settings::{
    default_settings, loaded_from, patch_fault, patched, profile_name_ok, settings_doc, Candidate,
    Settings, SettingsPatch, SettingsView,
};
use crate::text::{is_ctrl, is_space, lower_of, trim_of, Strip};
use crate::text_laws::{all_stripped, law_strip_takes_off_what_stands_round};
use vstd::prelude::*;

verus! {

/// A profile has a name, white space round it left out, if and only if that is not empty, starts
/// with no dot, is not that of the installed packages in whatever case, and holds no separator, no
/// white space and no control character.
pub proof fn law_names_of_profiles(a: Seq<char>, t: Seq<char>, b: Seq<char>)
    requires
        all_stripped(a, Strip::Space),
        all_stripped(b, Strip::Space),
        t.len() > 0 ==> !is_space(t[0]) && !is_space(t.last()),
    ensures
        profile_name_ok(a + t + b) <==> t.len() > 0 && t[0] != '.' && lower_of(t)
            != "node_modules"@ && forall|i: int|
            0 <= i < t.len() ==> (#[trigger] t[i]) != '/' && t[i] != '\\' && !is_space(t[i])
                && !is_ctrl(t[i]),
{
    law_strip_takes_off_what_stands_round(a, t, b, Strip::Space);
    if forall|i: int| 0 <= i < t.len() ==> (#[trigger] t[i]) != '/' && t[i] != '\\' && !is_space(t[i])
        && !is_ctrl(t[i]) {
        assert(!t.contains('/'));
        assert(!t.contains('\\'));
    }
    if !t.contains('/') && !t.contains('\\') {
        assert forall|i: int| 0 <= i < t.len() implies (#[trigger] t[i]) != '/' && t[i] != '\\' by {
            assert(t.contains(t[i]));
        }
    }
}

/// Without a file that can be read the port is 3080, the profile `web`, the registry that of npm,
/// and closing hides the window; no other place is searched.
pub proof fn law_values_without_a_file()
    ensures
        default_settings().web_port == 3080,
        default_settings().plugin_profile == "web"@,
        default_settings().close_action == "tray"@,
        default_settings().registry.len() == 0,
        default_settings().junction_path.len() == 0,
        default_settings().d_drive_path.len() == 0,
{
}

proof fn lemma_loaded(c: Seq<Candidate>, i: int, k: int, said: Option<Seq<char>>) -> (told: Option<
    Seq<char>,
>)
    requires
        0 <= i <= k <= c.len(),
        forall|j: int| i <= j < k ==> !((#[trigger] c[j]).parsed matches Some(Ok(_))),
    ensures
        loaded_from(c, i, said) == loaded_from(c, k, told),
        (forall|j: int| i <= j < k ==> (#[trigger] c[j]).parsed is None) ==> told == said,
    decreases k - i,
{
    if i == k {
        said
    } else {
        assert(!(c[i].parsed matches Some(Ok(_))));
        match c[i].parsed {
            Some(Err(e)) => {
                lemma_loaded(c, i + 1, k, Some(c[i].path@ + " 解析失败："@ + e@))
            },
            _ => {
                lemma_loaded(c, i + 1, k, said)
            },
        }
    }
}

/// The first file that can be read decides, whatever stands before it and behind it: all its values
/// are taken, but for a profile whose name is none, for which `web` is taken and told. Nothing is
/// told where no file failed. Without such a file the values are those without a file.
pub proof fn law_first_readable_file_decides(c: Seq<Candidate>, k: int, s: Settings)
    requires
        0 <= k <= c.len(),
        forall|j: int| 0 <= j < k ==> !((#[trigger] c[j]).parsed matches Some(Ok(_))),
        k < c.len() ==> c[k].parsed == Some(Ok::<Settings, String>(s)),
    ensures
        k < c.len() ==> {
            let r = loaded_from(c, 0, None).0;
            &&& r.junction_path == s@.junction_path
            &&& r.d_drive_path == s@.d_drive_path
            &&& r.web_port == s@.web_port
            &&& r.registry == s@.registry
            &&& r.close_action == s@.close_action
            &&& profile_name_ok(s@.plugin_profile) ==> r.plugin_profile == s@.plugin_profile
            &&& !profile_name_ok(s@.plugin_profile) ==> r.plugin_profile == "web"@ && loaded_from(
                c,
                0,
                None,
            ).1 is Some
        },
        k == c.len() ==> loaded_from(c, 0, None).0 == default_settings(),
        (forall|j: int| 0 <= j < k ==> (#[trigger] c[j]).parsed is None) && (k < c.len()
            ==> profile_name_ok(s@.plugin_profile)) ==> loaded_from(c, 0, None).1 is None,
{
    let told = lemma_loaded(c, 0, k, None);
}

/// A change is taken if and only if each value in it is one that the setting can have: a profile's
/// name, an address of HTTP or none, and `tray` or `quit`. The first that is not is told.
pub proof fn law_which_changes_are_taken(p: SettingsPatch)
    ensures
        ({
            let profile = p.plugin_profile is Some ==> profile_name_ok(trim_of(p.plugin_profile->0@));
            let r = trim_of(p.registry->0@);
            let registry = p.registry is Some ==> r.len() == 0 || "http://"@.is_prefix_of(r)
                || "https://"@.is_prefix_of(r);
            let close = p.close_action is Some ==> p.close_action->0@ == "tray"@
                || p.close_action->0@ == "quit"@;
            &&& patch_fault(p) is None <==> profile && registry && close
            &&& !profile ==> patch_fault(p) == Some("无效的 profile 名称"@)
            &&& profile && !registry ==> patch_fault(p) == Some(
                "registry 地址需以 http:// 或 https:// 开头"@,
            )
            &&& profile && registry && !close ==> patch_fault(p) == Some(
                "closeAction 只能是 tray 或 quit"@,
            )
        }),
{
}

/// A change sets the values that it holds, without the white space round names and addresses, and
/// leaves all others as they are.
pub proof fn law_change_sets_what_it_holds(s: SettingsView, p: SettingsPatch)
    ensures
        ({
            let r = patched(s, p);
            &&& r.junction_path == s.junction_path
            &&& r.d_drive_path == s.d_drive_path
            &&& p.web_port is Some ==> r.web_port == p.web_port->0
            &&& p.web_port is None ==> r.web_port == s.web_port
            &&& p.plugin_profile is Some ==> r.plugin_profile == trim_of(p.plugin_profile->0@)
            &&& p.plugin_profile is None ==> r.plugin_profile == s.plugin_profile
            &&& p.registry is Some ==> r.registry == trim_of(p.registry->0@)
            &&& p.registry is None ==> r.registry == s.registry
            &&& p.close_action is Some ==> r.close_action == p.close_action->0@
            &&& p.close_action is None ==> r.close_action == s.close_action
        }),
{
}

/// A file that holds nothing but white space counts as an empty document. One that cannot be read
/// stops a change, so that nothing in it is lost.
pub proof fn law_unreadable_file_stops_a_change(raw: Seq<char>)
    ensures
        all_stripped(raw, Strip::Space) ==> settings_doc(raw) == Ok::<JsonTree, Seq<char>>(
            JsonTree::Object(Seq::empty()),
        ),
        trim_of(raw).len() > 0 ==> (settings_doc(raw) is Ok <==> json_read(raw) is Ok),
        settings_doc(raw) is Ok && trim_of(raw).len() > 0 ==> settings_doc(raw)->Ok_0 == json_read(
            raw,
        )->Ok_0,
        settings_doc(raw) is Err ==> settings_doc(raw)->Err_0 == "settings.json 格式无效（"@
            + json_read(raw)->Err_0 + "），请先手工修复该文件再保存设置"@,
{
    if all_stripped(raw, Strip::Space) {
        let none = Seq::<char>::empty();
        law_strip_takes_off_what_stands_round(raw, none, none, Strip::Space);
        assert(raw + none + none =~= raw);
    }
}

} // verus!
