use dsh_launcher::settings::{
    apply_patch, get_autostart, load_settings, merge_settings, save_settings, set_autostart,
    settings, settings_load_error, valid_profile_name, Candidate, Settings, SettingsPatch,
    SettingsStore,
};
use serde_json::Value;

fn patch() -> SettingsPatch {
    SettingsPatch {
        plugin_profile: None,
        registry: None,
        close_action: None,
        web_port: None,
    }
}

fn candidate(path: &str, parsed: Option<Result<Settings, String>>) -> Candidate {
    Candidate {
        path: path.to_string(),
        parsed,
    }
}

#[test]
fn profile_name_rejects_traversal_and_separators() {
    assert!(valid_profile_name("web"));
    assert!(valid_profile_name("dsh-tui"));
    assert!(!valid_profile_name("."));
    assert!(!valid_profile_name(".."));
    assert!(!valid_profile_name(".hidden"));
    assert!(!valid_profile_name("a/b"));
    assert!(!valid_profile_name("a\\b"));
    assert!(!valid_profile_name("node_modules"));
    assert!(!valid_profile_name("NODE_MODULES"));
    assert!(!valid_profile_name(""));
    assert!(!valid_profile_name("a b"));
}

#[test]
fn profile_name_edges() {
    assert!(valid_profile_name(" web "));
    assert!(!valid_profile_name("a\u{7f}b"));
    assert!(!valid_profile_name("a\u{3000}b"));
    assert!(valid_profile_name("数据"));
}

#[test]
fn defaults() {
    let s = Settings::default();
    assert_eq!(s.web_port, 3080);
    assert_eq!(s.plugin_profile, "web");
    assert_eq!(s.close_action, "tray");
    assert_eq!(s.registry, "");
    assert_eq!(s.junction_path, "");
    assert_eq!(s.d_drive_path, "");
}

#[test]
fn loads_the_first_good_candidate() {
    let good = || {
        let mut s = Settings::default();
        s.web_port = 4000;
        s
    };
    let (s, said) = load_settings(&vec![
        candidate("a", None),
        candidate("b", Some(Err("expected value".to_string()))),
        candidate("c", Some(Ok(good()))),
    ]);
    assert_eq!(s.web_port, 4000);
    assert_eq!(said.as_deref(), Some("b 解析失败：expected value"));

    let (s, said) = load_settings(&vec![
        candidate("a", None),
        candidate("c", Some(Ok(good()))),
        candidate("d", Some(Err("not read".to_string()))),
    ]);
    assert_eq!(s.web_port, 4000);
    assert_eq!(said, None);

    let (s, said) = load_settings(&vec![candidate("b", Some(Err("bad".to_string())))]);
    assert_eq!(s.web_port, 3080);
    assert_eq!(said.as_deref(), Some("b 解析失败：bad"));

    let mut odd = good();
    odd.plugin_profile = "..".to_string();
    let (s, said) = load_settings(&vec![candidate("c", Some(Ok(odd)))]);
    assert_eq!(s.plugin_profile, "web");
    assert_eq!(s.web_port, 4000);
    assert_eq!(said.as_deref(), Some("c 中的 pluginProfile 无效，已回退为 web"));
}

#[test]
fn a_bad_file_stays_told() {
    let mut odd = Settings::default();
    odd.plugin_profile = "..".to_string();
    let mut store = SettingsStore {
        current: None,
        load_error: None,
    };
    let s = settings(
        &mut store,
        &vec![
            candidate("b", Some(Err("bad".to_string()))),
            candidate("c", Some(Ok(odd))),
        ],
    );
    assert_eq!(s.plugin_profile, "web");
    assert_eq!(
        settings_load_error(&store).as_deref(),
        Some("b 解析失败：bad；c 中的 pluginProfile 无效，已回退为 web")
    );
}

#[test]
fn settings_are_loaded_once() {
    let mut store = SettingsStore {
        current: None,
        load_error: None,
    };
    let first = settings(&mut store, &vec![candidate("x", Some(Err("e".to_string())))]);
    assert_eq!(first.web_port, 3080);
    assert_eq!(settings_load_error(&store).as_deref(), Some("x 解析失败：e"));
    let mut other = Settings::default();
    other.web_port = 1;
    let second = settings(&mut store, &vec![candidate("y", Some(Ok(other)))]);
    assert_eq!(second.web_port, 3080);
    assert_eq!(settings_load_error(&store).as_deref(), Some("x 解析失败：e"));
}

#[test]
fn patches_are_checked() {
    let now = Settings::default();
    let mut p = patch();
    p.plugin_profile = Some(" tui ".to_string());
    p.registry = Some(" https://r.example ".to_string());
    p.close_action = Some("quit".to_string());
    p.web_port = Some(8123);
    let s = apply_patch(&now, &p).ok().unwrap();
    assert_eq!(s.plugin_profile, "tui");
    assert_eq!(s.registry, "https://r.example");
    assert_eq!(s.close_action, "quit");
    assert_eq!(s.web_port, 8123);

    let mut p = patch();
    p.plugin_profile = Some("../x".to_string());
    assert_eq!(apply_patch(&now, &p).err().as_deref(), Some("无效的 profile 名称"));
    let mut p = patch();
    p.registry = Some("ftp://r".to_string());
    assert_eq!(
        apply_patch(&now, &p).err().as_deref(),
        Some("registry 地址需以 http:// 或 https:// 开头")
    );
    let mut p = patch();
    p.registry = Some("  ".to_string());
    assert_eq!(apply_patch(&now, &p).ok().unwrap().registry, "");
    let mut p = patch();
    p.close_action = Some("hide".to_string());
    assert_eq!(
        apply_patch(&now, &p).err().as_deref(),
        Some("closeAction 只能是 tray 或 quit")
    );
}

#[test]
fn saving_keeps_what_it_does_not_manage() {
    let now = Settings::default();
    let mut p = patch();
    p.close_action = Some("quit".to_string());
    let raw = r#"{"junctionPath":"D:\\npm","webPort":4001,"closeAction":"tray","x":{"y":[1,-2,null]}}"#;
    let (s, text) = save_settings(&now, &p, raw).ok().unwrap();
    assert_eq!(s.close_action, "quit");
    let v: Value = serde_json::from_str(&text).unwrap();
    assert_eq!(v["junctionPath"], "D:\\npm");
    assert_eq!(v["webPort"], 4001);
    assert_eq!(v["closeAction"], "quit");
    assert_eq!(v["pluginProfile"], "web");
    assert_eq!(v["registry"], "");
    assert_eq!(v["x"]["y"][1], -2);
    let keys: Vec<&String> = v.as_object().unwrap().keys().collect();
    assert_eq!(
        keys,
        vec!["junctionPath", "webPort", "closeAction", "x", "pluginProfile", "registry"]
    );
    assert!(text.contains('\n'));

    p.web_port = Some(5000);
    let (s, text) = save_settings(&now, &p, raw).ok().unwrap();
    assert_eq!(s.web_port, 5000);
    let v: Value = serde_json::from_str(&text).unwrap();
    assert_eq!(v["webPort"], 5000);
}

#[test]
fn saving_to_nothing_and_to_bad_files() {
    let now = Settings::default();
    let (_, text) = save_settings(&now, &patch(), " \n").ok().unwrap();
    let v: Value = serde_json::from_str(&text).unwrap();
    assert_eq!(v.as_object().unwrap().len(), 3);
    assert_eq!(
        save_settings(&now, &patch(), "[1]").err().as_deref(),
        Some("settings.json 格式无效：根节点必须是 JSON 对象")
    );
    let message = serde_json::from_str::<Value>("{oops").err().unwrap().to_string();
    assert_eq!(
        save_settings(&now, &patch(), "{oops").err(),
        Some(format!(
            "settings.json 格式无效（{}），请先手工修复该文件再保存设置",
            message
        ))
    );
    let mut p = patch();
    p.close_action = Some("no".to_string());
    assert!(save_settings(&now, &p, "{oops").err().unwrap().starts_with("closeAction"));
}

#[test]
fn merging_sets_four_fields() {
    let mut s = Settings::default();
    s.registry = "http://r".to_string();
    let doc: Value = serde_json::from_str("{\"registry\":1}").unwrap();
    let out = merge_settings(doc, &s, Some(7)).ok().unwrap();
    assert_eq!(out["registry"], "http://r");
    assert_eq!(out["webPort"], 7);
    assert_eq!(out["pluginProfile"], "web");
    assert_eq!(out["closeAction"], "tray");
    assert!(merge_settings(Value::Null, &s, None).is_err());
}

#[test]
fn autostart_values() {
    assert!(get_autostart(&Some("\"C:\\a b\\x.exe\"".to_string())));
    assert!(!get_autostart(&Some("  ".to_string())));
    assert!(!get_autostart(&None));
    assert_eq!(
        set_autostart(true, "C:\\a b\\x.exe").as_deref(),
        Some("\"C:\\a b\\x.exe\"")
    );
    assert_eq!(set_autostart(false, "C:\\x.exe"), None);
}
