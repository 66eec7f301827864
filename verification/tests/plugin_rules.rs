use dsh_launcher::json::parse;
use dsh_launcher::patch::{
    disabled_flag, entry_id_of, extract_insert_ids, manage_disabled_blocks, marker,
    read_disabled_ids, strip_yaml_comment,
};
use dsh_launcher::plugins::{
    bare_pkg_name, builtin_in, builtin_names, builtin_pkg_info, disables_any, doc, has_dep,
    installed_patch, installed_pkg_info, is_registry_spec, manifest_of, package_info, profile_dir,
    read_manifest, run_plugin_list, validate_installed_name, validate_plugin_name,
};

fn some(t: &str) -> Option<String> {
    Some(t.to_string())
}

fn list(items: &[&str]) -> Vec<String> {
    items.iter().map(|s| s.to_string()).collect()
}

#[test]
fn bare_name_extraction() {
    assert_eq!(bare_pkg_name("dsh-better-sidebar"), "dsh-better-sidebar");
    assert_eq!(
        bare_pkg_name("dsh-better-sidebar@0.12.2"),
        "dsh-better-sidebar"
    );
    assert_eq!(
        bare_pkg_name("@zerro223/dsh-token-usage"),
        "@zerro223/dsh-token-usage"
    );
    assert_eq!(
        bare_pkg_name("@zerro223/dsh-token-usage@1.0.0"),
        "@zerro223/dsh-token-usage"
    );
    assert_eq!(bare_pkg_name("file:../plugin"), "file:../plugin");
    assert_eq!(
        bare_pkg_name("git+ssh://git@github.com/x/y.git"),
        "git+ssh://git@github.com/x/y.git"
    );
}

#[test]
fn bare_name_edges() {
    assert_eq!(bare_pkg_name("  a@1  "), "a");
    assert_eq!(bare_pkg_name("@"), "@");
    assert_eq!(bare_pkg_name(""), "");
    assert_eq!(bare_pkg_name("file:../dir/plugin@2"), "file:../dir/plugin@2");
    assert_eq!(bare_pkg_name("a@b@c"), "a@b");
}

#[test]
fn name_validation() {
    assert!(validate_plugin_name("dsh-better-sidebar").is_ok());
    assert!(validate_plugin_name("@scope/name@1.2.3").is_ok());
    assert!(validate_plugin_name("").is_err());
    assert!(validate_plugin_name("   ").is_err());
    assert!(validate_plugin_name("-x").is_err());
    assert!(validate_plugin_name("a b").is_err());
}

#[test]
fn name_errors() {
    let say = |n: &str| validate_plugin_name(n).err();
    assert_eq!(say(""), some("请输入要安装的插件包名"));
    assert_eq!(say(&"a".repeat(200)), None);
    assert_eq!(say(&"a".repeat(201)), some("包名过长（最多 200 字符）"));
    // the limit counts bytes
    assert_eq!(say(&"包".repeat(67)), some("包名过长（最多 200 字符）"));
    assert_eq!(say("-x"), some("包名不能以 - 开头"));
    assert_eq!(say("a\u{7}b"), some("包名包含非法字符（空格 / 控制符）"));
    for c in "&|<>^()%!;\"'`".chars() {
        assert_eq!(say(&format!("a{}b", c)), some("包名包含不安全的 shell 字符"));
    }
}

#[test]
fn registry_spec_detection() {
    assert!(is_registry_spec("^0.12.2"));
    assert!(is_registry_spec("0.1.0-rc.6"));
    assert!(is_registry_spec("~1.0.0"));
    assert!(!is_registry_spec("file:E:/work/dsh-token-usage"));
    assert!(!is_registry_spec("file:../plugin.tgz"));
    assert!(!is_registry_spec("link:../plugin"));
    assert!(!is_registry_spec("git+https://github.com/x/y.git"));
    assert!(!is_registry_spec("github:user/repo"));
    assert!(!is_registry_spec("https://example.com/pkg.tgz"));
}

#[test]
fn registry_spec_edges() {
    assert!(!is_registry_spec(" http://example.com/p.tgz"));
    assert!(!is_registry_spec("../p"));
    assert!(!is_registry_spec("C:\\p"));
    assert!(is_registry_spec(""));
    assert!(!is_registry_spec("E:/work/dsh-token-usage"));
    assert!(!is_registry_spec("/srv/plugin"));
    assert!(!is_registry_spec("~/plugin"));
    assert!(!is_registry_spec("user/repo"));
    assert!(!is_registry_spec("workspace:*"));
    assert!(is_registry_spec(">=1.0.0 <2.0.0 || 3.x"));
    assert!(is_registry_spec("latest"));
    assert!(is_registry_spec("npm:@scope/name@^1.0.0"));
    assert!(is_registry_spec("catalog:"));
    assert!(is_registry_spec("catalog:ui"));
    assert!(is_registry_spec("jsr:^1.0.0"));
    assert!(!is_registry_spec("c:plugin"));
    assert!(!is_registry_spec("bitbucket:user/repo"));
    assert!(!is_registry_spec("ssh://host/x.git"));
}

#[test]
fn insert_ids_include_multiple_top_level_blocks() {
    let content = "- insert:\n    - id: first\n- insert:\n    - id: second\n";
    assert_eq!(
        extract_insert_ids(content),
        vec!["first".to_string(), "second".to_string()]
    );
}

#[test]
fn insert_ids_edges() {
    assert_eq!(
        extract_insert_ids("- id: outside\n# c\n\ninsert:\n  - id: 'in' # why\n  - id:\n  name: x\n- id: after\n"),
        list(&["in"])
    );
    assert!(extract_insert_ids("").is_empty());
    assert_eq!(
        extract_insert_ids("- insert:\r\n\t- id: tab\r\n"),
        list(&["tab"])
    );
}

#[test]
fn disabled_parser_handles_fields_comments_and_overrides() {
    let content = "- id: first\n  name: plugin\n  disabled: true # user reason\n- id: second\n  disabled: true\n- id: second\n  disabled: false\n";
    assert_eq!(read_disabled_ids(content), vec!["first".to_string()]);
}

#[test]
fn last_entry_decides() {
    let off = "- id: a\n  disabled: true\n";
    let on = "- id: a\n  disabled: false\n";
    assert_eq!(read_disabled_ids(&format!("{}{}", on, off)), list(&["a"]));
    assert!(read_disabled_ids(&format!("{}{}", off, on)).is_empty());
}

#[test]
fn yaml_parsing_tolerance() {
    assert_eq!(
        entry_id_of("- id:   spaced-id").as_deref(),
        Some("spaced-id")
    );
    assert_eq!(entry_id_of("- id: 'quoted'").as_deref(), Some("quoted"));
    assert_eq!(entry_id_of("- id: \"dq\"").as_deref(), Some("dq"));
    assert_eq!(entry_id_of("- id:").as_deref(), None);
    assert_eq!(entry_id_of("- name: x").as_deref(), None);
    assert!(disabled_flag("disabled: true"));
    assert!(disabled_flag("disabled:   True"));
    assert!(disabled_flag("disabled: yes"));
    assert!(disabled_flag("disabled: 'ON'"));
    assert!(!disabled_flag("disabled: false"));
    assert!(!disabled_flag("disabled:"));
    assert!(!disabled_flag("id: x"));
    let content = "- id: a\n  disabled: true\n- id: b\n  disabled: True\n- id: c\n  disabled: false\n- id: d\n";
    let ids = read_disabled_ids(content);
    assert_eq!(ids, vec!["a".to_string(), "b".to_string()]);
}

#[test]
fn comments_outside_quotes() {
    assert_eq!(strip_yaml_comment("a # b"), "a ");
    assert_eq!(strip_yaml_comment("a#b"), "a#b");
    assert_eq!(strip_yaml_comment("# b"), "");
    assert_eq!(strip_yaml_comment("\"a # b\" # c"), "\"a # b\" ");
    assert_eq!(strip_yaml_comment("'a # b' # c"), "'a # b' ");
    assert_eq!(strip_yaml_comment("\"a \\\" # b\" # c"), "\"a \\\" # b\" ");
}

#[test]
fn disabled_blocks_always_valid() {
    let ids = vec!["ui-skin-maid-atelier".to_string()];

    let c1 = manage_disabled_blocks("# 注释\n[]\n", "maid-atelier", &ids, false).unwrap();
    assert!(
        c1.contains("- id: ui-skin-maid-atelier"),
        "禁用后应有条目: {}",
        c1
    );
    assert!(!c1.contains("[]"), "禁用后不应残留空数组: {}", c1);

    let c2 = manage_disabled_blocks(&c1, "maid-atelier", &ids, true).unwrap();
    let stripped2: String = c2
        .lines()
        .map(|l| l.trim())
        .filter(|l| !l.is_empty() && !l.starts_with('#'))
        .collect();
    assert_eq!(stripped2, "[]", "启用后应恢复空数组: {}", c2);

    let c3 =
        manage_disabled_blocks("- id: other\n  disabled: true\n", "maid-atelier", &ids, false).unwrap();
    assert!(c3.contains("- id: ui-skin-maid-atelier"));
    assert!(c3.contains("- id: other"));

    let c4 = manage_disabled_blocks(&c3, "maid-atelier", &ids, true).unwrap();
    assert!(!c4.contains("ui-skin-maid-atelier"));
    assert!(c4.contains("- id: other"));
}

#[test]
fn enabling_preserves_user_fields_and_manual_disabled_entries() {
    let before = "# --- 由 DSH 启动器管理：禁用 demo ---\n- id: managed\n  disabled: true\n- id: manual\n  disabled: true # keep me\n  config:\n    value: 1\n";
    let ids = vec!["managed".to_string(), "manual".to_string()];
    let content = manage_disabled_blocks(before, "demo", &ids, true).unwrap();
    assert!(!content.contains("managed"));
    assert!(content.contains("manual"));
    assert!(content.contains("value: 1"));
    assert!(content.contains("disabled: true"));
}

#[test]
fn managed_blocks_exactly() {
    assert_eq!(marker("demo"), "# --- 由 DSH 启动器管理：禁用 demo ---");
    let ids = list(&["x", "y"]);
    assert_eq!(
        manage_disabled_blocks("- id: x\n  disabled: on\n", "demo", &ids, false).as_deref(),
        Some("- id: x\n  disabled: on\n\n# --- 由 DSH 启动器管理：禁用 demo ---\n- id: y\n  disabled: true\n")
    );
    assert_eq!(
        manage_disabled_blocks("", "demo", &list(&["x"]), false).as_deref(),
        Some("# --- 由 DSH 启动器管理：禁用 demo ---\n- id: x\n  disabled: true\n")
    );
    // nothing to change
    assert_eq!(manage_disabled_blocks("- id: x\n", "demo", &ids, true), None);
    assert_eq!(
        manage_disabled_blocks("- id: x\n  disabled: true\n", "demo", &list(&["x"]), false),
        None
    );
    // a marker alone is removed, the lines behind it stay
    assert_eq!(
        manage_disabled_blocks(
            "# --- 由 DSH 启动器管理：禁用 demo ---\n- id: x\n  name: y\n",
            "demo",
            &ids,
            true
        )
        .as_deref(),
        Some("- id: x\n  name: y\n")
    );
}

#[test]
fn disabling_twice_changes_nothing() {
    let own = "# --- 由 DSH 启动器管理：禁用 demo ---\n- id: x\n  disabled: true\n";
    let ids = list(&["x"]);
    assert_eq!(manage_disabled_blocks(own, "demo", &ids, false), None);
    assert_eq!(
        manage_disabled_blocks(&own.replace('\n', "\r\n"), "demo", &ids, false),
        None
    );
    // another plugin that was disabled later makes no difference
    let other = manage_disabled_blocks(own, "other", &list(&["y"]), false).unwrap();
    assert_eq!(manage_disabled_blocks(&other, "demo", &ids, false), None);
    assert_eq!(manage_disabled_blocks(&other, "other", &list(&["y"]), false), None);
    // an id that is not disabled any more is
    let on = format!("{}- id: x\n  name: n\n", own);
    assert_eq!(
        manage_disabled_blocks(&on, "demo", &ids, false).as_deref(),
        Some("- id: x\n  name: n\n\n# --- 由 DSH 启动器管理：禁用 demo ---\n- id: x\n  disabled: true\n")
    );
    // a block for an id that the plugin has no more goes
    assert_eq!(
        manage_disabled_blocks(own, "demo", &list(&["z"]), false).as_deref(),
        Some("# --- 由 DSH 启动器管理：禁用 demo ---\n- id: z\n  disabled: true\n")
    );
    // an empty list makes room
    assert_eq!(
        manage_disabled_blocks(&format!("[]\n{}", own), "demo", &ids, false).as_deref(),
        Some(own)
    );
}

#[test]
fn comments_survive_switching() {
    let before = "# one\n[]\n  # two\n";
    let ids = list(&["x"]);
    let off = manage_disabled_blocks(before, "demo", &ids, false).unwrap();
    let on = manage_disabled_blocks(&off, "demo", &ids, true).unwrap();
    let comments: Vec<&str> = on
        .lines()
        .map(|l| l.trim())
        .filter(|l| l.starts_with('#'))
        .collect();
    assert_eq!(comments, vec!["# one", "# two"]);
}

#[test]
fn an_appended_entry_decides() {
    let c = "- id: a\n  disabled: true\n- id: x\n- id: b\n  disabled: true";
    assert_eq!(read_disabled_ids(c), list(&["a", "b"]));
    let off = format!("{}\n- id: x\n  disabled: true\n", c);
    assert_eq!(read_disabled_ids(&off), list(&["a", "x", "b"]));
    let on = format!("{}\n- id: a\n  disabled: false\n", off);
    assert_eq!(read_disabled_ids(&on), list(&["x", "b"]));
}

#[test]
fn enabling_undoes_disabling() {
    let before = "- id: other\n  name: n\n\n";
    let ids = list(&["x", "y"]);
    let off = manage_disabled_blocks(before, "demo", &ids, false).unwrap();
    assert_eq!(read_disabled_ids(&off), ids);
    let on = manage_disabled_blocks(&off, "demo", &ids, true).unwrap();
    assert!(read_disabled_ids(&on).is_empty());
    assert_eq!(on.trim_end(), before.trim_end());
    assert_eq!(manage_disabled_blocks(&on, "demo", &ids, true), None);
}

#[test]
fn installed_name_validation() {
    assert!(validate_installed_name("dsh-better-sidebar").is_ok());
    assert!(validate_installed_name("@scope/name").is_ok());
    assert!(validate_installed_name("../../etc").is_err());
    assert!(validate_installed_name("a\\b").is_err());
    assert!(validate_installed_name("C:/x").is_err());
    assert!(validate_installed_name("a b").is_err());
}

#[test]
fn installed_name_errors() {
    assert_eq!(
        validate_installed_name(" a..b ").err(),
        some("无效的插件名：a..b")
    );
    assert_eq!(
        validate_installed_name("").err(),
        some("请输入要安装的插件包名")
    );
}

#[test]
fn profile_directories() {
    assert_eq!(profile_dir("C:\\u\\.dsh", "web"), "C:\\u\\.dsh\\profiles\\web");
}

#[test]
fn package_facts() {
    let content = some(
        "{\"version\":\"1.2.3\",\"description\":\"d\",\"dsh\":{\"bundle\":{\"patch\":\"cordis.patch.yml\"}}}",
    );
    assert_eq!(
        installed_patch("demo", &content).as_deref(),
        Some("cordis.patch.yml")
    );
    let patch = some("- insert:\n    - id: a\n    - id: b\n");
    let info = installed_pkg_info("demo", &content, &patch).unwrap();
    assert_eq!(info.version, "1.2.3");
    assert_eq!(info.description, "d");
    assert!(info.is_bundle);
    assert_eq!(info.entry_ids, list(&["a", "b"]));
    assert!(installed_pkg_info("demo", &content, &None)
        .unwrap()
        .entry_ids
        .is_empty());
    assert!(installed_pkg_info("..", &content, &patch).is_none());
    assert!(installed_pkg_info("demo", &some("{"), &patch).is_none());
    assert!(installed_pkg_info("demo", &None, &patch).is_none());
    assert_eq!(installed_patch("..", &content), None);
    // a patch that is no text makes a bundle without entries
    let odd = some("{\"dsh\":{\"bundle\":{\"patch\":[1]}}}");
    assert_eq!(installed_patch("demo", &odd), None);
    let info = installed_pkg_info("demo", &odd, &patch).unwrap();
    assert!(info.is_bundle && info.entry_ids.is_empty() && info.version.is_empty());
    let plain = package_info(&parse("{\"version\":7}").unwrap(), &patch);
    assert!(!plain.is_bundle && plain.version.is_empty() && plain.entry_ids.is_empty());
}

#[test]
fn builtin_facts() {
    let dsh = some("{\"dependencies\":{\"core\":\"^^~1.0.0\"}}");
    let first = some("{\"description\":\"one\",\"version\":\"9\"}");
    let second = some("{\"description\":\"two\",\"version\":\"8\"}");
    let pair = |a: &str, b: &str| (a.to_string(), b.to_string());
    assert_eq!(builtin_pkg_info("core", &dsh, &first, &second), pair("1.0.0", "one"));
    assert_eq!(builtin_pkg_info("core", &dsh, &None, &second), pair("1.0.0", "two"));
    assert_eq!(builtin_pkg_info("core", &None, &some("{"), &second), pair("8", "two"));
    assert_eq!(builtin_pkg_info("other", &dsh, &first, &None), pair("9", "one"));
    assert_eq!(builtin_pkg_info("core", &None, &None, &None), pair("", ""));
    assert_eq!(
        builtin_in("core", &doc(&dsh), &doc(&first), &None),
        pair("1.0.0", "one")
    );
}

#[test]
fn manifests() {
    let text = "{\"dependencies\":{\"b\":\"^1\",\"a\":2},\"dsh\":{\"profile\":{\"bundles\":[\"core\",3,\"a\"]}}}";
    let m = read_manifest(&some(text)).unwrap();
    assert_eq!(
        m.deps,
        vec![
            ("b".to_string(), "^1".to_string()),
            ("a".to_string(), String::new())
        ]
    );
    assert_eq!(m.bundles, list(&["core", "a"]));
    assert_eq!(builtin_names(&m), list(&["core"]));
    assert!(has_dep(&m.deps, "a") && !has_dep(&m.deps, "core"));
    assert!(read_manifest(&some("{]")).is_none());
    assert!(read_manifest(&None).is_none());
    let empty = manifest_of(&parse("[]").unwrap());
    assert!(empty.deps.is_empty() && empty.bundles.is_empty());
}

#[test]
fn plugin_lists() {
    let m = read_manifest(&some(
        "{\"dependencies\":{\"a\":\"^1\",\"b\":\"^2\",\"c\":\"file:x\"},\"dsh\":{\"profile\":{\"bundles\":[\"a\",\"core\"]}}}",
    ))
    .unwrap();
    let bundle = some("{\"version\":\"1\",\"dsh\":{\"bundle\":{\"patch\":\"p\"}}}");
    let ids = some("insert:\n  - id: e\n");
    let known = vec![
        installed_pkg_info("a", &bundle, &ids),
        installed_pkg_info("b", &bundle, &None),
        None,
    ];
    let builtin = vec![("0.1".to_string(), "kernel".to_string())];
    let out = run_plugin_list(&m, &known, &builtin, "- id: e\n  disabled: true\n");
    assert_eq!(out.len(), 4);
    assert_eq!(out[0].name, "a");
    assert_eq!(out[0].spec_text, "^1");
    assert_eq!(out[0].enabled, Some(true));
    assert!(out[0].patch_disabled && !out[0].is_builtin);
    assert_eq!(out[0].entry_ids, list(&["e"]));
    assert_eq!(out[1].enabled, Some(false));
    assert!(!out[1].patch_disabled);
    assert_eq!(out[2].enabled, None);
    assert_eq!(out[2].version, "");
    assert_eq!(out[3].name, "core");
    assert!(out[3].is_builtin && out[3].is_bundle);
    assert_eq!(out[3].description, "kernel");
    assert_eq!(out[3].spec_text, "");
    assert_eq!(out[3].enabled, Some(true));
    assert!(disables_any(&list(&["x", "e"]), &list(&["e"])));
    assert!(!disables_any(&list(&[]), &list(&["e"])));
}
