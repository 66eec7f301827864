use dsh_launcher::json::parse;
use dsh_launcher::plugin_ops::{
    detail_in, fill_slots, install_into, is_fresh_package_error, known_version, manifest_to_check,
    plugin_check_updates, plugin_detail, plugin_install, plugin_remove, plugin_toggle,
    plugin_update, readme_excerpt, remove_from, removed, run_plugin_update_with_retry,
    run_profile_cmd, update_in, update_info, wants_publish_time, PluginUpdateInfo, RetryStep, Slot,
};
use dsh_launcher::plugins::{installed_pkg_info, read_manifest, PkgInfo};

fn some(t: &str) -> Option<String> {
    Some(t.to_string())
}

fn list(items: &[&str]) -> Vec<String> {
    items.iter().map(|s| s.to_string()).collect()
}

fn bundle(patch: &str) -> Option<PkgInfo> {
    installed_pkg_info(
        "demo",
        &some("{\"version\":\"1.0.0\",\"dsh\":{\"bundle\":{\"patch\":\"p\"}}}"),
        &some(patch),
    )
}

const PROFILE: &str =
    "{\"dependencies\":{\"demo\":\"^1\"},\"dsh\":{\"profile\":{\"bundles\":[\"core\"]}}}";

#[test]
fn profile_commands() {
    assert_eq!(
        run_profile_cmd(&some("b.js"), "web", &list(&["add", "x"])),
        Ok(list(&["b.js", "plugin", "--profile", "web", "add", "x"]))
    );
    assert_eq!(
        run_profile_cmd(&None, "web", &list(&[])).err(),
        some("未找到 dsh CLI 入口文件")
    );
}

#[test]
fn installing() {
    assert_eq!(
        plugin_install(" x@2 ", &some(PROFILE)),
        Ok(list(&["add", "x@2"]))
    );
    assert_eq!(
        plugin_install("demo@2.0.0", &some(PROFILE)).err(),
        some("插件 demo 已安装，如需升级请用「更新」")
    );
    // what cannot be read stands in the way of nothing
    assert_eq!(plugin_install("demo", &None), Ok(list(&["add", "demo"])));
    assert_eq!(plugin_install("demo", &some("{")), Ok(list(&["add", "demo"])));
    assert_eq!(
        plugin_install("a|b", &None).err(),
        some("包名包含不安全的 shell 字符")
    );
    assert_eq!(
        install_into("x", &read_manifest(&some(PROFILE))),
        Ok(list(&["add", "x"]))
    );
    assert_eq!(known_version(&bundle("")), "1.0.0");
    assert_eq!(known_version(&None), "");
}

#[test]
fn removing() {
    assert_eq!(
        plugin_remove(" demo ", "web", &some(PROFILE)),
        Ok(list(&["remove", "demo"]))
    );
    assert_eq!(
        plugin_remove("core", "web", &some(PROFILE)).err(),
        some("core 是 DSH 内置组件，不能卸载")
    );
    assert_eq!(
        plugin_remove("x", "web", &some(PROFILE)).err(),
        some("插件 x 不在已安装列表")
    );
    assert_eq!(
        plugin_remove("x", "web", &None).err(),
        some("web profile 尚未初始化")
    );
    assert_eq!(
        plugin_remove("x", "web", &some("{")).err(),
        some("web profile 配置解析失败")
    );
    assert_eq!(
        plugin_remove("a\\b", "web", &None).err(),
        some("无效的插件名：a\\b")
    );
    let m = read_manifest(&some(PROFILE)).unwrap();
    assert_eq!(remove_from("demo", &m), Ok(list(&["remove", "demo"])));
    assert_eq!(removed("x", &Ok(())), Ok("removed".to_string()));
    assert_eq!(
        removed("x", &Err("e".to_string())).err(),
        some("插件 x 已卸载，但清理禁用配置失败：e")
    );
}

#[test]
fn fresh_errors_are_tried_again_once() {
    for needle in [
        "ERR_PNPM_NO_MATCHING_VERSION",
        "No matching version found",
        "ERR_PNPM_FETCH_404",
        "ETARGET",
        "E404",
        "404 Not Found",
    ] {
        assert!(is_fresh_package_error(&format!("x {} y", needle)));
    }
    assert!(!is_fresh_package_error("EPERM"));
    let fresh: Result<(), String> = Err("a\nE404".to_string());
    match run_plugin_update_with_retry(false, &fresh, "插件 x 更新") {
        RetryStep::Retry(said, logged) => {
            assert_eq!(
                said,
                "检测到新版本尚未同步完成（registry 元数据/包文件传播中），3 秒后重试一次…"
            );
            assert_eq!(
                logged,
                "插件 x 更新 首次失败，疑似发布同步延迟，重试一次：a E404"
            );
        }
        _ => panic!("no retry"),
    }
    match run_plugin_update_with_retry(true, &fresh, "l") {
        RetryStep::Done(Err(e)) => assert_eq!(
            e,
            "a\nE404\n\n该版本可能刚发布不久：registry 元数据或包文件尚未在你本地与 CDN 同步完成。建议等 5–30 分钟后重试；完整输出已写入 exe 旁 launcher.log"
        ),
        _ => panic!("retried twice"),
    }
    assert!(matches!(
        run_plugin_update_with_retry(false, &Ok(()), "l"),
        RetryStep::Done(Ok(()))
    ));
    match run_plugin_update_with_retry(false, &Err("EPERM".to_string()), "l") {
        RetryStep::Done(Err(e)) => assert_eq!(e, "EPERM"),
        _ => panic!("retried"),
    }
}

#[test]
fn updating_plugins() {
    let p = plugin_update(true, &None, &None).ok().unwrap();
    assert_eq!(p.args, list(&["update", "--latest"]));
    assert_eq!(p.label, "全部插件更新");
    assert_eq!(p.answer, "all");
    let p = plugin_update(false, &some(" demo "), &some(PROFILE)).ok().unwrap();
    assert_eq!(p.args, list(&["update", "--latest", "demo"]));
    assert_eq!(p.label, "插件 demo 更新");
    assert_eq!(p.answer, "demo");
    assert_eq!(
        plugin_update(false, &None, &None).err(),
        some("缺少插件名")
    );
    assert_eq!(
        plugin_update(false, &some("core"), &some(PROFILE)).err(),
        some("core 不在已安装插件列表（内置组件随 DSH 本体更新）")
    );
    assert_eq!(
        plugin_update(false, &some("a:b"), &None).err(),
        some("无效的插件名：a:b")
    );
    assert!(update_in(false, &some("x"), &None).is_ok());
}

#[test]
fn checking_for_updates() {
    assert_eq!(
        manifest_to_check("web", &None).err(),
        some("web profile 尚未初始化")
    );
    assert_eq!(
        manifest_to_check("web", &some("x")).err(),
        some("web profile 配置解析失败")
    );
    let deps: Vec<(String, String)> = [("..", "^1"), ("gone", "^1"), ("local", "file:x"), ("demo", "^1")]
        .iter()
        .map(|(a, b)| (a.to_string(), b.to_string()))
        .collect();
    let slots = plugin_check_updates(&deps, &list(&["1", "", "2", "3"]));
    assert_eq!(slots.len(), 4);
    match &slots[0] {
        Slot::Ready(i) => {
            assert_eq!(i.error, some("清单中的插件名无效，已跳过检查"));
            assert_eq!(i.installed, "");
        }
        _ => panic!("asked"),
    }
    match &slots[1] {
        Slot::Ready(i) => assert_eq!(i.error, some("未找到已安装的 package.json")),
        _ => panic!("asked"),
    }
    match &slots[2] {
        Slot::Ready(i) => {
            assert_eq!((i.installed.as_str(), i.latest.as_str()), ("2", ""));
            assert_eq!(i.error, None);
        }
        _ => panic!("asked"),
    }
    assert!(matches!(&slots[3], Slot::Ask(n, v) if n == "demo" && v == "3"));

    let answer = update_info("demo", "3", &Ok("4".to_string()), &None, 0);
    let out = fill_slots(&slots, &vec![None, None, None, Some(answer)]);
    assert_eq!(out[3].latest, "4");
    assert_eq!(out[2].name, "local");
    let out = fill_slots(&slots, &vec![None, None, None, None]);
    assert_eq!(out[3].name, "");
    assert_eq!(out[3].error, some("检查线程异常"));
}

#[test]
fn ages_of_new_versions() {
    let newer: Result<String, String> = Ok("2.0.0".to_string());
    assert!(wants_publish_time(&newer, "1.9.9"));
    assert!(!wants_publish_time(&newer, "2.0.0"));
    assert!(!wants_publish_time(&Err("x".to_string()), "1.0.0"));
    let at = some("1970-01-01T01:00:00Z");
    let i = update_info("n", "1.9.9", &newer, &at, 3600 + 125);
    assert_eq!(i.age_minutes, Some(2));
    assert_eq!(i.published_at, at);
    assert_eq!(i.latest, "2.0.0");
    // a clock that runs behind rounds towards zero
    assert_eq!(update_info("n", "1.9.9", &newer, &at, 3600 - 125).age_minutes, Some(-2));
    let i = update_info("n", "1.9.9", &newer, &some("soon"), 9);
    assert_eq!((i.published_at, i.age_minutes), (some("soon"), None));
    let i = update_info("n", "2.0.0", &newer, &at, 9);
    assert_eq!((i.published_at, i.age_minutes), (None, None));
    let i = update_info("n", "1", &Err("e".to_string()), &at, 9);
    assert_eq!(i.error, some("e"));
    assert_eq!(i.latest, "");
    assert_eq!(PluginUpdateInfo::bare("n", "1").error, None);
    assert_eq!(PluginUpdateInfo::with_error("n", "1", "e").installed, "1");
}

#[test]
fn toggling() {
    let known = bundle("insert:\n  - id: e\n");
    let off = plugin_toggle(" demo ", false, &known, "").ok().unwrap();
    assert_eq!(off.answer, "disabled");
    assert_eq!(
        off.text,
        "# --- 由 DSH 启动器管理：禁用 demo ---\n- id: e\n  disabled: true\n"
    );
    let on = plugin_toggle("demo", true, &known, &off.text).ok().unwrap();
    assert_eq!(on.answer, "enabled");
    assert_eq!(on.text, "[]\n");
    assert_eq!(
        plugin_toggle("demo", false, &known, &off.text).err(),
        some("demo 已处于禁用状态")
    );
    assert_eq!(
        plugin_toggle("demo", false, &known, "- id: e\n  disabled: yes\n").err(),
        some("demo 已处于禁用状态")
    );
    assert_eq!(
        plugin_toggle("demo", true, &known, "- id: e\n  disabled: yes\n").err(),
        some("demo 的禁用项来自用户配置，未自动修改；请手工移除对应 disabled 条目")
    );
    assert_eq!(
        plugin_toggle("demo", true, &known, "").err(),
        some("demo 未处于禁用状态")
    );
    assert_eq!(plugin_toggle("demo", true, &None, "").err(), some("插件 demo 未安装"));
    assert_eq!(
        plugin_toggle("demo", true, &bundle("x"), "").err(),
        some("demo 的 bundle 未声明可管理的入口（insert id），无法启用/禁用")
    );
    let plain = installed_pkg_info("demo", &some("{}"), &None);
    assert_eq!(
        plugin_toggle("demo", true, &plain, "").err(),
        some("demo 不是 profile 层插件（普通依赖库），不支持启用/禁用")
    );
    assert!(plugin_toggle("..", true, &known, "").is_err());
}

#[test]
fn details() {
    let package = some(
        "{\"version\":\"1\",\"description\":\"d\",\"license\":\"MIT\",\"homepage\":\"h\",\"repository\":{\"type\":\"git\",\"url\":\"u\"}}",
    );
    let known = bundle("insert:\n  - id: e\n");
    let d = plugin_detail(" demo ", &package, &some(PROFILE), &known, &some("# hi"))
        .ok()
        .unwrap();
    assert_eq!(
        (d.name.as_str(), d.version.as_str(), d.spec_text.as_str()),
        ("demo", "1", "^1")
    );
    assert_eq!(
        (d.description.as_str(), d.license.as_str(), d.homepage.as_str()),
        ("d", "MIT", "h")
    );
    assert_eq!(d.repository, "u");
    assert!(d.is_bundle);
    assert_eq!(d.entry_ids, list(&["e"]));
    assert_eq!(d.readme, "# hi");
    assert_eq!(
        plugin_detail("demo", &None, &None, &None, &None).err(),
        some("插件 demo 未安装")
    );
    assert_eq!(
        plugin_detail("demo", &some("{"), &None, &None, &None).err(),
        some("插件配置解析失败")
    );
    assert!(plugin_detail("..", &package, &None, &None, &None).is_err());
    let d = detail_in(
        "demo",
        &parse("{\"repository\":\"r\"}").unwrap(),
        &None,
        &None,
        &None,
    );
    assert_eq!(d.repository, "r");
    assert_eq!(d.spec_text, "");
    assert!(!d.is_bundle && d.readme.is_empty());
}

#[test]
fn readmes_are_cut() {
    let whole = "文".repeat(2000);
    assert_eq!(readme_excerpt(&whole), whole);
    let long = "文".repeat(2001);
    assert_eq!(readme_excerpt(&long), format!("{}…", whole));
    assert_eq!(readme_excerpt(""), "");
}
