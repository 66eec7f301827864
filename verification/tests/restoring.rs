use dsh_launcher::restore::{
    bak_name, find_content_root, first_error, has_dsh_markers, is_bak_name, is_sound, last_stale,
    lies_in, pack_dsh_home, pnpm_program, protected_paths, rebuild_plugins, restore_dsh_impl,
    stale_note, swap_message, swap_restore, swap_start, valid_backup_name, validate_home_target,
    ContentRoot, Contents, DataMarkers, HomeFacts, PackEvidence, PackStep, Rebuilt, RestoreEvidence,
    RestoreStep, SwapEnd, SwapStep,
};

fn some(t: &str) -> Option<String> {
    Some(t.to_string())
}

fn list(items: &[&str]) -> Vec<String> {
    items.iter().map(|s| s.to_string()).collect()
}

fn nothing() -> DataMarkers {
    DataMarkers {
        settings: false,
        settings_file: false,
        sessions: false,
        profiles: false,
        storages: false,
    }
}

fn data() -> DataMarkers {
    DataMarkers {
        settings: true,
        settings_file: true,
        profiles: true,
        ..nothing()
    }
}

#[test]
fn content_root_detection() {
    assert!(find_content_root(true, &nothing(), &vec![]) == ContentRoot::Top);
    assert!(find_content_root(false, &data(), &vec![nothing()]) == ContentRoot::Top);
    assert!(find_content_root(false, &nothing(), &vec![data()]) == ContentRoot::Below);
    assert!(find_content_root(false, &nothing(), &vec![nothing(), nothing()]) == ContentRoot::Nowhere);
    assert!(find_content_root(false, &nothing(), &vec![data(), nothing()]) == ContentRoot::Nowhere);
    assert!(find_content_root(false, &nothing(), &vec![nothing()]) == ContentRoot::Nowhere);
    assert!(find_content_root(false, &nothing(), &vec![]) == ContentRoot::Nowhere);
}

#[test]
fn marks_of_the_data() {
    assert!(!has_dsh_markers(&nothing()));
    for i in 0..4 {
        let m = DataMarkers {
            settings: i == 0,
            settings_file: false,
            sessions: i == 1,
            profiles: i == 2,
            storages: i == 3,
        };
        assert!(has_dsh_markers(&m));
    }
}

#[test]
fn soundness() {
    assert!(is_sound(&some("{\"app\":\"dsh-launcher\"}"), &nothing()));
    assert!(!is_sound(&some("{}"), &nothing()));
    assert!(is_sound(&some("{}"), &data()));
    assert!(!is_sound(&None, &nothing()));
    let mut m = data();
    m.settings_file = false;
    assert!(!is_sound(&None, &m));
    let only = DataMarkers {
        settings: true,
        settings_file: true,
        ..nothing()
    };
    assert!(!is_sound(&None, &only));
}

fn home(shown: &str, names: &[&str]) -> HomeFacts {
    HomeFacts {
        shown: shown.to_string(),
        is_absolute: true,
        names: list(names),
        has_parent: true,
        protected: vec![
            list(&["C:", "\\", "Users", "u"]),
            list(&["C:", "\\", "Users", "u", "Desktop"]),
            list(&["C:", "\\", "Users", "u", "Temp"]),
        ],
        is_dir: false,
        non_empty: false,
        markers: nothing(),
    }
}

#[test]
fn home_target_validation() {
    let mut h = home("relative/path", &["relative", "path"]);
    h.is_absolute = false;
    assert_eq!(
        validate_home_target(&h).err(),
        some("DSH_HOME 不是绝对路径，已中止：relative/path")
    );
    let mut h = home("C:\\", &["C:", "\\"]);
    h.has_parent = false;
    assert_eq!(
        validate_home_target(&h).err(),
        some("DSH_HOME 指向盘符根目录，已中止：C:\\")
    );
    for names in [
        vec!["C:", "\\", "Users", "u"],
        vec!["C:", "\\", "Users", "u", "Desktop"],
        vec!["C:", "\\", "Users", "u", "Temp"],
    ] {
        let shown = names.join("/");
        let e = validate_home_target(&home(&shown, &names)).err().unwrap();
        // the user's directory lies above the two others, and is found first
        assert_eq!(e, format!("DSH_HOME 指向系统关键目录，已中止：{}", shown));
    }
    assert_eq!(
        validate_home_target(&home("C:\\Users", &["C:", "\\", "Users"])).err(),
        some("DSH_HOME 是用户目录的上级目录，已中止：C:\\Users")
    );
    let fresh = || home("x", &["C:", "\\", "Users", "u", "Temp", "new"]);
    assert!(validate_home_target(&fresh()).is_ok());
    let mut h = fresh();
    h.is_dir = true;
    assert!(validate_home_target(&h).is_ok());
    h.non_empty = true;
    assert_eq!(
        validate_home_target(&h).err(),
        some("DSH_HOME 目录不含 DSH 数据特征（settings.yaml / profiles 等），已中止：x")
    );
    h.markers = data();
    assert!(validate_home_target(&h).is_ok());
}

#[test]
fn protected_places() {
    assert_eq!(
        protected_paths("C:\\u\\", "T1", &some("T2"), &some("T3")),
        list(&["C:\\u\\", "C:\\u\\Desktop", "T1", "T2", "T3"])
    );
    assert_eq!(protected_paths("  ", "T1", &None, &None), list(&["T1"]));
}

fn walk(start: SwapStep, fails: &[SwapStep]) -> (Vec<SwapStep>, SwapEnd) {
    let mut step = start;
    let mut done = Vec::new();
    loop {
        match step {
            SwapStep::End(e) => return (done, e),
            s => {
                done.push(s);
                step = swap_restore(s, !fails.contains(&s));
            }
        }
    }
}

#[test]
fn replacing_the_data() {
    let is = |start: SwapStep, fails: &[SwapStep], steps: &[SwapStep], end: SwapEnd| {
        let (done, e) = walk(start, fails);
        assert!(done == steps.to_vec());
        assert!(e == end);
    };
    let start = || swap_start(true, false);
    is(start(), &[], &[SwapStep::Move, SwapStep::Make, SwapStep::Copy, SwapStep::RemoveOld], SwapEnd::Restored);
    is(start(), &[SwapStep::RemoveOld], &[SwapStep::Move, SwapStep::Make, SwapStep::Copy, SwapStep::RemoveOld], SwapEnd::LeftOver);
    is(start(), &[SwapStep::Move], &[SwapStep::Move], SwapEnd::NotMoved);
    is(start(), &[SwapStep::Make], &[SwapStep::Move, SwapStep::Make, SwapStep::UndoMove], SwapEnd::NotMade);
    is(start(), &[SwapStep::Copy], &[SwapStep::Move, SwapStep::Make, SwapStep::Copy, SwapStep::RemoveCopy, SwapStep::UndoCopy], SwapEnd::RolledBack);
    is(
        start(),
        &[SwapStep::Copy, SwapStep::RemoveCopy, SwapStep::UndoCopy],
        &[SwapStep::Move, SwapStep::Make, SwapStep::Copy, SwapStep::RemoveCopy, SwapStep::UndoCopy],
        SwapEnd::Stranded,
    );
    is(swap_start(true, true), &[], &[], SwapEnd::Busy);
    is(swap_start(false, true), &[], &[SwapStep::FreshMake, SwapStep::FreshCopy], SwapEnd::Restored);
    is(swap_start(false, false), &[SwapStep::FreshMake], &[SwapStep::FreshMake], SwapEnd::FreshNotMade);
    is(swap_start(false, false), &[SwapStep::FreshCopy], &[SwapStep::FreshMake, SwapStep::FreshCopy], SwapEnd::FreshNotCopied);
}

#[test]
fn what_is_told_of_a_swap() {
    let say = |e: SwapEnd, stale: &Option<String>| swap_message(e, "E", "B", stale);
    assert_eq!(say(SwapEnd::Restored, &None), Ok(None));
    assert_eq!(say(SwapEnd::Restored, &some("s")), Ok(some("s")));
    assert_eq!(
        say(SwapEnd::LeftOver, &None),
        Ok(some("恢复前数据已保留在 B，可手动删除"))
    );
    assert_eq!(
        say(SwapEnd::LeftOver, &some("s")),
        Ok(some("恢复前数据已保留在 B，可手动删除\ns"))
    );
    assert_eq!(say(SwapEnd::Busy, &None).err(), some("DSH 正在运行，请先停止 DSH 再恢复"));
    assert_eq!(say(SwapEnd::NotMoved, &None).err(), some("移动当前数据目录失败：E"));
    assert_eq!(say(SwapEnd::NotMade, &None).err(), some("创建数据目录失败：E"));
    assert_eq!(
        say(SwapEnd::RolledBack, &None).err(),
        some("恢复复制失败：E（已回滚，原数据未受影响）")
    );
    assert_eq!(
        say(SwapEnd::Stranded, &None).err(),
        some("恢复复制失败：E\n原数据已移动到 B，请手动恢复")
    );
    assert_eq!(say(SwapEnd::FreshNotMade, &None).err(), some("创建数据目录失败：E"));
    assert_eq!(say(SwapEnd::FreshNotCopied, &None).err(), some("恢复复制失败：E"));
    assert_eq!(bak_name(".dsh", "2026-01-02_030405"), ".dsh.bak-2026-01-02_030405");
    assert!(is_bak_name(".dsh.bak-x", ".dsh"));
    assert!(!is_bak_name(".dsh-bak-x", ".dsh"));
    assert_eq!(
        stale_note("C:\\u\\.dsh.bak-1"),
        "发现上次恢复遗留的数据备份 C:\\u\\.dsh.bak-1（确认无需回退后可手动删除）"
    );
}

#[test]
fn rebuilding_plugins() {
    assert_eq!(pnpm_program(true, true), Some("pnpm.cmd"));
    assert_eq!(pnpm_program(false, true), Some("pnpm"));
    assert_eq!(pnpm_program(false, false), None);
    let r = |n: &str, e: Option<&str>| Rebuilt {
        name: n.to_string(),
        error: e.map(String::from),
    };
    assert_eq!(
        rebuild_plugins(0, true, &vec![]),
        "插件重建：未发现需要重建的 profile（profiles 目录为空）"
    );
    assert_eq!(
        rebuild_plugins(2, false, &vec![]),
        "插件重建：未找到 pnpm，已跳过插件安装（可在插件管理中手动重建）"
    );
    assert_eq!(
        rebuild_plugins(2, true, &vec![r("a", None), r("b", None)]),
        "插件重建：2 个 profile 全部成功"
    );
    assert_eq!(
        rebuild_plugins(3, true, &vec![r("a", Some("x")), r("b", None), r("c", Some("y"))]),
        "插件重建：1 个 profile 成功，2 个失败：a：x\nc：y"
    );
}

#[test]
fn backup_names() {
    assert!(valid_backup_name(" dsh-backup-1.ZIP "));
    assert!(valid_backup_name("数据.zip"));
    for bad in [
        "", "a.tar", "a/b.zip", "a\\b.zip", "C:a.zip", "a*.zip", "a?.zip", "a\".zip", "a<.zip", "a>.zip",
        "a|.zip", "a..b.zip", "a\u{1}.zip", "..zip",
    ] {
        assert!(!valid_backup_name(bad), "{}", bad);
    }
}

fn evidence() -> RestoreEvidence {
    RestoreEvidence {
        file: None,
        running: None,
        temp: None,
        unpacked: None,
        contents: None,
        saved: None,
        swapped: None,
        rebuilt: None,
        cleaned: false,
    }
}

#[test]
fn restoring_step_by_step() {
    let next = |ev: &RestoreEvidence| restore_dsh_impl("a.zip", ev);
    let mut ev = evidence();
    assert!(matches!(next(&ev), RestoreStep::AskFile));
    ev.file = Some(true);
    assert!(matches!(next(&ev), RestoreStep::AskRunning));
    ev.running = Some(false);
    assert!(matches!(next(&ev), RestoreStep::MakeTemp));
    ev.temp = Some(Ok(()));
    assert!(matches!(next(&ev), RestoreStep::Unpack));
    ev.unpacked = Some(Ok(()));
    assert!(matches!(next(&ev), RestoreStep::Inspect));
    ev.contents = Some(Contents {
        root: ContentRoot::Top,
        sound: true,
        sessions: 3,
    });
    assert!(matches!(next(&ev), RestoreStep::Save));
    ev.saved = Some(Ok(()));
    assert!(matches!(next(&ev), RestoreStep::Swap));
    ev.swapped = Some(Ok(some("note")));
    assert!(matches!(next(&ev), RestoreStep::Rebuild));
    ev.rebuilt = some("plugins");
    assert!(matches!(next(&ev), RestoreStep::Clean));
    ev.cleaned = true;
    match next(&ev) {
        RestoreStep::Done(Ok(t)) => assert_eq!(
            t,
            "已恢复 DSH 数据（配置文件、3 个会话、插件清单）\nplugins\nnote"
        ),
        _ => panic!("not done"),
    }
    ev.swapped = Some(Ok(None));
    match next(&ev) {
        RestoreStep::Done(Ok(t)) => assert_eq!(
            t,
            "已恢复 DSH 数据（配置文件、3 个会话、插件清单）\nplugins"
        ),
        _ => panic!("not done"),
    }
}

fn told(file_name: &str, ev: &RestoreEvidence) -> String {
    match restore_dsh_impl(file_name, ev) {
        RestoreStep::Done(Err(e)) => e,
        _ => panic!("not refused"),
    }
}

#[test]
fn restoring_is_refused() {
    let mut ev = evidence();
    assert_eq!(told("../a.zip", &ev), "无效的备份文件");
    ev.file = Some(false);
    assert_eq!(told("a.zip", &ev), "无效的备份文件");
    ev.file = Some(true);
    ev.running = Some(true);
    assert_eq!(told("a.zip", &ev), "DSH 正在运行，请先停止 DSH 再恢复");
    ev.running = Some(false);
    ev.temp = Some(Err("full".to_string()));
    assert_eq!(told("a.zip", &ev), "创建临时目录失败：full");
    ev.temp = Some(Ok(()));
    ev.unpacked = Some(Err("zip".to_string()));
    assert!(matches!(restore_dsh_impl("a.zip", &ev), RestoreStep::Clean));
    ev.cleaned = true;
    assert_eq!(told("a.zip", &ev), "zip");
    ev.unpacked = Some(Ok(()));
    ev.contents = Some(Contents {
        root: ContentRoot::Nowhere,
        sound: false,
        sessions: 0,
    });
    assert_eq!(told("a.zip", &ev), "备份文件无效（缺少 DSH 数据）");
    ev.contents = Some(Contents {
        root: ContentRoot::Below,
        sound: false,
        sessions: 0,
    });
    assert_eq!(told("a.zip", &ev), "备份文件无效（缺少 DSH 数据或清单损坏）");
    ev.contents = Some(Contents {
        root: ContentRoot::Below,
        sound: true,
        sessions: 0,
    });
    ev.saved = Some(Err("save".to_string()));
    assert_eq!(told("a.zip", &ev), "save");
    ev.saved = Some(Ok(()));
    ev.swapped = Some(Err("swap".to_string()));
    assert_eq!(told("a.zip", &ev), "swap");
}

#[test]
fn packing_step_by_step() {
    let mut ev = PackEvidence {
        temp: None,
        copied: None,
        manifest: None,
        zipped: None,
        checked: None,
        cleaned: false,
    };
    match pack_dsh_home(false, &ev) {
        PackStep::Done(Err(e)) => assert_eq!(e, "未找到 DSH 数据目录"),
        _ => panic!("packed nothing"),
    }
    assert!(matches!(pack_dsh_home(true, &ev), PackStep::MakeTemp));
    ev.temp = Some(Err("x".to_string()));
    match pack_dsh_home(true, &ev) {
        PackStep::Done(Err(e)) => assert_eq!(e, "创建临时目录失败：x"),
        _ => panic!("went on"),
    }
    ev.temp = Some(Ok(()));
    assert!(matches!(pack_dsh_home(true, &ev), PackStep::Copy));
    ev.copied = Some(Ok(()));
    assert!(matches!(pack_dsh_home(true, &ev), PackStep::WriteManifest));
    ev.manifest = Some(Ok(()));
    assert!(matches!(pack_dsh_home(true, &ev), PackStep::Zip));
    ev.zipped = Some(Ok(()));
    assert!(matches!(pack_dsh_home(true, &ev), PackStep::Check));
    ev.checked = Some(Err("bad".to_string()));
    assert!(matches!(pack_dsh_home(true, &ev), PackStep::Clean));
    ev.cleaned = true;
    match pack_dsh_home(true, &ev) {
        PackStep::Done(Err(e)) => assert_eq!(e, "bad"),
        _ => panic!("not refused"),
    }
    ev.checked = Some(Ok(()));
    assert!(matches!(pack_dsh_home(true, &ev), PackStep::Done(Ok(()))));
    ev.copied = Some(Err("copy".to_string()));
    ev.cleaned = false;
    assert!(matches!(pack_dsh_home(true, &ev), PackStep::Clean));
}

#[test]
fn the_last_stale_name_is_told() {
    let names: Vec<String> = vec!["dsh.bak-1", "other", "dsh.bak-2", "dsh"]
        .into_iter()
        .map(|n| n.to_string())
        .collect();
    assert_eq!(last_stale(&names, "dsh"), Some(2));
    assert_eq!(last_stale(&names, "x"), None);
}

#[test]
fn paths_in_a_directory() {
    let dir = list(&["C:", "\\", "backups"]);
    assert!(lies_in(&list(&["C:", "\\", "backups", "a.zip"]), &dir));
    assert!(lies_in(&dir, &dir));
    assert!(!lies_in(&list(&["C:", "\\", "backups2", "a.zip"]), &dir));
    assert!(!lies_in(&list(&["C:", "\\"]), &dir));
}

#[test]
fn the_first_error_is_told() {
    assert_eq!(first_error(None, Ok(())), None);
    assert_eq!(first_error(None, Err("a".to_string())), some("a"));
    assert_eq!(first_error(some("a"), Err("b".to_string())), some("a"));
    assert_eq!(first_error(some("a"), Ok(())), some("a"));
}
