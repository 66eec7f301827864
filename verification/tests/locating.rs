use dsh_launcher::locate::{
    clear_dsh_cache, dsh_home_dir, find_bin, find_dsh, get_installed_dsh_version, list_profiles,
    make_install, npm_config_cache, npm_root_global, open_install_dir, scan_npx_cache, search_start,
    search_step, web_url, Answer, DshCache, NpxEntry, Places, Probe, ProfileEntry, Search,
    DSH_BIN_REL,
};
use dsh_launcher::path::{ancestor, join_path, parent_of};

#[test]
fn pkg_root_is_five_levels_above_bin() {
    let inst = make_install(
        r"C:\cache\_npx\abc\node_modules\@deepseek-ai\dsh\lib\bin.js".to_string(),
        false,
    );
    assert_eq!(inst.pkg_root, r"C:\cache\_npx\abc");
    assert!(!inst.is_global);
}

#[test]
fn short_paths_have_no_root() {
    assert_eq!(make_install("bin.js".to_string(), true).pkg_root, "");
    assert_eq!(make_install(r"C:\a\b\c\d\e".to_string(), true).pkg_root, r"C:\");
    assert_eq!(make_install(r"C:\a\b\c\d".to_string(), true).pkg_root, "");
}

#[test]
fn going_up() {
    let up = |p: &str| parent_of(p);
    assert_eq!(up(r"C:\a\b").as_deref(), Some(r"C:\a"));
    assert_eq!(up(r"C:\a\").as_deref(), Some(r"C:\"));
    assert_eq!(up(r"C:\"), None);
    assert_eq!(up("C:"), None);
    assert_eq!(up("C:a").as_deref(), Some("C:"));
    assert_eq!(up("a").as_deref(), Some(""));
    assert_eq!(up(""), None);
    assert_eq!(up("a/b\\c").as_deref(), Some("a/b"));
    assert_eq!(up(r"a\.\b\.\").as_deref(), Some("a"));
    assert_eq!(up(r".\a").as_deref(), Some("."));
    assert_eq!(up(".").as_deref(), Some(""));
    assert_eq!(up(r"\\server\share\x").as_deref(), Some(r"\\server\share\"));
    assert_eq!(up(r"\\server\share\"), None);
    assert_eq!(up(r"..\x").as_deref(), Some(".."));
    assert_eq!(ancestor(r"C:\a\b\c", 2).as_deref(), Some(r"C:\a"));
    assert_eq!(ancestor("x", 0).as_deref(), Some("x"));
}

#[test]
fn joining() {
    assert_eq!(join_path(r"C:\a", "b"), r"C:\a\b");
    assert_eq!(join_path(r"C:\", "b"), r"C:\b");
    assert_eq!(join_path("C:", "b"), "C:b");
    assert_eq!(join_path("a/", "b"), "a/b");
    assert_eq!(join_path("", "b"), "b");
    assert_eq!(join_path(r"C:\a", ""), "C:\\a\\");
    assert_eq!(join_path(r"C:\a", "D:b"), "D:b");
    assert_eq!(join_path(r"C:\a", r"\b"), r"C:\b");
    assert_eq!(join_path(r"\\s\t\a", "/b"), r"\\s\t/b");
    assert_eq!(join_path("a", r"\\s\t\b"), r"\\s\t\b");
    assert_eq!(parent_of(&join_path(r"D:\x\y", "n")).as_deref(), Some(r"D:\x\y"));
}

fn places(d: &str, j: &str, local: Option<&str>) -> Places {
    Places {
        d_drive_path: d.to_string(),
        junction_path: j.to_string(),
        local_app_data: local.map(String::from),
    }
}

fn no() -> Answer {
    Answer {
        yes: false,
        text: None,
    }
}

fn text(t: &str) -> Answer {
    Answer {
        yes: false,
        text: Some(t.to_string()),
    }
}

fn asked(s: &Search) -> String {
    match s {
        Search::Asking(q) if !q.is_empty() => match &q[0] {
            Probe::File(p, g) => format!("file {} {}", p, g),
            Probe::NpmRoot => "root".to_string(),
            Probe::NpmCache => "cache".to_string(),
            Probe::Npx(p) => format!("npx {}", p),
        },
        _ => "done".to_string(),
    }
}

#[test]
fn search_asks_in_order() {
    let p = places("D:\\dsh", "D:\\npm", Some("C:\\Local"));
    let mut s = search_start(&p);
    assert_eq!(asked(&s), format!("file D:\\dsh\\{} false", DSH_BIN_REL));
    s = search_step(&p, s, no());
    assert_eq!(asked(&s), format!("file D:\\npm\\{} false", DSH_BIN_REL));
    s = search_step(&p, s, no());
    assert_eq!(asked(&s), "root");
    s = search_step(&p, s, text("C:\\g\\node_modules"));
    assert_eq!(
        asked(&s),
        "file C:\\g\\node_modules\\@deepseek-ai\\dsh\\lib\\bin.js true"
    );
    s = search_step(&p, s, no());
    assert_eq!(asked(&s), "cache");
    s = search_step(&p, s, text("d:\\NPM"));
    assert_eq!(asked(&s), "npx d:\\NPM");
    s = search_step(&p, s, no());
    assert_eq!(asked(&s), "npx C:\\Local\\npm-cache");
    s = search_step(&p, s, no());
    // the junction is the cache already, letters large or small
    assert_eq!(asked(&s), "npx D:\\dsh");
    s = search_step(&p, s, no());
    assert_eq!(asked(&s), "done");
    assert!(matches!(search_step(&p, s, no()), Search::Done(None)));
}

#[test]
fn search_takes_the_first_hit() {
    let p = places("", "D:\\npm", None);
    let s = search_step(
        &p,
        search_start(&p),
        Answer {
            yes: true,
            text: None,
        },
    );
    match s {
        Search::Done(Some(i)) => {
            assert_eq!(i.pkg_root, "D:\\npm");
            assert!(!i.is_global);
        }
        _ => panic!("not found"),
    }
    let p = places("", "", None);
    let mut s = search_start(&p);
    s = search_step(&p, s, no());
    s = search_step(&p, s, text("C:\\cache"));
    s = search_step(&p, s, text("C:\\cache\\_npx\\h\\node_modules\\@deepseek-ai\\dsh\\lib\\bin.js"));
    match s {
        Search::Done(Some(i)) => assert_eq!(i.pkg_root, "C:\\cache\\_npx\\h"),
        _ => panic!("not found"),
    }
}

#[test]
fn only_hits_are_remembered() {
    let mut cache = DshCache { install: None };
    assert!(find_dsh(&mut cache, None).is_none());
    assert!(cache.install.is_none());
    let found = find_dsh(&mut cache, Some(make_install(r"C:\r\a\b\c\d\bin.js".to_string(), true)));
    assert_eq!(find_bin(&found).as_deref(), Some(r"C:\r\a\b\c\d\bin.js"));
    let other = find_dsh(&mut cache, Some(make_install("x".to_string(), false)));
    assert_eq!(other.unwrap().pkg_root, r"C:\r");
    clear_dsh_cache(&mut cache);
    assert!(find_dsh(&mut cache, None).is_none());
    assert_eq!(find_bin(&None), None);
}

#[test]
fn npm_answers() {
    assert_eq!(
        npm_root_global(Some(b" C:\\g\\node_modules\r\n")).as_deref(),
        Some("C:\\g\\node_modules")
    );
    assert_eq!(npm_root_global(Some(b" \n")), None);
    assert_eq!(npm_root_global(None), None);
    assert_eq!(npm_config_cache(Some(b"C:\\c\n")).as_deref(), Some("C:\\c"));
    assert_eq!(npm_config_cache(Some(b"undefined\n")), None);
    assert_eq!(npm_config_cache(Some(b"a\xffb")).as_deref(), Some("a\u{fffd}b"));
}

fn npx(path: &str, is_dir: bool, has_bin: bool, modified: u128) -> NpxEntry {
    NpxEntry {
        path: path.to_string(),
        is_dir,
        has_bin,
        modified,
    }
}

#[test]
fn newest_npx_entry_wins() {
    let list = vec![
        npx("C:\\n\\a", true, true, 5),
        npx("C:\\n\\b", true, true, 9),
        npx("C:\\n\\c", true, false, 99),
        npx("C:\\n\\d", false, true, 99),
        npx("C:\\n\\e", true, true, 9),
        npx("C:\\n\\f", true, true, 1),
    ];
    assert_eq!(
        scan_npx_cache(&list),
        Some(format!("C:\\n\\e\\{}", DSH_BIN_REL))
    );
    assert_eq!(scan_npx_cache(&vec![npx("x", true, false, 1)]), None);
}

#[test]
fn data_directory() {
    let s = |t: &str| Some(t.to_string());
    assert_eq!(dsh_home_dir(&s(" D:\\data "), &s("C:\\u")), "D:\\data");
    assert_eq!(dsh_home_dir(&s("  "), &s("C:\\u")), "C:\\u\\.dsh");
    assert_eq!(dsh_home_dir(&None, &None), ".dsh");
}

#[test]
fn addresses_and_versions() {
    assert_eq!(web_url(3080), "http://127.0.0.1:3080");
    let s = |t: &str| Some(t.to_string());
    assert_eq!(
        get_installed_dsh_version(&s("{\"version\":\"0.1.5\"}")).as_deref(),
        Some("0.1.5")
    );
    assert_eq!(get_installed_dsh_version(&s("{\"version\":1}")), None);
    assert_eq!(get_installed_dsh_version(&s("{")), None);
    assert_eq!(get_installed_dsh_version(&None), None);
}

#[test]
fn profiles_are_sorted() {
    let e = |n: &str, p: bool| ProfileEntry {
        name: n.to_string(),
        has_package: p,
    };
    assert_eq!(
        list_profiles(&vec![
            e("web", true),
            e("node_modules", true),
            e("empty", false),
            e("dsh-tui", true),
        ]),
        vec!["dsh-tui", "web"]
    );
}

#[test]
fn opening_the_installation() {
    assert_eq!(
        open_install_dir(&Some(make_install(r"C:\r\a\b\c\d\bin.js".to_string(), true))),
        "已打开 C:\\r"
    );
    assert_eq!(open_install_dir(&None), "未找到 DSH 安装目录（尚未安装）");
}
