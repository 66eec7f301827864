use dsh_launcher::backup::{
    backup_dsh, backup_file_name, check_packed, cleanup_old_backups, cleanup_stale_temp_dirs,
    collect_zip_entries, format_backup_time, list_backup_files, open_backups_dir, packed_message,
    robocopy_options, run_robocopy, sanitize_entry_name, temp_dir_name, total_bytes,
    write_backup_manifest, BackupEvidence, BackupStep, FileEntry, Found, Kind, KEEP_BACKUPS,
    PACK_PREFIX, RESTORE_PREFIX,
};
use dsh_launcher::restore::{
    check_entry_count, extract_zip_safe, is_sound, DataMarkers, WriteBudget, ZipEntry, MAX_ENTRIES,
    MAX_TOTAL_BYTES,
};
use dsh_launcher::util::human_size;
use std::io::{Cursor, Read, Write};

fn list(items: &[&str]) -> Vec<String> {
    items.iter().map(|s| s.to_string()).collect()
}

#[test]
fn backup_time_formatting() {
    assert_eq!(
        format_backup_time("dsh-backup-2026-08-16_113023.zip"),
        "2026-08-16 11:30"
    );
    assert_eq!(
        format_backup_time("pre-restore-2026-08-16_113023.zip"),
        "2026-08-16 11:30"
    );
    assert_eq!(format_backup_time("random.zip"), "");
    assert_eq!(format_backup_time("dsh-backup-2026-08-16_1130.zip"), "");
    assert_eq!(format_backup_time("dsh-backup-2026-08-16_11302x.zip"), "");
    assert_eq!(format_backup_time("dsh-backup-20260816_113023.zip"), "");
}

#[test]
fn backup_time_edges() {
    // digits and dashes may stand in any order before the underscore
    assert_eq!(
        format_backup_time("dsh-backup-----------_000000.zip"),
        "---------- 00:00"
    );
    assert_eq!(format_backup_time("dsh-backup-2026-08-16_113023"), "");
    assert_eq!(format_backup_time("dsh-backup-日2026-08-1_113023.zip"), "");
}

#[test]
fn entry_name_sanitization() {
    let ok = |n: &str| sanitize_entry_name(n).is_some();
    let bad = |n: &str| sanitize_entry_name(n).is_none();
    assert!(ok("settings.yaml"));
    assert!(ok("profiles/web/package.json"));
    assert!(ok("sessions\\a\\b.json"));
    assert!(ok("a..b.txt"));
    assert!(ok("数据/会话.json"));
    assert!(bad("../evil.txt"));
    assert!(bad("a/../../evil.txt"));
    assert!(bad("/abs.txt"));
    assert!(bad("\\abs.txt"));
    assert!(bad("C:/evil.txt"));
    assert!(bad("a/b:c.txt"));
    assert!(bad("a<b.txt"));
    assert!(bad("con.txt"));
    assert!(bad("NUL"));
    assert!(bad("com7.log"));
    assert!(bad(""));
}

#[test]
fn entry_name_segments() {
    assert_eq!(sanitize_entry_name("a\\b//./c/"), Some(list(&["a", "b", "c"])));
    assert_eq!(sanitize_entry_name("./x"), Some(list(&["x"])));
    assert_eq!(sanitize_entry_name("."), None);
    assert_eq!(sanitize_entry_name("a\u{0}"), None);
    assert_eq!(sanitize_entry_name("a/lpt9.x.y"), None);
    assert_eq!(sanitize_entry_name("com10"), Some(list(&["com10"])));
    assert_eq!(sanitize_entry_name(".con"), Some(list(&[".con"])));
}

fn found(segs: &[&str], kind: Kind) -> Found {
    Found {
        segs: list(segs),
        kind,
    }
}

#[test]
fn zip_round_trip() {
    let files = vec![
        found(&["settings.yaml"], Kind::File),
        found(&["link"], Kind::Link),
        found(&["profiles"], Kind::Dir),
        found(&["profiles", "web"], Kind::Dir),
        found(&["profiles", "web", "package.json"], Kind::File),
        found(&["empty-dir"], Kind::Dir),
    ];
    let data = ["key: value\n中文内容", "", "", "", "{}", ""];
    let items = collect_zip_entries(&files);
    assert!(items.len() >= 4, "应包含文件与目录条目：{}", items.len());
    let names: Vec<&str> = items.iter().map(|i| i.name.as_str()).collect();
    assert_eq!(
        names,
        vec![
            "empty-dir/",
            "profiles/",
            "profiles/web/",
            "profiles/web/package.json",
            "settings.yaml"
        ]
    );

    let options = zip::write::SimpleFileOptions::default()
        .compression_method(zip::CompressionMethod::Deflated)
        .large_file(true);
    let mut writer = zip::ZipWriter::new(Cursor::new(Vec::new()));
    for i in &items {
        if i.is_dir {
            writer.add_directory(i.name.clone(), options).unwrap();
        } else {
            writer.start_file(i.name.clone(), options).unwrap();
            writer.write_all(data[i.source].as_bytes()).unwrap();
        }
    }
    let bytes = writer.finish().unwrap().into_inner();
    let sizes: Vec<u64> = items
        .iter()
        .filter(|i| !i.is_dir)
        .map(|i| data[i.source].len() as u64)
        .collect();
    let total = total_bytes(&sizes).unwrap();
    assert!(total > 0, "应统计出非零原始字节数：{}", total);

    let mut archive = zip::ZipArchive::new(Cursor::new(bytes)).unwrap();
    assert_eq!(check_entry_count(archive.len()), Ok(()));
    let mut listed: Vec<Result<ZipEntry, String>> = Vec::new();
    for i in 0..archive.len() {
        let e = archive.by_index(i).unwrap();
        listed.push(Ok(ZipEntry {
            name: e.name().to_string(),
            size: e.size(),
        }));
    }
    let places = extract_zip_safe(&listed).ok().unwrap();
    assert_eq!(places.len(), archive.len());
    let mut seen = 0;
    for (i, place) in places.iter().enumerate() {
        let mut e = archive.by_index(i).unwrap();
        let mut text = String::new();
        if !e.is_dir() {
            e.read_to_string(&mut text).unwrap();
        }
        let source = items[i].source;
        assert_eq!(place, &files[source].segs);
        assert_eq!(text, data[source]);
        assert_eq!(e.is_dir(), items[i].is_dir);
        seen += 1;
    }
    assert_eq!(seen, 5);
}

#[test]
fn zip_slip_rejected() {
    let mut writer = zip::ZipWriter::new(Cursor::new(Vec::new()));
    let options = zip::write::SimpleFileOptions::default();
    writer.start_file("good.txt", options).unwrap();
    writer.write_all(b"x").unwrap();
    writer.start_file("../evil.txt", options).unwrap();
    writer.write_all(b"pwned").unwrap();
    let bytes = writer.finish().unwrap().into_inner();
    let mut archive = zip::ZipArchive::new(Cursor::new(bytes)).unwrap();
    let mut listed: Vec<Result<ZipEntry, String>> = Vec::new();
    for i in 0..archive.len() {
        let e = archive.by_index(i).unwrap();
        listed.push(Ok(ZipEntry {
            name: e.name().to_string(),
            size: e.size(),
        }));
    }
    assert_eq!(
        extract_zip_safe(&listed).err().as_deref(),
        Some("备份文件包含不安全条目，已中止解压：../evil.txt")
    );
}

#[test]
fn archives_have_limits() {
    assert_eq!(check_entry_count(MAX_ENTRIES), Ok(()));
    assert_eq!(
        check_entry_count(200_001),
        Err("备份文件条目过多，已中止解压".to_string())
    );
    let entry = |n: &str, size: u64| {
        Ok(ZipEntry {
            name: n.to_string(),
            size,
        })
    };
    assert_eq!(MAX_TOTAL_BYTES, 8 * 1024 * 1024 * 1024);
    assert!(extract_zip_safe(&vec![entry("a", MAX_TOTAL_BYTES)]).is_ok());
    assert_eq!(
        extract_zip_safe(&vec![entry("a", MAX_TOTAL_BYTES), entry("b", 1)])
            .err()
            .as_deref(),
        Some("备份解压总量超过 8GB 上限，已中止：8589934593 字节")
    );
    assert_eq!(
        extract_zip_safe(&vec![entry("a", 1), entry("b", u64::MAX)])
            .err()
            .as_deref(),
        Some("备份解压总量超过 8GB 上限，已中止：18446744073709551615 字节")
    );
    assert_eq!(
        extract_zip_safe(&vec![entry("a", 1), Err("bad".to_string())])
            .err()
            .as_deref(),
        Some("备份条目 #1 无法读取：bad")
    );
    let mut budget = WriteBudget { written: 0 };
    assert_eq!(budget.wrote(MAX_TOTAL_BYTES), Ok(()));
    assert_eq!(
        budget.wrote(2),
        Err("解压实际总量超过 8GB 上限，已中止：8589934594 字节".to_string())
    );
    assert_eq!(budget.written, 8589934594);
}

#[test]
fn manifest_is_valid_json_with_app_marker() {
    let text = write_backup_manifest(
        "2026-08-29_120000",
        list(&["中 文'引号'.yaml", "a \"b\".txt"]),
    )
    .unwrap();
    let v: serde_json::Value = serde_json::from_str(&text).expect("清单必须是合法 JSON");
    assert_eq!(v["app"], "dsh-launcher");
    assert_eq!(v["time"], "2026-08-29_120000");
    let entries = v["entries"].as_array().unwrap();
    assert!(
        entries.iter().any(|e| e == "中 文'引号'.yaml"),
        "含空格/引号的文件名必须被正确转义"
    );
    assert_eq!(entries[0], "a \"b\".txt");
    let none = DataMarkers {
        settings: false,
        settings_file: false,
        sessions: false,
        profiles: false,
        storages: false,
    };
    assert!(is_sound(&Some(text), &none));
}

#[test]
fn sizes_like_floats() {
    let float = |bytes: u64| {
        let mb: f64 = 1024.0 * 1024.0;
        if bytes as f64 >= mb {
            format!("{:.1} MB", bytes as f64 / mb)
        } else {
            format!("{:.0} KB", bytes as f64 / 1024.0)
        }
    };
    for b in [
        0u64, 1, 511, 512, 513, 1023, 1024, 1535, 1536, 1537, 2560, 2561, 1_048_063, 1_048_064, 1_048_575,
        1_048_576, 1_100_000, 1_101_004, 1_101_005, 1_153_434, 1_205_862, 1_310_720, 1_835_008, 5_000_000_000,
        123_456_789_012,
    ] {
        assert_eq!(human_size(b), float(b), "{}", b);
    }
    for k in 0..200u64 {
        // a quarter and three quarters of a megabyte lie between two tenths
        let b = 1_048_576 * k + 1_048_576 + 262_144;
        assert_eq!(human_size(b), float(b), "{}", b);
        assert_eq!(human_size(b + 524_288), float(b + 524_288), "{}", b);
        assert_eq!(human_size(k * 1024 + 512), float(k * 1024 + 512), "{}", k);
    }
}

#[test]
fn packing_reports() {
    assert_eq!(total_bytes(&vec![1, 2, 3]), Some(6));
    assert_eq!(total_bytes(&vec![]), Some(0));
    assert_eq!(total_bytes(&vec![u64::MAX, 1]), None);
    assert_eq!(
        packed_message(3, 2048, 1024 * 1024),
        "压缩完成：3 个条目（原始 2 KB）→ 备份文件 1.0 MB"
    );
    assert_eq!(check_packed(true, &Ok(1)), Ok(()));
    assert_eq!(
        check_packed(true, &Ok(0)),
        Err("压缩完成但备份为空".to_string())
    );
    assert_eq!(
        check_packed(false, &Ok(1)),
        Err("压缩完成但未生成备份文件".to_string())
    );
    assert_eq!(check_packed(true, &Err("e".to_string())), Err("e".to_string()));
}

#[test]
fn robocopy_codes() {
    assert_eq!(run_robocopy(Some(0)), Ok(()));
    assert_eq!(run_robocopy(Some(7)), Ok(()));
    assert_eq!(run_robocopy(None), Ok(()));
    assert_eq!(
        run_robocopy(Some(8)),
        Err("robocopy 复制失败（退出码 8）".to_string())
    );
}

#[test]
fn listing_backups() {
    let f = |n: &str, size: Option<u64>| FileEntry {
        name: n.to_string(),
        size,
    };
    let out = list_backup_files(&vec![
        f("dsh-backup-2026-01-01_000000.zip", Some(5)),
        f("notes.txt", Some(1)),
        f("dir.zip", None),
        f("pre-restore-2026-02-02_030405.zip", Some(7)),
        f("dsh-backup-2026-03-01_000000.zip", Some(6)),
    ]);
    let names: Vec<&str> = out.iter().map(|b| b.file_name.as_str()).collect();
    assert_eq!(
        names,
        vec![
            "dsh-backup-2026-03-01_000000.zip",
            "pre-restore-2026-02-02_030405.zip",
            "dsh-backup-2026-01-01_000000.zip"
        ]
    );
    assert_eq!(out[0].kind, "backup");
    assert_eq!(out[1].kind, "pre-restore");
    assert_eq!(out[1].modified, "2026-02-02 03:04");
    assert_eq!(out[1].size, 7);
}

#[test]
fn the_newest_backup_is_listed_first() {
    let f = |n: &str| FileEntry {
        name: n.to_string(),
        size: Some(1),
    };
    let out = list_backup_files(&vec![
        f("by-hand.zip"),
        f("pre-restore-2026-08-16_090000.zip"),
        f("dsh-backup-2026-08-16_090000.zip"),
        f("dsh-backup-2026-08-17_090000.zip"),
        f("other.zip"),
    ]);
    let names: Vec<&str> = out.iter().map(|b| b.file_name.as_str()).collect();
    assert_eq!(
        names,
        vec![
            "dsh-backup-2026-08-17_090000.zip",
            "pre-restore-2026-08-16_090000.zip",
            "dsh-backup-2026-08-16_090000.zip",
            "other.zip",
            "by-hand.zip"
        ]
    );
}

#[test]
fn newest_backups_are_kept() {
    let names: Vec<String> = (1..=7)
        .map(|d| format!("dsh-backup-2026-01-0{}_000000.zip", d))
        .chain(vec!["pre-restore-x.zip".to_string(), "dsh-backup-y".to_string()])
        .collect();
    let mut gone = cleanup_old_backups(&names, "dsh-backup-", KEEP_BACKUPS);
    gone.sort();
    assert_eq!(gone, names[0..2].to_vec());
    assert!(cleanup_old_backups(&names, "pre-restore-", 2).is_empty());
    assert_eq!(
        cleanup_old_backups(&names, "pre-restore-", 0),
        list(&["pre-restore-x.zip"])
    );
}

#[test]
fn new_backups() {
    assert_eq!(
        backup_file_name("pre-restore-", "2026-08-16_113023"),
        "pre-restore-2026-08-16_113023.zip"
    );
    let next = |ev: &BackupEvidence| backup_dsh("2026-08-16_113023", ev);
    let told = |ev: &BackupEvidence| match next(ev) {
        BackupStep::Done(Err(e)) => e,
        _ => panic!("not refused"),
    };
    let mut ev = BackupEvidence {
        running: None,
        dir: None,
        packed: None,
        size: None,
    };
    assert!(matches!(next(&ev), BackupStep::AskRunning));
    ev.running = Some(true);
    assert_eq!(
        told(&ev),
        "启动器启动的 DSH 正在运行，请先停止 DSH 再进行备份（运行中备份可能不完整）"
    );
    ev.running = Some(false);
    assert!(matches!(next(&ev), BackupStep::MakeDir));
    ev.dir = Some(Err("x".to_string()));
    assert_eq!(told(&ev), "创建备份目录失败：x");
    ev.dir = Some(Ok(()));
    assert!(matches!(next(&ev), BackupStep::Pack(n) if n == "dsh-backup-2026-08-16_113023.zip"));
    ev.packed = Some(Err("y".to_string()));
    assert_eq!(told(&ev), "y");
    ev.packed = Some(Ok(()));
    assert!(matches!(next(&ev), BackupStep::AskSize));
    ev.size = Some(9);
    match next(&ev) {
        BackupStep::Done(Ok(b)) => {
            assert_eq!(b.file_name, "dsh-backup-2026-08-16_113023.zip");
            assert_eq!(
                (b.size, b.modified.as_str(), b.kind.as_str()),
                (9, "2026-08-16 11:30", "backup")
            );
        }
        _ => panic!("not done"),
    }
    assert_eq!(open_backups_dir("C:\\b", &Ok(())), "已打开备份目录：C:\\b");
    assert_eq!(
        open_backups_dir("C:\\b", &Err("x".to_string())),
        "无法打开备份目录：x"
    );
}

#[test]
fn stale_temp_dirs() {
    let day = 24 * 3600;
    let now = 100 * day;
    let gone = |n: &str, d: bool, m: Option<u64>| cleanup_stale_temp_dirs(n, d, m, now);
    assert!(gone("dsh-pack-1-2", true, Some(now - day - 1)));
    assert!(gone("dsh-restore-1-2", true, Some(0)));
    assert!(!gone("dsh-pack-1-2", true, Some(now - day)));
    assert!(!gone("dsh-pack-1-2", false, Some(0)));
    assert!(!gone("dsh-pack-1-2", true, None));
    assert!(!gone("other", true, Some(0)));
    assert!(!cleanup_stale_temp_dirs("dsh-pack-1", true, Some(0), 5));
    for prefix in [PACK_PREFIX, RESTORE_PREFIX] {
        let name = temp_dir_name(prefix, 12, 34);
        assert_eq!(name, format!("{}12-34", prefix));
        assert!(gone(&name, true, Some(1)));
    }
}

#[test]
fn copies_leave_out_packages_junctions_and_the_list() {
    assert_eq!(
        robocopy_options(),
        vec![
            "/E",
            "/XD",
            "node_modules",
            "/XF",
            "dsh-backup.json",
            "/XJ",
            "/NFL",
            "/NDL",
            "/NJH",
            "/NJS",
            "/R:1",
            "/W:1"
        ]
    );
}
