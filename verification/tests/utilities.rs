use dsh_launcher::json::{get, parse, parse_bytes, text, text_of_field, Json};
use dsh_launcher::text::{
    bytes_in, chars_of, control, copy_list, double_char, ends, find, holds, holds_char, indent, join,
    length, lines, list_has, lower, part, position, same, split, starts, string_of, strip_back,
    strip_both, strip_front, swap_char, trim, upper, white_space, without_prefix, without_suffix,
    words, Strip,
};
use dsh_launcher::tray::{
    acquire_single_instance, hides_on_close, icon_fits, icon_from, load_tray_icon, menu_action,
    Colors, Frame, MenuAction, Start,
};
use dsh_launcher::util::{
    app_log_line, app_log_path, beside_exe, kill_message, kill_tree, log_is_full, log_keep_from,
    relaunch_elevated, section_line, shell_open, temp_file_name, wide, OpFlag, OpGuard,
    LOG_KEEP_BYTES, LOG_MAX_BYTES,
};

fn some(t: &str) -> Option<String> {
    Some(t.to_string())
}

const TEXTS: [&str; 12] = [
    "",
    " ",
    "a",
    " a b ",
    "\u{3000}全角\u{a0}",
    "x\r\ny\n\nz",
    "\n",
    "a\r",
    "'q'\"",
    "ünïcødé ẞ Kelvin\u{212a}",
    "😀 𝄞",
    "--a--b--",
];

#[test]
fn texts_like_std() {
    for s in TEXTS {
        assert_eq!(trim(s), s.trim());
        assert_eq!(strip_front(s, Strip::Space), s.trim_start());
        assert_eq!(strip_back(s, Strip::Space), s.trim_end());
        assert_eq!(
            strip_both(s, Strip::Quote),
            s.trim_matches(|c| c == '\'' || c == '"')
        );
        assert_eq!(strip_front(s, Strip::Only('-')), s.trim_start_matches('-'));
        let l: Vec<String> = s.lines().map(String::from).collect();
        assert_eq!(lines(s), l);
        let w: Vec<String> = s.split_whitespace().map(String::from).collect();
        assert_eq!(words(s), w);
        let p: Vec<String> = s.split('-').map(String::from).collect();
        assert_eq!(split(s, '-'), p);
        assert_eq!(join(&p, "-"), s);
        assert_eq!(lower(s), s.to_ascii_lowercase());
        assert_eq!(upper(s), s.to_ascii_uppercase());
        assert_eq!(swap_char(s, 'a', 'ä'), s.replace('a', "ä"));
        assert_eq!(double_char(s, '-'), s.replace('-', "--"));
        assert_eq!(bytes_in(s), s.len());
        assert_eq!(indent(s), s.len() - s.trim_start().len());
        assert_eq!(length(s), s.chars().count());
        assert_eq!(string_of(&chars_of(s)), s);
        for t in TEXTS {
            assert_eq!(same(s, t), s == t);
            assert_eq!(starts(s, t), s.starts_with(t));
            assert_eq!(ends(s, t), s.ends_with(t));
            assert_eq!(holds(s, t), s.contains(t));
            assert_eq!(without_prefix(s, t), s.strip_prefix(t));
            assert_eq!(without_suffix(s, t), s.strip_suffix(t));
            let at = s.find(t).map(|b| s[..b].chars().count());
            assert_eq!(find(s, t), at);
        }
        for c in ['a', '-', '角', '𝄞'] {
            assert_eq!(holds_char(s, c), s.contains(c));
            let at = s.chars().position(|x| x == c).unwrap_or(s.chars().count());
            assert_eq!(position(s, c), at);
        }
    }
    assert_eq!(part("a角b", 1, 2), "角");
    let v = vec!["a".to_string(), "b".to_string()];
    assert!(list_has(&v, "b") && !list_has(&v, "c"));
    assert_eq!(copy_list(&v), v);
}

#[test]
fn characters_like_std() {
    for n in 0..0x11_0000u32 {
        if let Some(c) = char::from_u32(n) {
            assert_eq!(white_space(c), c.is_whitespace(), "{}", n);
            assert_eq!(control(c), c.is_control(), "{}", n);
        }
    }
}

#[test]
fn wide_text_like_std() {
    for s in TEXTS {
        let expected: Vec<u16> = s.encode_utf16().chain(std::iter::once(0)).collect();
        assert_eq!(wide(s), expected);
    }
    assert_eq!(wide("A𝄞"), vec![0x41, 0xd834, 0xdd1e, 0]);
}

#[test]
fn paths_and_lines() {
    assert_eq!(beside_exe(&some("C:\\app"), "C:\\cwd", "x"), "C:\\app\\x");
    assert_eq!(beside_exe(&None, "C:\\cwd", "x"), "C:\\cwd\\x");
    assert_eq!(beside_exe(&None, "", "x"), "x");
    assert_eq!(app_log_path(&some("C:\\app"), ""), "C:\\app\\launcher.log");
    assert_eq!(section_line("S", "T"), "===== S T =====");
    assert_eq!(app_log_line("S", "m"), "[S] m");
    assert_eq!(temp_file_name("settings", 42), ".settings-42.tmp");
}

#[test]
fn long_logs_are_cut_at_a_line() {
    assert_eq!((LOG_MAX_BYTES, LOG_KEEP_BYTES), (2 * 1024 * 1024, 512 * 1024));
    let from = LOG_MAX_BYTES + 1 - LOG_KEEP_BYTES;
    let mut b = vec![b'x'; LOG_MAX_BYTES + 1];
    assert_eq!(log_keep_from(&b), from);
    b[from + 7] = b'\n';
    b[from - 50] = b'\n';
    assert_eq!(log_keep_from(&b), from + 8);
    // a log that is not too long stays
    assert_eq!(log_keep_from(&vec![b'\n'; LOG_MAX_BYTES]), 0);
    assert_eq!(log_keep_from(&vec![]), 0);
}

#[test]
fn one_holder_at_a_time() {
    let mut flag = OpFlag { held: false };
    let guard = OpGuard::acquire(&mut flag, "busy").ok().unwrap();
    assert!(flag.held);
    assert_eq!(OpGuard::acquire(&mut flag, "busy").err().as_deref(), Some("busy"));
    assert!(flag.held);
    guard.release(&mut flag);
    assert!(!flag.held);
    assert!(OpGuard::acquire(&mut flag, "busy").is_ok());
}

#[test]
fn ending_processes() {
    assert_eq!(kill_tree(5, true, b"x", "0", false), Ok(()));
    assert_eq!(
        kill_tree(5, false, b" \xb2\n", "exit code: 1", true).err(),
        some("无法终止进程 5（\u{fffd}）")
    );
    assert_eq!(
        kill_tree(5, false, b" ", "exit code: 1", false).err(),
        some("无法终止进程 5（taskkill 退出码 exit code: 1）。若该进程以管理员权限启动，需要以管理员身份运行启动器才能结束它——可在设置页点「以管理员身份重启启动器」后重试")
    );
    assert_eq!(kill_message(5, "raw", "1", true), "无法终止进程 5（raw）");
}

#[test]
fn shell_codes() {
    assert_eq!(relaunch_elevated(33), Ok(()));
    assert_eq!(
        relaunch_elevated(5).err(),
        some("提权请求被取消（UAC 未同意），启动器未重启")
    );
    assert_eq!(
        relaunch_elevated(32).err(),
        some("提权重启失败（ShellExecuteW 返回 32）")
    );
    assert!(shell_open(33) && !shell_open(32));
}

#[test]
fn json_trees() {
    let j = parse("{\"b\":[1,-2.50,true,null,\"x\\u4e2d\"],\"a\":{\"b\":\"y\"}}").unwrap();
    match get(&j, "b") {
        Some(Json::List(v)) => {
            assert_eq!(v.len(), 5);
            assert!(matches!(&v[0], Json::Number(n) if n == "1"));
            assert!(matches!(&v[2], Json::Bool(true)));
            assert!(matches!(&v[3], Json::Null));
            assert!(matches!(&v[4], Json::Text(t) if t == "x中"));
        }
        _ => panic!("no list"),
    }
    assert_eq!(text_of_field(get(&j, "a").unwrap(), "b"), "y");
    assert_eq!(text_of_field(&j, "b"), "");
    assert_eq!(text(get(&j, "zz")), None);
    // fields stay in the order of the text
    assert!(matches!(&j, Json::Object(f) if f[0].0 == "b" && f[1].0 == "a"));
    assert!(get(&Json::Null, "a").is_none());
    assert!(parse("{\"a\":}").is_none());
    assert!(parse_bytes(b"{\"a\":1}").is_some());
    assert!(parse_bytes(b"\"\xff\"").is_none());
}

#[test]
fn one_instance() {
    let args = |a: &[&str]| a.iter().map(|s| s.to_string()).collect::<Vec<String>>();
    assert!(acquire_single_instance(&args(&["x.exe"]), true, false) == Start::Run);
    assert!(acquire_single_instance(&args(&["x.exe"]), false, false) == Start::Run);
    assert!(acquire_single_instance(&args(&["x.exe"]), true, true) == Start::ShowOther);
    assert!(acquire_single_instance(&args(&["x.exe", "--elevated"]), true, true) == Start::Run);
    assert!(hides_on_close("tray") && !hides_on_close("quit"));
    assert!(menu_action("show") == MenuAction::Show);
    assert!(menu_action("quit") == MenuAction::Quit);
    assert!(menu_action("") == MenuAction::Nothing);
}

fn png_of(kind: png::ColorType, width: u32, height: u32, data: &[u8]) -> Vec<u8> {
    let mut out = Vec::new();
    {
        let mut e = png::Encoder::new(&mut out, width, height);
        e.set_color(kind);
        e.set_depth(png::BitDepth::Eight);
        let mut w = e.write_header().unwrap();
        w.write_image_data(data).unwrap();
    }
    out
}

#[test]
fn icons_keep_the_picture() {
    let rgba = [1, 2, 3, 4, 5, 6, 7, 8];
    let file = png_of(png::ColorType::Rgba, 2, 1, &rgba);
    assert!(icon_fits(&file));
    let i = load_tray_icon(&file).unwrap();
    assert_eq!((i.width, i.height), (2, 1));
    assert_eq!(i.data, rgba.to_vec());

    let file = png_of(png::ColorType::Rgb, 1, 2, &[9, 8, 7, 6, 5, 4]);
    assert!(icon_fits(&file));
    let i = load_tray_icon(&file).unwrap();
    assert_eq!((i.width, i.height), (1, 2));
    assert_eq!(i.data, vec![9, 8, 7, 255, 6, 5, 4, 255]);

    let file = png_of(png::ColorType::Grayscale, 1, 1, &[9]);
    assert!(icon_fits(&file));
    assert!(load_tray_icon(&file).is_none());
    assert!(load_tray_icon(b"no picture").is_none() || !icon_fits(b"no picture"));
    let gray = Frame {
        data: vec![1],
        width: 1,
        height: 1,
        colors: Colors::Other,
    };
    assert!(icon_from(gray).is_none());
}

#[test]
fn full_logs() {
    assert!(!log_is_full(2 * 1024 * 1024));
    assert!(log_is_full(2 * 1024 * 1024 + 1));
}
