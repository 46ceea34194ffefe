use kaze::paths::{is_in_trash, join};
use kaze::search::query_key;
use kaze::text::{decimal_string, trim};
use kaze::theme::{apply_named_colors, parse_colors, parse_hex, Palette, Rgb};

fn rgb(r: u8, g: u8, b: u8) -> Rgb {
    Rgb { r, g, b }
}

#[test]
fn trim_matches_std() {
    for s in ["", "  a b  ", "\t\nx\u{3000}", "\u{85}y\u{2029}", "no-space", "\u{a0}z\u{a0}", " \u{200b}q "] {
        let got: String = trim(s).into_iter().collect();
        assert_eq!(got, s.trim(), "{:?}", s);
    }
}

#[test]
fn decimals_and_lowercase() {
    assert_eq!(decimal_string(0), "0");
    assert_eq!(decimal_string(1_234_567_890), "1234567890");
    assert_eq!(query_key("ÄBC"), "äbc");
}

#[test]
fn join_follows_path_join() {
    for (base, rel) in [("/a", "b"), ("/a/", "b"), ("", "b"), ("/a", "/etc"), ("/a", ""), ("a/b", "c/d")] {
        let expected = std::path::Path::new(base).join(rel).to_string_lossy().into_owned();
        assert_eq!(join(base, rel), expected, "{:?} {:?}", base, rel);
    }
}

#[test]
fn trash_paths_are_recognised() {
    assert!(is_in_trash("/home/u/.local/share/Trash/files/a.txt"));
    assert!(is_in_trash("/media/x/Trash/y"));
    assert!(is_in_trash("/media/x/Trash"));
    assert!(!is_in_trash("/home/u/Trashy/a"));
    assert!(!is_in_trash("/home/u/Documents"));
}

#[test]
fn hex_colors_parse() {
    assert_eq!(parse_hex("#1a2B3c"), Some(rgb(0x1a, 0x2b, 0x3c)));
    assert_eq!(parse_hex("ffffff"), Some(rgb(255, 255, 255)));
    assert_eq!(parse_hex("##000000"), Some(rgb(0, 0, 0)));
    assert_eq!(parse_hex("#+1+2+3"), Some(rgb(1, 2, 3)));
    assert_eq!(parse_hex("#12345"), None);
    assert_eq!(parse_hex("#1234567"), None);
    assert_eq!(parse_hex("#12345g"), None);
    assert_eq!(parse_hex("#-12345"), None);
    assert_eq!(parse_hex("#12 456"), None);
    assert_eq!(parse_hex("#éé1234"), None);
}

#[test]
fn color_files_parse_line_by_line() {
    let content = "# theme\nbackground = \"#101010\"\r\nforeground=#eeeeee\naccent = \"nope\"\nmuted\n  selection  =  ''#202020\"\nbackground = \"#111111\"";
    let colors = parse_colors(content);
    let got: Vec<(String, Rgb)> = colors.iter().map(|c| (c.key.clone(), c.color)).collect();
    assert_eq!(
        got,
        vec![
            ("background".to_string(), rgb(0x10, 0x10, 0x10)),
            ("foreground".to_string(), rgb(0xee, 0xee, 0xee)),
            ("background".to_string(), rgb(0x11, 0x11, 0x11)),
        ]
    );
    let quoted = parse_colors("selection = \"\"#202020\"\"\n");
    assert_eq!(quoted.len(), 1);
    assert_eq!(quoted[0].key, "selection");
    assert_eq!(quoted[0].color, rgb(0x20, 0x20, 0x20));
}

fn palette(v: u32) -> Palette<u32> {
    Palette {
        background: v,
        foreground: v + 1,
        accent: v + 2,
        accent_foreground: v + 3,
        muted: v + 4,
        muted_foreground: v + 5,
        selection: v + 6,
        sidebar: v + 7,
        title_bar: v + 8,
        sidebar_accent: v + 9,
        sidebar_accent_foreground: v + 10,
        sidebar_foreground: v + 11,
        sidebar_border: v + 12,
        title_bar_border: v + 13,
        border: v + 14,
    }
}

#[test]
fn no_named_colors_leave_the_palette() {
    let p = apply_named_colors(palette(100), &Vec::new());
    assert_eq!(p.sidebar_accent_foreground, 110);
    assert_eq!(p.border, 114);
    assert_eq!(p.background, 100);
}

#[test]
fn named_colors_set_their_roles() {
    let named: Vec<(String, u32)> = vec![
        ("background".to_string(), 1),
        ("foreground".to_string(), 2),
        ("lighter_background".to_string(), 3),
        ("background".to_string(), 4),
        ("unknown".to_string(), 5),
    ];
    let p = apply_named_colors(palette(100), &named);
    assert_eq!(p.background, 4);
    assert_eq!(p.foreground, 2);
    assert_eq!(p.accent, 102);
    assert_eq!(p.sidebar, 3);
    assert_eq!(p.title_bar, 3);
    assert_eq!(p.sidebar_accent_foreground, 2);
    assert_eq!(p.sidebar_foreground, 2);
    assert_eq!(p.sidebar_border, 114);
    assert_eq!(p.title_bar_border, 114);
    assert_eq!(p.border, 114);
    assert_eq!(p.selection, 106);
}

#[test]
fn selection_colors_the_borders() {
    let named: Vec<(String, u32)> =
        vec![("selection".to_string(), 7), ("bright_foreground".to_string(), 8), ("dark_background".to_string(), 9)];
    let p = apply_named_colors(palette(0), &named);
    assert_eq!(p.selection, 7);
    assert_eq!(p.border, 7);
    assert_eq!(p.sidebar_border, 7);
    assert_eq!(p.title_bar_border, 7);
    assert_eq!(p.accent_foreground, 8);
    assert_eq!(p.sidebar_accent_foreground, 8);
    assert_eq!(p.sidebar_foreground, 1);
    assert_eq!(p.sidebar_accent, 9);
}
