use std::collections::HashMap;

use dirtree::colors::{ColorFormats, ColorMap, Colors, ANSI_COLOR_RESET};

fn as_map(m: Option<ColorMap>) -> Option<HashMap<&'static str, (String, &'static str)>> {
    m.map(|m| m.entries().into_iter().collect())
}

#[test]
fn ls_colors() {
    let mock_lscolors = ColorFormats::LsColors(String::from("cxfxcxdxbxegedabagacad"));

    let result = as_map(Colors::create_color_map(mock_lscolors));

    assert_eq!(
        result,
        Some(HashMap::from([
            ("directory", (String::from("\x1B[32;m"), ANSI_COLOR_RESET)),
            ("sym_link", (String::from("\x1B[35;m"), ANSI_COLOR_RESET)),
            ("socket", (String::from("\x1B[32;m"), ANSI_COLOR_RESET)),
            ("pipe", (String::from("\x1B[33;m"), ANSI_COLOR_RESET)),
            ("executable", (String::from("\x1B[31;m"), ANSI_COLOR_RESET)),
            ("special_block", (String::from("\x1B[34;46m"), ANSI_COLOR_RESET)),
            ("special_char", (String::from("\x1B[34;43m"), ANSI_COLOR_RESET)),
            ("exe_set_uid", (String::from("\x1B[30;41m"), ANSI_COLOR_RESET)),
            ("exe_set_gid", (String::from("\x1B[30;46m"), ANSI_COLOR_RESET)),
            ("dwo_sticky", (String::from("\x1B[30;42m"), ANSI_COLOR_RESET)),
            ("dwo_non_sticky", (String::from("\x1B[30;43m"), ANSI_COLOR_RESET))
        ]))
    )
}

#[test]
fn ls_colors_delimited() {
    let mock_ls_colors = ColorFormats::LsColorsDelimited(String::from("di=01;31:ln=01;32:so=01;32:pi=01;101:ex=01;35:bd=01;105:cd=40:su=01;35:sg=01;35:ow=01;35:tw=01;35;101"));

    let result = as_map(Colors::create_color_map(mock_ls_colors));

    assert_eq!(
        result,
        Some(HashMap::from([
            ("directory", (String::from("\x1B[31;m"), ANSI_COLOR_RESET)),
            ("sym_link", (String::from("\x1B[32;m"), ANSI_COLOR_RESET)),
            ("socket", (String::from("\x1B[32;m"), ANSI_COLOR_RESET)),
            ("pipe", (String::from("\x1B[101;m"), ANSI_COLOR_RESET)),
            ("executable", (String::from("\x1B[35;m"), ANSI_COLOR_RESET)),
            ("special_block", (String::from("\x1B[105;m"), ANSI_COLOR_RESET)),
            ("special_char", (String::from("\x1B[40;m"), ANSI_COLOR_RESET)),
            ("exe_set_uid", (String::from("\x1B[35;m"), ANSI_COLOR_RESET)),
            ("exe_set_gid", (String::from("\x1B[35;m"), ANSI_COLOR_RESET)),
            ("dwo_sticky", (String::from("\x1B[35;101m"), ANSI_COLOR_RESET)),
            ("dwo_non_sticky", (String::from("\x1B[35;m"), ANSI_COLOR_RESET))
        ]))
    )
}

#[test]
fn ls_colors_undefined() {
    let result = as_map(Colors::create_color_map(ColorFormats::Undefined));

    assert_eq!(result, None)
}

#[test]
fn escape_sequences() {
    assert_eq!(Colors::map_color_to_esc_seq("31", "42"), (String::from("\x1B[31;42m"), ANSI_COLOR_RESET));
    assert_eq!(Colors::map_color_to_esc_seq("31", ""), (String::from("\x1B[31;m"), ANSI_COLOR_RESET));
    assert_eq!(Colors::map_color_to_esc_seq("", "42"), (String::from("\x1B[42m"), ANSI_COLOR_RESET));
    assert_eq!(Colors::map_color_to_esc_seq("", ""), (String::new(), ""));
}

#[test]
fn malformed_lscolors_gives_no_map() {
    assert!(Colors::create_color_map(ColorFormats::LsColors(String::from("abc"))).is_none());
    assert!(Colors::create_color_map(ColorFormats::LsColors(String::from("zz"))).is_none());
    assert!(Colors::map_chars_to_ansi_color_code("ax").is_some());
}

#[test]
fn short_lscolors_fills_leading_slots() {
    let m = as_map(Colors::create_color_map(ColorFormats::LsColors(String::from("Ba")))).unwrap();
    assert_eq!(m.len(), 1);
    assert_eq!(m["directory"], (String::from("\x1B[91;40m"), ANSI_COLOR_RESET));
}

#[test]
fn later_ls_colors_entry_wins_and_junk_is_skipped() {
    let fmt = ColorFormats::LsColorsDelimited(String::from("di=31:*.rs=32:di=01;34:ln:ex=01:rs=0"));
    let m = as_map(Colors::create_color_map(fmt)).unwrap();
    assert_eq!(m.len(), 1);
    assert_eq!(m["directory"], (String::from("\x1B[34;m"), ANSI_COLOR_RESET));
}

#[test]
fn lookup_by_entity() {
    let colors = Colors::from_ls_colors(true, ColorFormats::LsColors(String::from("ex")));
    assert_eq!(colors.get_color_esc_seq("directory"), (String::from("\x1B[34;m"), ANSI_COLOR_RESET));
    assert_eq!(colors.get_color_esc_seq("socket"), (String::new(), ""));
    let none = Colors::from_ls_colors(false, ColorFormats::LsColors(String::from("ex")));
    assert_eq!(none.get_color_esc_seq("directory"), (String::new(), ""));
}
