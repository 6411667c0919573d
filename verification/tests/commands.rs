use lswt::cli::{validate_custom_format, Args, CustomFormatError, Mode, OutputFormat};
use lswt::repl::{parse_command, show_toplevel_by_app_id, show_toplevel_info, ReplCommand};
use lswt::text::{char_is_whitespace, parse_usize, push_decimal, split_words, trim};
use lswt::toplevel::Toplevel;

fn flags(json: bool, watch: bool, verbose_watch: bool, repl: bool, custom: Option<&str>) -> Args {
    Args {
        json,
        watch,
        verbose_watch,
        repl,
        custom: custom.map(|s| s.to_string()),
        force_protocol: None,
        mode: Mode::List,
        output_format: OutputFormat::Normal,
        custom_format: None,
    }
}

#[test]
fn custom_formats_are_checked() {
    assert_eq!(validate_custom_format("taiAfmM"), Ok(()));
    assert_eq!(validate_custom_format("t"), Ok(()));
    assert_eq!(validate_custom_format(""), Err(CustomFormatError::Empty));
    assert_eq!(validate_custom_format("taxy"), Err(CustomFormatError::UnknownField('x')));
}

#[test]
fn custom_format_error_messages() {
    assert_eq!(
        CustomFormatError::Empty.message_lines(),
        vec![
            "ERROR: Invalid custom format: Requires at least one field.".to_string(),
            "ERROR: Invalid custom format".to_string(),
        ]
    );
    let lines = CustomFormatError::UnknownField('z').message_lines();
    assert_eq!(lines.len(), 10);
    assert_eq!(lines[0], "ERROR: Invalid custom format: Unknown field name: 'z'.");
    assert_eq!(lines[1], "INFO:  Supported field names:");
    assert_eq!(lines[8], "\tM: maximized?");
    assert_eq!(lines[9], "ERROR: Invalid custom format");
}

#[test]
fn mode_follows_flag_precedence() {
    let a = Args::parse_args(flags(false, false, false, false, None)).unwrap();
    assert_eq!(a.mode, Mode::List);
    let a = Args::parse_args(flags(false, true, false, false, None)).unwrap();
    assert_eq!(a.mode, Mode::Watch);
    let a = Args::parse_args(flags(false, true, true, false, None)).unwrap();
    assert_eq!(a.mode, Mode::VerboseWatch);
    let a = Args::parse_args(flags(false, true, true, true, None)).unwrap();
    assert_eq!(a.mode, Mode::Repl);
}

#[test]
fn output_format_follows_flag_precedence() {
    let a = Args::parse_args(flags(false, false, false, false, None)).unwrap();
    assert_eq!(a.output_format, OutputFormat::Normal);
    assert_eq!(a.custom_format, None);
    let a = Args::parse_args(flags(true, false, false, false, None)).unwrap();
    assert_eq!(a.output_format, OutputFormat::Json);
    let a = Args::parse_args(flags(true, false, false, false, Some("ta"))).unwrap();
    assert_eq!(a.output_format, OutputFormat::Custom);
    assert_eq!(a.custom_format.as_deref(), Some("ta"));
}

#[test]
fn invalid_custom_format_is_refused() {
    assert_eq!(
        Args::parse_args(flags(false, false, false, false, Some("q"))).err(),
        Some(CustomFormatError::UnknownField('q'))
    );
    assert_eq!(Args::parse_args(flags(false, false, false, false, Some(""))).err(), Some(CustomFormatError::Empty));
}

#[test]
fn trimming_and_words() {
    assert_eq!(trim("  info  12 \t"), "info  12");
    assert_eq!(trim(" \u{3000} "), "");
    assert_eq!(split_words("  a bb\tccc  "), vec!["a".to_string(), "bb".to_string(), "ccc".to_string()]);
    assert!(split_words("   ").is_empty());
}

#[test]
fn numbers_parse_like_usize() {
    assert_eq!(parse_usize("0"), Some(0));
    assert_eq!(parse_usize("+17"), Some(17));
    assert_eq!(parse_usize("007"), Some(7));
    assert_eq!(parse_usize(""), None);
    assert_eq!(parse_usize("+"), None);
    assert_eq!(parse_usize("-1"), None);
    assert_eq!(parse_usize("12a"), None);
    assert_eq!(parse_usize(&usize::MAX.to_string()), Some(usize::MAX));
    assert_eq!(parse_usize("99999999999999999999999999"), None);
}

#[test]
fn decimal_numbers_read_back() {
    for n in [0usize, 9, 10, 1000, 2001, 123456789, usize::MAX] {
        let mut s = String::new();
        push_decimal(&mut s, n);
        assert_eq!(s, n.to_string());
        assert_eq!(parse_usize(&s), Some(n));
    }
}

#[test]
fn commands_are_read() {
    assert!(matches!(parse_command("   "), ReplCommand::Empty));
    assert!(matches!(parse_command("ls"), ReplCommand::List));
    assert!(matches!(parse_command("  list "), ReplCommand::List));
    assert!(matches!(parse_command("lj"), ReplCommand::ListJson));
    assert!(matches!(parse_command("list-json"), ReplCommand::ListJson));
    assert!(matches!(parse_command("h"), ReplCommand::Help));
    assert!(matches!(parse_command("quit"), ReplCommand::Exit));
    assert!(matches!(parse_command("q"), ReplCommand::Exit));
    assert!(matches!(parse_command("info 12"), ReplCommand::InfoById(12)));
    assert!(matches!(parse_command("info   +3  extra"), ReplCommand::InfoById(3)));
    assert!(matches!(parse_command("info"), ReplCommand::InfoUsage));
    assert!(matches!(parse_command("count now"), ReplCommand::Count));
    assert!(matches!(parse_command("protocol"), ReplCommand::Protocol));
    match parse_command("info firefox") {
        ReplCommand::InfoByAppId(a) => assert_eq!(a, "firefox"),
        other => panic!("unexpected {:?}", other),
    }
    match parse_command("  list all ") {
        ReplCommand::Unknown(l) => assert_eq!(l, "list all"),
        other => panic!("unexpected {:?}", other),
    }
}

fn sample() -> Vec<Toplevel> {
    let mut a = Toplevel::new(1);
    a.set_title("Editor".to_string());
    a.set_app_id("code".to_string());
    let mut b = Toplevel::new(2);
    b.set_app_id("kitty".to_string());
    b.add_output("DP-1".to_string());
    b.add_output("DP-2".to_string());
    let mut c = Toplevel::new(3);
    c.set_app_id("code".to_string());
    vec![a, b, c]
}

#[test]
fn info_by_id() {
    let lines = show_toplevel_info(&sample(), 2).unwrap();
    assert_eq!(
        lines,
        vec![
            "Toplevel #2",
            "  Title:      <NULL>",
            "  App ID:     kitty",
            "  Identifier: <NULL>",
            "  State:",
            "    Maximized:  false",
            "    Minimized:  false",
            "    Activated:  false",
            "    Fullscreen: false",
            "  Outputs:    DP-1, DP-2",
        ]
        .iter()
        .map(|s| s.to_string())
        .collect::<Vec<_>>()
    );
    assert_eq!(show_toplevel_info(&sample(), 9), Err("Toplevel #9 not found".to_string()));
}

#[test]
fn info_by_app_id() {
    let lines = show_toplevel_by_app_id(&sample(), "code").unwrap();
    assert_eq!(lines.len(), 20);
    assert_eq!(lines[0], "Toplevel #1");
    assert_eq!(lines[9], "");
    assert_eq!(lines[10], "Toplevel #3");
    assert_eq!(lines[19], "");
    assert_eq!(
        show_toplevel_by_app_id(&sample(), "none"),
        Err("No toplevel found with app-id 'none'".to_string())
    );
}

/// The whitespace characters that the library's contracts name.
fn listed_white_space(c: char) -> bool {
    let u = c as u32;
    (0x9..=0xd).contains(&u)
        || u == 0x20
        || u == 0x85
        || u == 0xa0
        || u == 0x1680
        || (0x2000..=0x200a).contains(&u)
        || u == 0x2028
        || u == 0x2029
        || u == 0x202f
        || u == 0x205f
        || u == 0x3000
}

#[test]
fn whitespace_list_matches_std() {
    for u in 0..=0x10ffffu32 {
        if let Some(c) = char::from_u32(u) {
            assert_eq!(c.is_whitespace(), listed_white_space(c), "U+{:04X}", u);
            assert_eq!(char_is_whitespace(c), c.is_whitespace(), "U+{:04X}", u);
        }
    }
    // the trimming of commands follows the same list
    assert_eq!(trim("\u{85}x\u{a0}"), "x");
    assert_eq!(trim("\u{180e}x"), "\u{180e}x");
}
