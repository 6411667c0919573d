use lswt::cli::OutputFormat;
use lswt::json::JsonValue;
use lswt::output::{OutputWriter, Rendered};
use lswt::protocols::UsedProtocol;
use lswt::toplevel::{Toplevel, ToplevelState};

fn toplevel(id: usize, app_id: Option<&str>, title: Option<&str>) -> Toplevel {
    let mut t = Toplevel::new(id);
    if let Some(a) = app_id {
        t.set_app_id(a.to_string());
    }
    if let Some(s) = title {
        t.set_title(s.to_string());
    }
    t
}

fn writer(format: OutputFormat, custom: Option<&str>) -> OutputWriter {
    OutputWriter::new(&format, &custom.map(|s| s.to_string()))
}

fn compact(v: &JsonValue) -> String {
    match v {
        JsonValue::Null => "null".to_string(),
        JsonValue::Bool(b) => b.to_string(),
        JsonValue::Number(n) => n.to_string(),
        JsonValue::Str(s) => format!("\"{}\"", s),
        JsonValue::Array(a) => format!("[{}]", a.iter().map(compact).collect::<Vec<_>>().join(",")),
        JsonValue::Object(o) => format!(
            "{{{}}}",
            o.iter().map(|(k, v)| format!("\"{}\":{}", k, compact(v))).collect::<Vec<_>>().join(",")
        ),
    }
}

#[test]
fn plain_fields_need_no_quotes() {
    let w = writer(OutputFormat::Normal, None);
    assert!(!w.needs_quotes("firefox"));
    assert!(!w.needs_quotes(""));
    assert!(!w.needs_quotes("a-b_c.d"));
}

#[test]
fn whitespace_quotes_and_non_ascii_need_quotes() {
    let w = writer(OutputFormat::Normal, None);
    assert!(w.needs_quotes("Mozilla Firefox"));
    assert!(w.needs_quotes("tab\there"));
    assert!(w.needs_quotes("line\nbreak"));
    assert!(w.needs_quotes("say \"hi\""));
    assert!(w.needs_quotes("it's"));
    assert!(w.needs_quotes("caf\u{e9}"));
    assert!(w.needs_quotes("ideographic\u{3000}space"));
    assert!(w.needs_quotes("\u{2028}"));
}

#[test]
fn quoting_escapes_special_characters() {
    let w = writer(OutputFormat::Normal, None);
    assert_eq!(w.quote_string("a\"b\nc\td\\e"), "\"a\\\"b\\nc\\td\\\\e\"");
    assert_eq!(w.quote_string(""), "\"\"");
    assert_eq!(w.quote_string("it's"), "\"it's\"");
}

#[test]
fn format_string_quotes_only_where_needed() {
    let w = writer(OutputFormat::Normal, None);
    assert_eq!(w.format_string("kitty"), "kitty");
    assert_eq!(w.format_string("Visual Studio Code"), "\"Visual Studio Code\"");
}

#[test]
fn formatted_fields_hold_no_line_break() {
    let w = writer(OutputFormat::Normal, None);
    for s in ["a\nb", "\n", "x y\n", "plain"] {
        assert!(!w.format_string(s).contains('\n'));
    }
}

#[test]
fn escape_custom_escapes_commas() {
    let w = writer(OutputFormat::Custom, Some("t"));
    assert_eq!(w.escape_custom("a,b,,c"), "a\\,b\\,\\,c");
    assert_eq!(w.escape_custom("no commas"), "no commas");
}

#[test]
fn display_len_counts_bytes_of_shown_field() {
    let w = writer(OutputFormat::Normal, None);
    assert_eq!(w.display_len("firefox"), 7);
    assert_eq!(w.display_len("a b"), 5);
    // "\u{e9}" is two bytes in UTF-8 and forces quoting
    assert_eq!(w.display_len("\u{e9}"), 4);
}

#[test]
fn app_id_column_width_is_clamped() {
    let w = writer(OutputFormat::Normal, None);
    assert_eq!(w.app_id_column_width(&[]), 17);
    assert_eq!(w.app_id_column_width(&[toplevel(0, Some("ab"), None)]), 17);
    assert_eq!(w.app_id_column_width(&[toplevel(0, Some("abcdefghijklmnopq"), None)]), 17);
    assert_eq!(w.app_id_column_width(&[toplevel(0, Some("abcdefghijklmnopqrstu"), None)]), 21);
    // a quoted app-id counts with its quotes
    assert_eq!(w.app_id_column_width(&[toplevel(0, Some("org kde konsole x"), None)]), 19);
    let long = "x".repeat(60);
    assert_eq!(w.app_id_column_width(&[toplevel(0, Some(&long), None)]), 40);
    // a missing app-id is shown as <NULL>
    assert_eq!(w.app_id_column_width(&[toplevel(0, None, None)]), 17);
}

#[test]
fn normal_listing_with_state() {
    let w = writer(OutputFormat::Normal, None);
    let mut a = toplevel(0, Some("firefox"), Some("Mozilla Firefox"));
    a.set_state(ToplevelState { fullscreen: false, activated: true, maximized: false, minimized: false });
    let mut b = toplevel(1, Some("kitty"), Some("Terminal"));
    b.set_state(ToplevelState { fullscreen: false, activated: true, maximized: true, minimized: false });
    let c = toplevel(2, Some("code"), Some("Visual Studio Code"));
    let s = w.write_normal(&[a, b, c], UsedProtocol::WlrForeignToplevel, false);
    assert_eq!(
        s,
        "state:   app-id:             title:\n\
         --a-     firefox             Mozilla Firefox\n\
         m-a-     kitty               Terminal\n\
         ----     code                Visual Studio Code\n"
    );
}

#[test]
fn normal_listing_shows_titles_as_they_are_and_quotes_app_ids() {
    let w = writer(OutputFormat::Normal, None);
    let t = toplevel(0, Some("my app"), Some("it's \"here\""));
    let s = w.write_normal(&[t], UsedProtocol::ExtForeignToplevel, false);
    assert_eq!(s, "app-id:             title:\n\"my app\"            it's \"here\"\n");
}

#[test]
fn normal_listing_without_state_pads_app_ids() {
    let w = writer(OutputFormat::Normal, None);
    let a = toplevel(0, Some("code"), Some("Editor"));
    let b = toplevel(1, Some("org.kde.konsole"), Some("Shell"));
    let s = w.write_normal(&[a, b], UsedProtocol::ExtForeignToplevel, false);
    assert_eq!(
        s,
        "app-id:             title:\ncode                Editor\norg.kde.konsole     Shell\n"
    );
}

#[test]
fn normal_listing_in_terminal_has_bold_header() {
    let w = writer(OutputFormat::Normal, None);
    let s = w.write_normal(&[], UsedProtocol::WlrForeignToplevel, true);
    assert_eq!(s, "\x1b[0;1mstate:   app-id:             title:\x1b[0m\n");
}

#[test]
fn normal_listing_shows_outputs() {
    let w = writer(OutputFormat::Normal, None);
    let mut t = toplevel(0, Some("kitty"), Some("Terminal"));
    t.add_output("DP-1".to_string());
    t.add_output("HDMI-A-1".to_string());
    let s = w.write_normal(&[t], UsedProtocol::ExtForeignToplevel, false);
    assert_eq!(s, "app-id:             title:\nkitty               Terminal  [DP-1, HDMI-A-1]\n");
}

#[test]
fn normal_listing_has_one_line_per_toplevel() {
    let w = writer(OutputFormat::Normal, None);
    let ts = vec![
        toplevel(0, Some("a\nb"), Some("several words")),
        toplevel(1, None, None),
        toplevel(2, Some("x"), Some("y")),
    ];
    let s = w.write_normal(&ts, UsedProtocol::TreelandForeignToplevel, true);
    assert_eq!(s.matches('\n').count(), ts.len() + 1);
}

#[test]
fn write_state_columns() {
    let w = writer(OutputFormat::Normal, None);
    let mut t = Toplevel::new(3);
    t.set_state(ToplevelState { fullscreen: true, activated: false, maximized: true, minimized: true });
    let mut out = String::new();
    w.write_state(&mut out, &t);
    assert_eq!(out, "mm-f");
}

#[test]
fn custom_listing_with_state_protocol() {
    let w = writer(OutputFormat::Custom, Some("taiAfmM"));
    let mut t = toplevel(0, Some("foot"), Some("a, b"));
    t.set_state(ToplevelState { fullscreen: false, activated: true, maximized: true, minimized: false });
    let s = w.write_custom(&[t], UsedProtocol::WlrForeignToplevel);
    assert_eq!(s, "a\\, b,foot,unsupported,true,false,false,true\n");
}

#[test]
fn custom_listing_without_state_protocol() {
    let w = writer(OutputFormat::Custom, Some("iAt"));
    let mut t = toplevel(0, None, Some("T"));
    t.set_identifier("id-1".to_string());
    let s = w.write_custom(&[t, toplevel(1, None, None)], UsedProtocol::ExtForeignToplevel);
    assert_eq!(s, "id-1,unsupported,T\n<NULL>,unsupported,<NULL>\n");
}

#[test]
fn custom_listing_ignores_unknown_field_but_keeps_separator() {
    let w = writer(OutputFormat::Custom, Some("txa"));
    let s = w.write_custom(&[toplevel(0, Some("A"), Some("T"))], UsedProtocol::WlrForeignToplevel);
    assert_eq!(s, "T,,A\n");
}

#[test]
fn json_document_for_state_protocol() {
    let w = writer(OutputFormat::Json, None);
    let mut t = toplevel(0, Some("firefox"), None);
    t.add_output("DP-1".to_string());
    let doc = w.write_json(&[t], UsedProtocol::WlrForeignToplevel);
    assert_eq!(
        compact(&doc),
        "{\"json-output-version\":2,\"supported-data\":{\"title\":true,\"app-id\":true,\"identifier\":false,\"fullscreen\":true,\"activated\":true,\"minimized\":true,\"maximized\":true},\"toplevels\":[{\"title\":null,\"app-id\":\"firefox\",\"activated\":false,\"fullscreen\":false,\"minimized\":false,\"maximized\":false,\"outputs\":[\"DP-1\"]}]}"
    );
}

#[test]
fn json_document_for_identifier_protocol() {
    let w = writer(OutputFormat::Json, None);
    let mut t = toplevel(5, None, Some("T"));
    t.set_identifier("abc".to_string());
    let doc = w.write_json(&[t, Toplevel::new(6)], UsedProtocol::ExtForeignToplevel);
    assert_eq!(
        compact(&doc),
        "{\"json-output-version\":2,\"supported-data\":{\"title\":true,\"app-id\":true,\"identifier\":true,\"fullscreen\":false,\"activated\":false,\"minimized\":false,\"maximized\":false},\"toplevels\":[{\"title\":\"T\",\"app-id\":null,\"identifier\":\"abc\"},{\"title\":null,\"app-id\":null,\"identifier\":null}]}"
    );
}

#[test]
fn json_document_holds_one_object_per_toplevel() {
    let w = writer(OutputFormat::Json, None);
    let ts: Vec<Toplevel> = (0..4).map(Toplevel::new).collect();
    match w.write_json(&ts, UsedProtocol::TreelandForeignToplevel) {
        JsonValue::Object(members) => match &members[2].1 {
            JsonValue::Array(items) => assert_eq!(items.len(), 4),
            _ => panic!("toplevels is not an array"),
        },
        _ => panic!("document is not an object"),
    }
}

#[test]
fn write_toplevels_follows_the_format() {
    let ts = vec![toplevel(0, Some("a"), Some("b"))];
    match writer(OutputFormat::Normal, None).write_toplevels(&ts, UsedProtocol::ExtForeignToplevel, false) {
        Rendered::Text(s) => assert_eq!(s, "app-id:             title:\na                   b\n"),
        _ => panic!("expected text"),
    }
    match writer(OutputFormat::Custom, Some("a")).write_toplevels(&ts, UsedProtocol::ExtForeignToplevel, false) {
        Rendered::Text(s) => assert_eq!(s, "a\n"),
        _ => panic!("expected text"),
    }
    match writer(OutputFormat::Json, None).write_toplevels(&ts, UsedProtocol::ExtForeignToplevel, false) {
        Rendered::Json(_) => {}
        _ => panic!("expected json"),
    }
}

#[test]
fn escaped_custom_field_gives_the_field_back() {
    let w = writer(OutputFormat::Custom, Some("t"));
    for s in ["", "plain", "a,b", ",,", "x\\y,", "\\,", "é, ü"] {
        let e = w.escape_custom(s);
        assert_eq!(e.replace("\\,", ","), s);
        assert_eq!(e.chars().count(), s.chars().count() + s.matches(',').count());
    }
    assert_eq!(w.escape_custom("a,b"), "a\\,b");
}

#[test]
fn display_len_is_never_below_the_field_length() {
    let w = writer(OutputFormat::Normal, None);
    for s in ["", "foot", "a b", "it's", "tab\there", "\u{e9}t\u{e9}", "line\nbreak"] {
        let n = w.display_len(s);
        assert_eq!(n, w.format_string(s).len());
        assert!(n >= s.len());
        assert_eq!(n == s.len(), !w.needs_quotes(s));
        if w.needs_quotes(s) {
            assert!(n >= s.len() + 2);
        }
    }
}
