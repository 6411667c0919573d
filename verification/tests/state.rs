use lswt::cli::{Args, Mode, OutputFormat};
use lswt::protocols::common::{decode_state_values, native_big_endian, parse_state_array, state_change_log, state_from_values};
use lswt::protocols::{protocol_debug_name, AppState, BindRequest, ToplevelEvent, UsedProtocol};
use lswt::toplevel::{plan_action, store_handle, HandleKind, HandleRequest, Toplevel, ToplevelAction, ToplevelState};

fn args(mode: Mode, force: Option<&str>) -> Args {
    Args {
        json: false,
        watch: false,
        verbose_watch: false,
        repl: false,
        custom: None,
        force_protocol: force.map(|s| s.to_string()),
        mode,
        output_format: OutputFormat::Normal,
        custom_format: None,
    }
}

fn entries(vals: &[u32]) -> Vec<u8> {
    vals.iter().flat_map(|v| v.to_ne_bytes()).collect()
}

#[test]
fn new_toplevel_knows_nothing() {
    let t = Toplevel::new(4);
    assert_eq!(t.id, 4);
    assert_eq!(t.title_str(), "<NULL>");
    assert_eq!(t.app_id_str(), "<NULL>");
    assert_eq!(t.identifier_str(), "<NULL>");
    assert!(t.outputs.is_empty());
    assert!(!t.listed);
    assert_eq!(t.handle_id, None);
    assert_eq!(t.state, ToplevelState::default());
}

#[test]
fn setters_replace_values() {
    let mut t = Toplevel::new(0);
    t.set_title("one".to_string());
    t.set_title("two".to_string());
    t.set_app_id("app".to_string());
    t.set_identifier("ident".to_string());
    t.mark_listed();
    assert_eq!(t.title_str(), "two");
    assert_eq!(t.app_id_str(), "app");
    assert_eq!(t.identifier_str(), "ident");
    assert!(t.listed);
}

#[test]
fn outputs_are_recorded_once() {
    let mut t = Toplevel::new(0);
    t.add_output("DP-1".to_string());
    t.add_output("DP-2".to_string());
    t.add_output("DP-1".to_string());
    assert_eq!(t.outputs, vec!["DP-1".to_string(), "DP-2".to_string()]);
}

#[test]
fn removing_an_output_forgets_every_record() {
    let mut t = Toplevel::new(0);
    t.outputs = vec!["A".to_string(), "B".to_string(), "A".to_string(), "C".to_string()];
    t.remove_output("A");
    assert_eq!(t.outputs, vec!["B".to_string(), "C".to_string()]);
    t.remove_output("A");
    assert_eq!(t.outputs, vec!["B".to_string(), "C".to_string()]);
    t.remove_output("missing");
    assert_eq!(t.outputs.len(), 2);
}

#[test]
fn state_values_map_to_flags() {
    let s = state_from_values(&[0, 2, 9]);
    assert_eq!(s, ToplevelState { fullscreen: false, activated: true, maximized: true, minimized: false });
    let s = state_from_values(&[1, 3]);
    assert_eq!(s, ToplevelState { fullscreen: true, activated: false, maximized: false, minimized: true });
    assert_eq!(state_from_values(&[]), ToplevelState::default());
}

#[test]
fn state_array_is_read_in_native_byte_order() {
    let s = parse_state_array(&entries(&[2, 3]));
    assert_eq!(s, ToplevelState { fullscreen: true, activated: true, maximized: false, minimized: false });
    // an incomplete trailing entry is ignored
    let mut bytes = entries(&[1]);
    bytes.extend_from_slice(&[0, 0]);
    assert_eq!(decode_state_values(&bytes, native_big_endian()), vec![1]);
    let s = parse_state_array(&bytes);
    assert!(s.minimized && !s.maximized);
}

#[test]
fn state_entries_follow_the_given_byte_order() {
    let bytes = [1, 0, 0, 0, 0, 0, 0, 3];
    assert_eq!(decode_state_values(&bytes, false), vec![1, 50331648]);
    assert_eq!(decode_state_values(&bytes, true), vec![16777216, 3]);
    assert_eq!(decode_state_values(&[1, 2, 3], true), Vec::<u32>::new());
}

#[test]
fn native_byte_order_is_the_machine_order() {
    assert_eq!(native_big_endian(), u32::from_ne_bytes([1, 0, 0, 0]) != 1);
    assert_eq!(native_big_endian(), 1u32.to_ne_bytes() == 1u32.to_be_bytes());
}

#[test]
fn every_entry_of_an_array_is_read_in_one_order() {
    // the values 2 and 3 in the machine order give both flags
    let s = parse_state_array(&entries(&[2, 3]));
    assert!(s.activated && s.fullscreen);
    let mut app = AppState::new(&args(Mode::List, None));
    let p = UsedProtocol::WlrForeignToplevel;
    app.handle_toplevel_event_in_order(p, 1, false, ToplevelEvent::State(vec![0, 0, 0, 2, 0, 0, 0, 3]), true);
    assert_eq!(app.toplevels[0].state, ToplevelState { fullscreen: true, activated: true, maximized: false, minimized: false });
    app.handle_toplevel_event_in_order(p, 1, false, ToplevelEvent::State(vec![0, 0, 0, 2, 0, 0, 0, 3]), false);
    assert_eq!(app.toplevels[0].state, ToplevelState::default());
}

#[test]
fn zero_entry_means_maximized_in_any_byte_order() {
    let s = parse_state_array(&[0, 0, 0, 0]);
    assert!(s.maximized);
}

#[test]
fn state_change_lines_only_in_verbose_watch() {
    let st = ToplevelState { fullscreen: true, activated: false, maximized: true, minimized: false };
    assert!(state_change_log(7, &st, Mode::Watch).is_empty());
    assert_eq!(
        state_change_log(7, &st, Mode::VerboseWatch),
        vec![
            "toplevel 7: fullscreen: true".to_string(),
            "toplevel 7: activated (focused): false".to_string(),
            "toplevel 7: maximized: true".to_string(),
            "toplevel 7: minimized: false".to_string(),
        ]
    );
}

#[test]
fn app_state_starts_empty() {
    let app = AppState::new(&args(Mode::List, Some("ext")));
    assert!(app.toplevels.is_empty());
    assert!(!app.has_protocol());
    assert_eq!(app.force_protocol.as_deref(), Some("ext"));
    assert_eq!(app.next_id, 0);
}

#[test]
fn toplevel_ids_are_handed_out_in_order() {
    let mut app = AppState::new(&args(Mode::List, None));
    assert_eq!(app.next_toplevel_id(), 0);
    assert_eq!(app.next_toplevel_id(), 1);
    assert_eq!(app.next_toplevel_id(), 2);
}

#[test]
fn add_find_and_remove_toplevels() {
    let mut app = AppState::new(&args(Mode::Watch, None));
    assert_eq!(app.add_toplevel(Toplevel::new(3)), Some("toplevel 3: created".to_string()));
    assert_eq!(app.add_toplevel(Toplevel::new(5)), Some("toplevel 5: created".to_string()));
    assert_eq!(app.find_toplevel(5), Some(1));
    assert_eq!(app.find_toplevel(4), None);
    if let Some(t) = app.find_toplevel_mut(3) {
        t.set_title("changed".to_string());
    }
    assert_eq!(app.toplevels[0].title_str(), "changed");
    assert!(app.find_toplevel_mut(9).is_none());
    assert_eq!(app.remove_toplevel(3), Some("toplevel 3: destroyed".to_string()));
    assert_eq!(app.remove_toplevel(3), None);
    assert_eq!(app.toplevels.len(), 1);
}

#[test]
fn list_mode_logs_nothing() {
    let mut app = AppState::new(&args(Mode::List, None));
    assert_eq!(app.add_toplevel(Toplevel::new(1)), None);
    assert_eq!(app.remove_toplevel(1), None);
}

#[test]
fn protocol_support_flags() {
    let mut app = AppState::new(&args(Mode::List, None));
    app.used_protocol = UsedProtocol::WlrForeignToplevel;
    assert!(app.supports_state() && !app.supports_identifier() && app.has_protocol());
    app.used_protocol = UsedProtocol::ExtForeignToplevel;
    assert!(!app.supports_state() && app.supports_identifier());
    app.used_protocol = UsedProtocol::TreelandForeignToplevel;
    assert!(app.supports_state() && app.supports_identifier());
}

#[test]
fn events_create_update_and_close_toplevels() {
    let mut app = AppState::new(&args(Mode::Watch, None));
    let p = UsedProtocol::WlrForeignToplevel;
    let l = app.handle_toplevel_event(p, 4, true, ToplevelEvent::Title("one".to_string()));
    assert_eq!(l, vec!["toplevel 4: created".to_string(), "toplevel 4: set title: 'one'".to_string()]);
    assert_eq!(app.toplevels[0].handle_id, Some(4));
    let l = app.handle_toplevel_event(p, 4, false, ToplevelEvent::Title("two".to_string()));
    assert_eq!(l, vec!["toplevel 4: change title: 'one' -> 'two'".to_string()]);
    let l = app.handle_toplevel_event(p, 4, false, ToplevelEvent::AppId("foot".to_string()));
    assert_eq!(l, vec!["toplevel 4: set app-id: 'foot'".to_string()]);
    let l = app.handle_toplevel_event(p, 4, false, ToplevelEvent::AppId("kitty".to_string()));
    assert_eq!(l, vec!["toplevel 4: change app-id: 'foot' -> 'kitty'".to_string()]);
    let l = app.handle_toplevel_event(p, 4, false, ToplevelEvent::Done);
    assert!(l.is_empty());
    assert!(app.toplevels[0].listed);
    assert_eq!(app.toplevels[0].title_str(), "two");
    let l = app.handle_toplevel_event(p, 4, false, ToplevelEvent::Closed);
    assert_eq!(l, vec!["toplevel 4: destroyed".to_string()]);
    assert!(app.toplevels.is_empty());
}

#[test]
fn events_about_one_toplevel_leave_others_alone() {
    let mut app = AppState::new(&args(Mode::List, None));
    let p = UsedProtocol::ExtForeignToplevel;
    app.handle_toplevel_event(p, 1, false, ToplevelEvent::Title("first".to_string()));
    app.handle_toplevel_event(p, 2, false, ToplevelEvent::Title("second".to_string()));
    app.handle_toplevel_event(p, 1, false, ToplevelEvent::Identifier("x".to_string()));
    app.handle_toplevel_event(p, 1, false, ToplevelEvent::Closed);
    assert_eq!(app.toplevels.len(), 1);
    assert_eq!(app.toplevels[0].id, 2);
    assert_eq!(app.toplevels[0].title_str(), "second");
    assert_eq!(app.toplevels[0].identifier_str(), "<NULL>");
}

#[test]
fn identifier_and_pid_events() {
    let mut app = AppState::new(&args(Mode::VerboseWatch, None));
    let p = UsedProtocol::TreelandForeignToplevel;
    app.handle_toplevel_event(p, 1000, false, ToplevelEvent::Other);
    let l = app.handle_toplevel_event(p, 1000, false, ToplevelEvent::NumericIdentifier(42));
    assert_eq!(l, vec!["toplevel 1000: set identifier: 42".to_string()]);
    assert_eq!(app.toplevels[0].identifier_str(), "42");
    let l = app.handle_toplevel_event(p, 1000, false, ToplevelEvent::Pid(314));
    assert_eq!(l, vec!["toplevel 1000: set pid: 314".to_string()]);
    let mut quiet = AppState::new(&args(Mode::Watch, None));
    quiet.handle_toplevel_event(p, 1, false, ToplevelEvent::Other);
    assert!(quiet.handle_toplevel_event(p, 1, false, ToplevelEvent::Pid(1)).is_empty());
}

#[test]
fn treeland_state_event_logs_attention() {
    let mut app = AppState::new(&args(Mode::VerboseWatch, None));
    let p = UsedProtocol::TreelandForeignToplevel;
    app.handle_toplevel_event(p, 1, false, ToplevelEvent::Other);
    let l = app.handle_toplevel_event(p, 1, false, ToplevelEvent::State(entries(&[4, 2])));
    assert_eq!(
        l,
        vec![
            "toplevel 1: attention: true".to_string(),
            "toplevel 1: fullscreen: false".to_string(),
            "toplevel 1: activated (focused): true".to_string(),
            "toplevel 1: maximized: false".to_string(),
            "toplevel 1: minimized: false".to_string(),
        ]
    );
    assert!(app.toplevels[0].state.activated);
    // the wlr protocol has no attention state
    let mut wlr = AppState::new(&args(Mode::VerboseWatch, None));
    wlr.handle_toplevel_event(UsedProtocol::WlrForeignToplevel, 1, false, ToplevelEvent::Other);
    let l = wlr.handle_toplevel_event(UsedProtocol::WlrForeignToplevel, 1, false, ToplevelEvent::State(entries(&[4])));
    assert_eq!(l.len(), 4);
}

#[test]
fn registry_binds_first_supported_protocol() {
    let mut app = AppState::new(&args(Mode::List, None));
    assert_eq!(app.handle_global("wl_seat", 7), None);
    assert_eq!(app.handle_global("zwlr_foreign_toplevel_manager_v1", 2), None);
    assert_eq!(app.handle_global("zwlr_foreign_toplevel_manager_v1", 3), Some(BindRequest::WlrManager(3)));
    assert_eq!(app.used_protocol, UsedProtocol::WlrForeignToplevel);
    // once a protocol is in use, no other is taken
    assert_eq!(app.handle_global("treeland_foreign_toplevel_manager_v1", 2), None);
    assert_eq!(app.used_protocol, UsedProtocol::WlrForeignToplevel);
}

#[test]
fn registry_respects_forced_protocol() {
    let mut app = AppState::new(&args(Mode::List, Some("treeland")));
    assert_eq!(app.handle_global("zwlr_foreign_toplevel_manager_v1", 3), None);
    assert_eq!(app.handle_global("treeland_foreign_toplevel_manager_v1", 5), Some(BindRequest::TreelandManager(2)));
    let mut app = AppState::new(&args(Mode::List, Some("treeland-foreign-toplevel-manager-v1")));
    assert_eq!(app.handle_global("treeland_foreign_toplevel_manager_v1", 1), Some(BindRequest::TreelandManager(1)));
    let mut app = AppState::new(&args(Mode::List, Some("ext-foreign-toplevel-list-v1")));
    assert_eq!(app.handle_global("zwlr_foreign_toplevel_manager_v1", 3), None);
    // the ext toplevel list is not bound yet
    assert_eq!(app.handle_global("ext_foreign_toplevel_list_v1", 1), None);
    assert_eq!(app.used_protocol, UsedProtocol::NoProtocol);
    let mut app = AppState::new(&args(Mode::List, Some("zwlr-foreign-toplevel-management-unstable-v1")));
    assert_eq!(app.handle_global("zwlr_foreign_toplevel_manager_v1", 3), Some(BindRequest::WlrManager(3)));
}

#[test]
fn protocol_names_for_debugging() {
    assert_eq!(protocol_debug_name(UsedProtocol::NoProtocol), "None");
    assert_eq!(protocol_debug_name(UsedProtocol::WlrForeignToplevel), "WlrForeignToplevel");
    assert_eq!(protocol_debug_name(UsedProtocol::TreelandForeignToplevel), "TreelandForeignToplevel");
}

#[test]
fn actions_become_handle_requests() {
    assert_eq!(plan_action(Some(HandleKind::Wlr), 1, ToplevelAction::Maximize), Ok(HandleRequest::SetMaximized));
    assert_eq!(plan_action(Some(HandleKind::Treeland), 1, ToplevelAction::UnMinimize), Ok(HandleRequest::UnsetMinimized));
    assert_eq!(plan_action(Some(HandleKind::Wlr), 1, ToplevelAction::Close), Ok(HandleRequest::Close));
    assert_eq!(plan_action(Some(HandleKind::Wlr), 1, ToplevelAction::Fullscreen), Ok(HandleRequest::SetFullscreen));
}

#[test]
fn actions_that_cannot_be_carried_out() {
    assert_eq!(plan_action(None, 12, ToplevelAction::Close), Err("No handle found for toplevel 12".to_string()));
    assert_eq!(
        plan_action(Some(HandleKind::Wlr), 1, ToplevelAction::Activate),
        Err("Activate requires a seat object (not yet implemented for wlr)".to_string())
    );
    assert_eq!(
        plan_action(Some(HandleKind::Treeland), 1, ToplevelAction::Activate),
        Err("Activate requires a seat object (not yet implemented for treeland)".to_string())
    );
}

#[test]
fn a_stored_handle_is_kept() {
    let mut slots: Vec<Option<&str>> = Vec::new();
    assert!(store_handle(&mut slots, 2, "first"));
    assert_eq!(slots, vec![None, None, Some("first")]);
    assert!(!store_handle(&mut slots, 2, "second"));
    assert_eq!(slots[2], Some("first"));
    assert!(store_handle(&mut slots, 0, "zero"));
    assert_eq!(slots, vec![Some("zero"), None, Some("first")]);
}

#[test]
fn joined_state_arrays_announce_the_flags_of_both() {
    let a = entries(&[0]);
    let b = entries(&[3, 9]);
    let joined = [a.clone(), b.clone()].concat();
    let (x, y, z) = (parse_state_array(&a), parse_state_array(&b), parse_state_array(&joined));
    assert_eq!(z.maximized, x.maximized || y.maximized);
    assert_eq!(z.minimized, x.minimized || y.minimized);
    assert_eq!(z.activated, x.activated || y.activated);
    assert_eq!(z.fullscreen, x.fullscreen || y.fullscreen);
    assert_eq!(z, ToplevelState { fullscreen: true, activated: false, maximized: true, minimized: false });
    for big in [false, true] {
        let mut both = decode_state_values(&a, big);
        both.extend(decode_state_values(&b, big));
        assert_eq!(decode_state_values(&joined, big), both);
    }
}

#[test]
fn order_and_repeats_of_state_entries_do_not_matter() {
    let s = parse_state_array(&entries(&[2, 3]));
    assert_eq!(parse_state_array(&entries(&[3, 2])), s);
    assert_eq!(parse_state_array(&entries(&[3, 2, 3, 3])), s);
}
