use cosmix::ui::{button_effects, ButtonEffect, ElementKind, UiCommand};
use std::collections::HashMap;

use cosmix::desktop::{launch_command, parse_desktop_entry, sort_apps, AppEntry};
use cosmix::executor::{stored_value, store_var, ReplyValue, ScriptRun, StepReply};
use cosmix::files::{file_text, sort_entries, FileEntry};
use cosmix::format::{default_doc_prefix, default_limit, format_timestamp, format_uptime, task_status_color};
use cosmix::hub::{invalid_message, on_disconnect, on_forward_failed, on_message, AmpMsg, HubAction, Registry};
use cosmix::logs::{log_file_name, search_lines, tail_lines};
use cosmix::menu::{
    item_class, local_action_id, on_trigger_click, KeyPress, MenuAction, MenuBarDef, MenuCommand, MenuEffect,
    MenuItem, MenuState, Shortcut,
};
use cosmix::script::{
    find_script, parse_mix_meta, parse_shortcut, script_action_id, scripts_dir, sort_scripts, user_menu, Script,
    ScriptContext, ScriptDef, ScriptMeta,
};

fn action(id: &str, label: &str, shortcut: Option<Shortcut>) -> MenuItem {
    MenuItem::Action {
        id: id.to_string(),
        label: label.to_string(),
        shortcut,
        action: MenuAction::Local(id.to_string()),
        enabled: true,
    }
}

#[test]
fn shortcut_labels_and_matching() {
    assert_eq!(Shortcut::ctrl('s').label(), "Ctrl+S");
    assert_eq!(Shortcut::ctrl_shift('v').label(), "Ctrl+Shift+V");
    assert_eq!(parse_shortcut(&Shortcut::ctrl('S').label()), Some(Shortcut::ctrl('s')));
    let s = Shortcut::ctrl('s');
    let press = |ctrl: bool, shift: bool, c: &str| KeyPress { ctrl, shift, alt: false, character: Some(c.to_string()) };
    assert!(s.matches(&press(true, false, "s")));
    assert!(s.matches(&press(true, false, "S")));
    assert!(!s.matches(&press(true, true, "s")));
    assert!(!s.matches(&press(false, false, "s")));
    assert!(!s.matches(&KeyPress { ctrl: true, shift: false, alt: false, character: None }));
}

#[test]
fn menu_discovery_and_lookup() {
    let bar = MenuBarDef::new()
        .with(MenuItem::Submenu {
            label: "File".to_string(),
            items: vec![
                action("file.open", "Open", Some(Shortcut::ctrl('o'))),
                MenuItem::Separator,
                MenuItem::Submenu { label: "Recent".to_string(), items: vec![action("recent.1", "a.txt", None)] },
            ],
        })
        .with(MenuItem::Submenu { label: "Edit".to_string(), items: vec![action("edit.copy", "Copy", None)] });
    let infos = bar.collect_items();
    let ids: Vec<(String, String, Option<String>)> =
        infos.iter().map(|i| (i.id.clone(), i.menu.clone(), i.shortcut.clone())).collect();
    assert_eq!(
        ids,
        vec![
            ("file.open".to_string(), "File".to_string(), Some("Ctrl+O".to_string())),
            ("recent.1".to_string(), "Recent".to_string(), None),
            ("edit.copy".to_string(), "Edit".to_string(), None),
        ]
    );
    match bar.find_item("recent.1") {
        Some((idx, MenuItem::Action { label, .. })) => {
            assert_eq!(idx, 0);
            assert_eq!(label, "a.txt");
        }
        _ => panic!("expected the recent item"),
    }
    assert_eq!(bar.find_item("edit.copy").map(|(i, _)| i), Some(1));
    assert!(bar.find_item("missing").is_none());
}

#[test]
fn shortcut_strings_parse() {
    assert_eq!(parse_shortcut("Ctrl+Shift+V"), Some(Shortcut::ctrl_shift('v')));
    assert_eq!(parse_shortcut("ctrl + s"), Some(Shortcut::ctrl('s')));
    assert_eq!(parse_shortcut("Ctrl+Shift"), None);
    assert_eq!(parse_shortcut("Ctrl+Enter"), None);
    let p = parse_shortcut("Alt+x").unwrap();
    assert!(p.alt && !p.ctrl && p.key == 'x');
}

#[test]
fn mix_script_headers() {
    let src = "-- @script Word Count\n--   @shortcut Ctrl+Shift+W  \n\n-- @description Count words\nlet x = 1\n-- @script Ignored\n";
    let m = parse_mix_meta(src, Some("wc".to_string()));
    assert_eq!(m.name, "Word Count");
    assert_eq!(m.shortcut, Some("Ctrl+Shift+W".to_string()));
    assert_eq!(m.description, Some("Count words".to_string()));
    let m = parse_mix_meta("print(1)\n", Some("hello".to_string()));
    assert_eq!(m.name, "hello");
    assert!(m.shortcut.is_none());
    let m = parse_mix_meta("", None);
    assert_eq!(m.name, "Untitled");
}

#[test]
fn script_meta_and_context() {
    let meta = ScriptMeta { name: "n".to_string(), shortcut: None, description: None };
    let s = Script::Toml(ScriptDef { script: meta, steps: vec![] });
    assert_eq!(s.meta().name, "n");
    let m = Script::Mix {
        meta: ScriptMeta { name: "m".to_string(), shortcut: None, description: None },
        path: "/x.mx".to_string(),
    };
    assert_eq!(m.meta().name, "m");
    let mut vars = HashMap::new();
    vars.insert("$LINE".to_string(), "3".to_string());
    let ctx = ScriptContext::new("edit", vars.clone());
    assert_eq!(ctx.service_name, "edit");
    assert_eq!(ctx.app_vars, vars);
    assert!(ctx.step_vars.is_empty());
    assert_eq!(script_action_id("script:wc"), Some("wc".to_string()));
    assert_eq!(script_action_id("file.open"), None);
}

#[test]
fn script_run_results() {
    let mut run = ScriptRun::new();
    run.on_step_done("{\"a\":1}".to_string());
    let r = run.call_failed("edit.get", "timeout");
    assert_eq!(r.rc, 10);
    assert_eq!(r.body, Some("{\"a\":1}".to_string()));
    assert_eq!(r.error, Some("Step 2 (edit.get) failed: timeout".to_string()));
    let r = ScriptRun::new().args_failed("expected value");
    assert_eq!(r.error, Some("Step 1 args parse error: expected value".to_string()));
    assert!(r.body.is_none());
    let mut run = ScriptRun::new();
    run.on_step_done("b".to_string());
    let r = run.finish();
    assert_eq!((r.rc, r.body, r.error), (0, Some("b".to_string()), None));
}

#[test]
fn stored_values_from_replies() {
    let one = StepReply::Object(vec![("content".to_string(), ReplyValue::Text("hello".to_string()))]);
    assert_eq!(stored_value(&one, "{\"content\":\"hello\"}", "x"), "hello");
    let one_num = StepReply::Object(vec![("n".to_string(), ReplyValue::Json("5".to_string()))]);
    assert_eq!(stored_value(&one_num, "{\"n\":5}", "x"), "5");
    let many = StepReply::Object(vec![
        ("path".to_string(), ReplyValue::Text("/a".to_string())),
        ("size".to_string(), ReplyValue::Json("3".to_string())),
    ]);
    assert_eq!(stored_value(&many, "BODY", "path"), "/a");
    assert_eq!(stored_value(&many, "BODY", "size"), "BODY");
    assert_eq!(stored_value(&many, "BODY", "other"), "BODY");
    assert_eq!(stored_value(&StepReply::Text("t".to_string()), "\"t\"", "x"), "t");
    assert_eq!(stored_value(&StepReply::Other, "[1]", "x"), "[1]");
    let mut ctx = ScriptContext::new("s", HashMap::new());
    store_var(&mut ctx, "v".to_string(), "1".to_string());
    assert_eq!(ctx.step_vars.get("v"), Some(&"1".to_string()));
}

#[test]
fn desktop_entries_parse_and_sort() {
    let entry = "[Desktop Entry]\nName=Cosmix Edit\nExec=cosmix-edit %F --flag\nCategories=Utility;Cosmix;\n[Desktop Action New]\nName=Other\n";
    let e = parse_desktop_entry(entry).unwrap();
    assert_eq!(e.name, "Cosmix Edit");
    assert_eq!(e.command, "cosmix-edit");
    assert!(parse_desktop_entry("[Desktop Entry]\nName=X\nExec=x\nCategories=Utility;\n").is_none());
    assert!(parse_desktop_entry("[Desktop Entry]\nName=X\nExec=x\nCategories=Cosmix;\nNoDisplay=true\n").is_none());
    assert!(parse_desktop_entry("[Desktop Entry]\nName=M\nExec=cosmix-menu\nCategories=Cosmix\n").is_none());
    let apps = vec![
        AppEntry { name: "Zed".to_string(), command: "zed".to_string() },
        AppEntry { name: "Shell".to_string(), command: "cosmix-shell".to_string() },
        AppEntry { name: "Alpha".to_string(), command: "alpha".to_string() },
    ];
    let names: Vec<String> = sort_apps(apps).into_iter().map(|a| a.name).collect();
    assert_eq!(names, vec!["Shell".to_string(), "Alpha".to_string(), "Zed".to_string()]);
    assert_eq!(
        launch_command("cosmix-edit  --new file"),
        Some(("cosmix-edit".to_string(), vec!["--new".to_string(), "file".to_string()]))
    );
    assert_eq!(launch_command("   "), None);
}

#[test]
fn display_formats() {
    assert_eq!(format_uptime(90061), "1d 1h 1m");
    assert_eq!(format_uptime(3660), "1h 1m");
    assert_eq!(format_uptime(59), "0m");
    assert_eq!(task_status_color("OK"), "var(--success)");
    assert_eq!(task_status_color("WARNINGS: 2"), "var(--warning)");
    assert_eq!(task_status_color(""), "var(--accent)");
    assert_eq!(task_status_color("failed"), "var(--danger)");
    assert_eq!(default_doc_prefix(), "search_document: ");
    assert_eq!(default_limit(), 10);
    assert_eq!(format_timestamp(0), "1970-01-01 00:00");
    assert_eq!(format_timestamp(1_700_000_000), "2023-11-14 22:13");
    assert_eq!(format_timestamp(i64::MAX), "-");
}

#[test]
fn log_tail_and_search() {
    let content = "one\nTwo\nthree\nfour two\n";
    assert_eq!(tail_lines(content, 2), "three\nfour two");
    assert_eq!(tail_lines(content, 10), "one\nTwo\nthree\nfour two");
    assert_eq!(tail_lines("", 3), "");
    assert_eq!(search_lines(content, "TWO", 5), "Two\nfour two");
    assert_eq!(search_lines(content, "two", 1), "four two");
    assert_eq!(search_lines(content, "zzz", 5), "No matches found");
    let entries = vec!["hub.log.1".to_string(), "hub.log.3".to_string(), "mail.log".to_string()];
    assert_eq!(log_file_name("amp", false, &entries), "amp.log");
    assert_eq!(log_file_name("hub", true, &entries), "hub");
    assert_eq!(log_file_name("hub", false, &entries), "hub.log.3");
    assert_eq!(log_file_name("nope", false, &entries), "nope");
}

#[test]
fn file_listing_and_text_check() {
    let f = |name: &str, dir: bool| FileEntry {
        name: name.to_string(),
        path: format!("/x/{name}"),
        is_dir: dir,
        size: 0,
        modified: String::new(),
    };
    let sorted = sort_entries(vec![f("b.txt", false), f("Zdir", true), f("A.txt", false), f("adir", true)]);
    let names: Vec<String> = sorted.into_iter().map(|e| e.name).collect();
    assert_eq!(names, vec!["adir", "Zdir", "A.txt", "b.txt"]);
    assert_eq!(file_text(b"hello".to_vec()).ok(), Some("hello".to_string()));
    assert!(file_text(b"he\0llo".to_vec()).is_err());
    assert!(file_text(vec![0xff, 0xfe]).is_err());
    let mut late_nul = vec![b'a'; 9000];
    late_nul.push(0);
    assert!(file_text(late_nul).is_ok());
}

fn msg(headers: &[(&str, &str)]) -> AmpMsg {
    AmpMsg {
        headers: headers.iter().map(|(k, v)| (k.to_string(), v.to_string())).collect(),
        body: String::new(),
    }
}

#[test]
fn hub_registers_and_routes() {
    let mut reg = Registry::new();
    let mut svc_a: Option<String> = None;
    let mut svc_b: Option<String> = None;
    match on_message(&mut reg, &mut svc_a, 1, &msg(&[("command", "hub.register"), ("from", "edit"), ("id", "7")])) {
        HubAction::Reply(m) => {
            assert_eq!(m.get("rc"), Some("0".to_string()));
            assert_eq!(m.get("id"), Some("7".to_string()));
            assert_eq!(m.get("type"), Some("response".to_string()));
            assert_eq!(m.body, "{\"registered\": \"edit\"}");
        }
        _ => panic!("expected a reply"),
    }
    assert_eq!(svc_a, Some("edit".to_string()));
    assert_eq!(reg.find("edit"), Some(1));
    assert!(matches!(
        on_message(&mut reg, &mut svc_b, 2, &msg(&[("to", "edit"), ("command", "edit.open")])),
        HubAction::Forward(1)
    ));
    match on_message(&mut reg, &mut svc_b, 2, &msg(&[("to", "view"), ("command", "x")])) {
        HubAction::Reply(m) => assert_eq!(m.get("error"), Some("Service 'view' not found".to_string())),
        _ => panic!("expected an error"),
    }
    match on_message(&mut reg, &mut svc_b, 2, &msg(&[("command", "hub.list")])) {
        HubAction::Reply(m) => assert_eq!(m.body, "[\"edit\"]"),
        _ => panic!("expected a reply"),
    }
    match on_message(&mut reg, &mut svc_b, 2, &msg(&[("command", "hub.ping")])) {
        HubAction::Reply(m) => assert_eq!(m.body, "{\"pong\": true}"),
        _ => panic!("expected a reply"),
    }
    match on_message(&mut reg, &mut svc_b, 2, &msg(&[("command", "hub.bogus")])) {
        HubAction::Reply(m) => {
            assert_eq!(m.get("rc"), Some("10".to_string()));
            assert_eq!(m.get("error"), Some("Unknown hub command: 'hub.bogus'".to_string()));
        }
        _ => panic!("expected a reply"),
    }
    match on_message(&mut reg, &mut svc_b, 2, &msg(&[("command", "hub.register")])) {
        HubAction::Reply(m) => {
            assert_eq!(m.get("error"), Some("hub.register requires 'from' header".to_string()))
        }
        _ => panic!("expected a reply"),
    }
    on_message(&mut reg, &mut svc_a, 1, &msg(&[("command", "hub.register"), ("from", "editor")]));
    assert_eq!(reg.find("edit"), None);
    assert_eq!(reg.find("editor"), Some(1));
    let e = on_forward_failed(&mut reg, "editor");
    assert_eq!(e.get("error"), Some("Service 'editor' disconnected".to_string()));
    assert_eq!(reg.find("editor"), None);
    on_message(&mut reg, &mut svc_b, 2, &msg(&[("command", "hub.register"), ("from", "view")]));
    on_disconnect(&mut reg, &svc_b);
    assert_eq!(reg.find("view"), None);
    let bad = invalid_message("missing blank line");
    assert_eq!(bad.get("rc"), Some("10".to_string()));
    assert_eq!(bad.get("error"), Some("Invalid AMP message: missing blank line".to_string()));
}

#[test]
fn amp_headers_set_and_get() {
    let mut m = AmpMsg::new().with_header("a", "1").with_header("b", "2");
    m.set("a", "3");
    assert_eq!(m.headers, vec![("a".to_string(), "3".to_string()), ("b".to_string(), "2".to_string())]);
    assert_eq!(m.get("b"), Some("2".to_string()));
    assert_eq!(m.get("c"), None);
}

fn mix(name: &str) -> Script {
    Script::Mix {
        meta: ScriptMeta { name: name.to_string(), shortcut: None, description: None },
        path: format!("/s/{name}.mix"),
    }
}

#[test]
fn script_discovery_order() {
    assert_eq!(scripts_dir(Some("/x".to_string()), Some("/h".to_string())), "/x/cosmix/scripts");
    assert_eq!(scripts_dir(None, Some("/home/u".to_string())), "/home/u/.config/cosmix/scripts");
    assert_eq!(scripts_dir(None, None), "/tmp/cosmix/scripts");
    let scripts = vec![
        ("b".to_string(), mix("Beta")),
        ("a2".to_string(), mix("Alpha")),
        ("a1".to_string(), mix("Alpha")),
        ("z".to_string(), mix("Zulu")),
    ];
    let sorted = sort_scripts(scripts);
    let ids: Vec<&str> = sorted.iter().map(|(id, _)| id.as_str()).collect();
    assert_eq!(ids, vec!["a2", "a1", "b", "z"]);
    assert_eq!(find_script(&sorted, "z").map(|s| s.meta().name.clone()), Some("Zulu".to_string()));
    assert!(find_script(&sorted, "nope").is_none());
}

#[test]
fn remote_menu_commands() {
    let bar = MenuBarDef::new()
        .with(MenuItem::Submenu { label: "File".to_string(), items: vec![action("file.save", "Save", None)] })
        .with(MenuItem::Submenu { label: "Edit".to_string(), items: vec![action("edit.copy", "Copy", None)] });
    let mut st = MenuState { open: None, highlight: None };
    let fx = bar.on_command(&mut st, MenuCommand::Highlight { id: "edit.copy".to_string(), duration_ms: 500 });
    assert_eq!(st.open, Some(1));
    assert_eq!(st.highlight, Some("edit.copy".to_string()));
    assert!(matches!(fx.as_slice(), [MenuEffect::ClearHighlightAfter(500)]));
    let fx = bar.on_command(&mut st, MenuCommand::Invoke { id: "file.save".to_string() });
    assert_eq!(st.open, Some(0));
    match fx.as_slice() {
        [MenuEffect::Dispatch(MenuAction::Local(id)), MenuEffect::CloseAfter(300)] => assert_eq!(id, "file.save"),
        _ => panic!("expected dispatch then close"),
    }
    let fx = bar.on_command(&mut st, MenuCommand::Invoke { id: "missing".to_string() });
    assert!(fx.is_empty());
    assert_eq!(st.open, Some(0));
    bar.on_command(&mut st, MenuCommand::Close);
    assert_eq!(st.open, None);
    assert_eq!(st.highlight, None);
    on_trigger_click(&mut st, 1);
    assert_eq!(st.open, Some(1));
    on_trigger_click(&mut st, 1);
    assert_eq!(st.open, None);
    assert_eq!(item_class(false, true), "cmx-menu-item cmx-disabled");
    assert_eq!(item_class(true, true), "cmx-menu-item cmx-amp-highlight");
    assert_eq!(item_class(true, false), "cmx-menu-item");
    assert_eq!(local_action_id(&MenuAction::Local("x".to_string())), Some("x".to_string()));
    assert_eq!(local_action_id(&MenuAction::Noop), None);
}

#[test]
fn shortcut_label_parses_back() {
    for key in ['s', '1', '/', 'z'] {
        for mods in 0u8..8 {
            let sc = Shortcut { ctrl: mods & 1 != 0, shift: mods & 2 != 0, alt: mods & 4 != 0, key };
            assert_eq!(parse_shortcut(&sc.label()), Some(sc));
        }
    }
    assert_eq!(Shortcut::ctrl_shift('v').label(), "Ctrl+Shift+V");
}

#[test]
fn sorted_listings_are_in_order() {
    let f = |name: &str, is_dir: bool| FileEntry {
        name: name.to_string(),
        path: format!("/x/{name}"),
        is_dir,
        size: 0,
        modified: String::new(),
    };
    let sorted = sort_entries(vec![f("c", false), f("B", true), f("a", false), f("d", true), f("b", false)]);
    let keys: Vec<(bool, String)> = sorted.iter().map(|e| (e.is_dir, e.name.to_lowercase())).collect();
    for w in keys.windows(2) {
        assert!(w[0].0 && !w[1].0 || (w[0].0 == w[1].0 && w[0].1 <= w[1].1));
    }
}

#[test]
fn user_menu_lists_scripts_then_commands() {
    let mix = |name: &str, shortcut: Option<&str>| Script::Mix {
        meta: ScriptMeta { name: name.to_string(), shortcut: shortcut.map(|s| s.to_string()), description: None },
        path: String::new(),
    };
    let scripts = vec![
        ("a".to_string(), mix("Alpha", Some("Ctrl+Shift+A"))),
        ("b".to_string(), mix("Beta", Some("Ctrl+Enter"))),
    ];
    let act = |id: &str, label: &str, shortcut: Option<Shortcut>| MenuItem::Action {
        id: id.to_string(),
        label: label.to_string(),
        shortcut,
        action: MenuAction::Local(id.to_string()),
        enabled: true,
    };
    assert_eq!(
        user_menu(&scripts),
        MenuItem::Submenu {
            label: "User".to_string(),
            items: vec![
                act("script:a", "Alpha", Some(Shortcut::ctrl_shift('a'))),
                act("script:b", "Beta", None),
                MenuItem::Separator,
                act("script:reload", "Reload Scripts", None),
                act("script:open-folder", "Open Scripts Folder", None),
            ],
        }
    );
    assert_eq!(user_menu(&Vec::new()), MenuItem::Submenu { label: "User".to_string(), items: vec![] });
}

#[test]
fn amp_button_command_effects() {
    assert_eq!(
        button_effects("file.save", "file.save", &UiCommand::Invoke),
        vec![ButtonEffect::Consume, ButtonEffect::Highlight, ButtonEffect::Click, ButtonEffect::ClearAfter(300)]
    );
    assert_eq!(
        button_effects("file.save", "file.save", &UiCommand::Highlight { duration_ms: 800 }),
        vec![ButtonEffect::Consume, ButtonEffect::Highlight, ButtonEffect::ClearAfter(800)]
    );
    assert_eq!(
        button_effects("file.save", "file.save", &UiCommand::SetValue("x".to_string())),
        vec![ButtonEffect::Consume, ButtonEffect::Click]
    );
    assert!(button_effects("file.save", "file.open", &UiCommand::Invoke).is_empty());
    assert_eq!(ElementKind::Toggle.as_str(), "toggle");
}
