use smapi_manager::controller::{App, CurrentScreen, CurrentlyAdding, Effect, Key, launch_args};
use smapi_manager::registry::{Instance, Manager};

fn seeded_app() -> App {
    App::new(Manager::new("/opt/smapi".to_string()))
}

fn two_entry_app() -> App {
    let mut m = Manager::new("/opt/smapi".to_string());
    m.add_instance(Instance::new("AltMods".to_string(), None), "Alt".to_string());
    App::new(m)
}

fn type_text(app: &mut App, text: &str) {
    for c in text.chars() {
        let _ = app.handle_key(Key::Char(c));
    }
}

#[test]
fn select_next_on_a_single_key_stays_on_default() {
    let mut app = seeded_app();
    assert_eq!(app.current_instance, "Default");
    app.select_next();
    assert_eq!(app.current_instance, "Default");
}

#[test]
fn select_next_cycles_through_two_keys() {
    let mut app = two_entry_app();
    assert_eq!(app.current_instance, "Default");
    app.select_next();
    assert_eq!(app.current_instance, "Alt");
    app.select_next();
    assert_eq!(app.current_instance, "Default");
}

#[test]
fn select_prev_cycles_through_two_keys() {
    let mut app = two_entry_app();
    app.select_prev();
    assert_eq!(app.current_instance, "Alt");
    app.select_prev();
    assert_eq!(app.current_instance, "Default");
}

#[test]
fn select_prev_undoes_select_next() {
    let mut app = two_entry_app();
    app.select_next();
    app.select_prev();
    assert_eq!(app.current_instance, "Default");
}

#[test]
fn full_cycle_returns_to_the_start() {
    let mut app = two_entry_app();
    app.manager.add_instance(
        Instance::new("More".to_string(), None),
        "Zeta".to_string(),
    );
    let n = app.manager.instances.len();
    let start = app.current_instance.clone();
    for _ in 0..n {
        app.select_next();
    }
    assert_eq!(app.current_instance, start);
    for _ in 0..n {
        app.select_prev();
    }
    assert_eq!(app.current_instance, start);
}

#[test]
fn normalization_counts_as_the_requested_step() {
    let mut app = two_entry_app();
    app.current_instance = "Gone".to_string();
    app.select_next();
    assert_eq!(app.current_instance, "Alt");
}

#[test]
fn toggle_adding_cycles_the_focus() {
    let mut app = seeded_app();
    assert!(app.adding.is_none());
    app.toggle_adding();
    assert!(matches!(app.adding, Some(CurrentlyAdding::Name)));
    app.toggle_adding();
    assert!(matches!(app.adding, Some(CurrentlyAdding::FolderName)));
    app.toggle_adding();
    assert!(matches!(app.adding, Some(CurrentlyAdding::SmapiPath)));
    app.toggle_adding();
    assert!(matches!(app.adding, Some(CurrentlyAdding::Name)));
}

#[test]
fn duplicate_name_keeps_the_wizard_at_name() {
    let mut app = seeded_app();
    let _ = app.handle_key(Key::Char('a'));
    assert!(matches!(app.screen, CurrentScreen::Add));
    type_text(&mut app, "Default");
    assert_eq!(app.name_input, "Default");
    let _ = app.handle_key(Key::Enter);
    assert!(matches!(app.adding, Some(CurrentlyAdding::Name)));
    assert_eq!(app.manager.instances.len(), 1);
    assert!(matches!(app.screen, CurrentScreen::Add));
}

#[test]
fn empty_name_keeps_the_wizard_at_name() {
    let mut app = seeded_app();
    let _ = app.handle_key(Key::Char('a'));
    let _ = app.handle_key(Key::Enter);
    assert!(matches!(app.adding, Some(CurrentlyAdding::Name)));
}

#[test]
fn add_wizard_commits_a_new_instance() {
    let mut app = seeded_app();
    let _ = app.handle_key(Key::Char('a'));
    type_text(&mut app, "Second");
    let _ = app.handle_key(Key::Enter);
    assert!(matches!(app.adding, Some(CurrentlyAdding::FolderName)));
    type_text(&mut app, "SecondMods");
    let _ = app.handle_key(Key::Enter);
    assert!(matches!(app.adding, Some(CurrentlyAdding::SmapiPath)));
    let _ = app.handle_key(Key::Enter);
    assert!(matches!(app.screen, CurrentScreen::Main));
    assert!(app.adding.is_none());
    assert_eq!(app.name_input, "");
    assert_eq!(app.folder_name_input, "");
    let inst = app.manager.lookup(&"Second".to_string()).expect("committed");
    assert_eq!(inst.folder_name, "SecondMods");
    assert!(inst.smapi_path.is_none());
}

#[test]
fn add_wizard_nonempty_path_sets_override() {
    let mut app = seeded_app();
    let _ = app.handle_key(Key::Char('a'));
    type_text(&mut app, "Second");
    let _ = app.handle_key(Key::Enter);
    let _ = app.handle_key(Key::Enter);
    type_text(&mut app, "/bin/alt");
    let _ = app.handle_key(Key::Enter);
    let inst = app.manager.lookup(&"Second".to_string()).expect("committed");
    assert_eq!(inst.folder_name, "");
    assert_eq!(inst.smapi_path, Some("/bin/alt".to_string()));
}

#[test]
fn backspace_edits_the_focused_buffer() {
    let mut app = seeded_app();
    let _ = app.handle_key(Key::Char('a'));
    type_text(&mut app, "ab");
    let _ = app.handle_key(Key::Backspace);
    assert_eq!(app.name_input, "a");
    let _ = app.handle_key(Key::Backspace);
    let _ = app.handle_key(Key::Backspace);
    assert_eq!(app.name_input, "");
}

#[test]
fn escape_cancels_and_clears_the_wizard() {
    let mut app = seeded_app();
    let _ = app.handle_key(Key::Char('a'));
    type_text(&mut app, "Half");
    let _ = app.handle_key(Key::Esc);
    assert!(matches!(app.screen, CurrentScreen::Main));
    assert!(app.adding.is_none());
    assert_eq!(app.name_input, "");
    assert_eq!(app.manager.instances.len(), 1);
}

#[test]
fn launch_uses_the_default_path_without_override() {
    let mut app = seeded_app();
    let eff = app.handle_key(Key::Enter);
    match eff {
        Effect::Launch { path, folder } => {
            assert_eq!(path, "/opt/smapi");
            assert_eq!(folder, "Mods");
        },
        _ => panic!("expected a launch effect"),
    }
}

#[test]
fn launch_prefers_the_override_path() {
    let mut m = Manager::new("/opt/smapi".to_string());
    m.add_instance(
        Instance::new("AltMods".to_string(), Some("/bin/alt".to_string())),
        "Alt".to_string(),
    );
    let mut app = App::new(m);
    app.select_next();
    assert_eq!(app.current_instance, "Alt");
    let eff = app.handle_key(Key::Enter);
    match eff {
        Effect::Launch { path, folder } => {
            assert_eq!(path, "/bin/alt");
            assert_eq!(folder, "AltMods");
        },
        _ => panic!("expected a launch effect"),
    }
}

#[test]
fn launch_args_build_the_invocation() {
    let argv = launch_args("/bin/alt".to_string(), "AltMods".to_string());
    assert_eq!(argv, vec!["-e", "steam-run", "/bin/alt", "--mods-path", "AltMods"]);
}

#[test]
fn soft_remove_advances_the_selector_first() {
    let mut app = two_entry_app();
    app.select_next();
    assert_eq!(app.current_instance, "Alt");
    let _ = app.handle_key(Key::Char('r'));
    assert!(matches!(app.screen, CurrentScreen::Remove));
    let _ = app.handle_key(Key::Char('y'));
    assert!(matches!(app.screen, CurrentScreen::Main));
    assert_eq!(app.manager.instances.len(), 1);
    assert!(!app.manager.contains_name(&"Alt".to_string()));
    assert_eq!(app.current_instance, "Default");
    assert!(app.manager.contains_name(&app.current_instance));
}

#[test]
fn soft_remove_of_the_last_entry_is_refused() {
    let mut app = seeded_app();
    let _ = app.handle_key(Key::Char('r'));
    let _ = app.handle_key(Key::Char('y'));
    assert!(matches!(app.screen, CurrentScreen::Main));
    assert_eq!(app.manager.instances.len(), 1);
}

#[test]
fn hard_remove_waits_for_the_deletion_outcome() {
    let mut app = two_entry_app();
    app.select_next();
    let _ = app.handle_key(Key::Char('r'));
    let eff = app.handle_key(Key::Char('a'));
    match eff {
        Effect::DeleteFolder { name, folder } => {
            assert_eq!(name, "Alt");
            assert_eq!(folder, "AltMods");
        },
        _ => panic!("expected a folder deletion effect"),
    }
    assert_eq!(app.manager.instances.len(), 2);
    app.finish_remove(true);
    assert_eq!(app.manager.instances.len(), 1);
    assert!(!app.manager.contains_name(&"Alt".to_string()));
    assert!(app.pending_remove.is_none());
}

#[test]
fn hard_remove_failure_keeps_the_registry_entry() {
    let mut app = two_entry_app();
    app.select_next();
    let _ = app.handle_key(Key::Char('r'));
    let _ = app.handle_key(Key::Char('a'));
    app.finish_remove(false);
    assert_eq!(app.manager.instances.len(), 2);
    assert!(app.manager.contains_name(&"Alt".to_string()));
    assert!(app.pending_remove.is_none());
}

#[test]
fn hard_remove_of_the_last_entry_is_refused() {
    let mut app = seeded_app();
    let _ = app.handle_key(Key::Char('r'));
    let eff = app.handle_key(Key::Char('a'));
    assert!(matches!(eff, Effect::NoOp));
    assert!(matches!(app.screen, CurrentScreen::Main));
    assert_eq!(app.manager.instances.len(), 1);
}

#[test]
fn remove_screen_cancel_changes_nothing() {
    let mut app = two_entry_app();
    let _ = app.handle_key(Key::Char('r'));
    let _ = app.handle_key(Key::Char('n'));
    assert!(matches!(app.screen, CurrentScreen::Main));
    assert_eq!(app.manager.instances.len(), 2);
}

#[test]
fn exit_screen_confirms_and_cancels() {
    let mut app = seeded_app();
    let _ = app.handle_key(Key::Char('q'));
    assert!(matches!(app.screen, CurrentScreen::Exit));
    let eff = app.handle_key(Key::Char('n'));
    assert!(matches!(eff, Effect::NoOp));
    assert!(matches!(app.screen, CurrentScreen::Main));
    let _ = app.handle_key(Key::Char('q'));
    let eff = app.handle_key(Key::Char('y'));
    assert!(matches!(eff, Effect::Quit));
}

#[test]
fn unmatched_keys_are_no_ops() {
    let mut app = seeded_app();
    let eff = app.handle_key(Key::Char('o'));
    assert!(matches!(eff, Effect::NoOp));
    assert!(matches!(app.screen, CurrentScreen::Main));
    let eff = app.handle_key(Key::Other);
    assert!(matches!(eff, Effect::NoOp));
}
