use smapi_manager::registry::{Instance, Manager, RemoveError};

fn two_entry_manager() -> Manager {
    let mut m = Manager::new("/opt/smapi".to_string());
    m.add_instance(Instance::new("AltMods".to_string(), None), "Alt".to_string());
    m
}

#[test]
fn seed_has_exactly_the_default_entry() {
    let m = Manager::new("/opt/smapi".to_string());
    assert_eq!(m.instances.len(), 1);
    assert_eq!(m.instances[0].0, "Default");
    assert_eq!(m.instances[0].1.folder_name, "Mods");
    assert!(m.instances[0].1.smapi_path.is_none());
    assert_eq!(m.smapi_path, "/opt/smapi");
}

#[test]
fn add_instance_keeps_lexical_order() {
    let m = two_entry_manager();
    assert_eq!(m.instances.len(), 2);
    assert_eq!(m.instances[0].0, "Alt");
    assert_eq!(m.instances[1].0, "Default");
}

#[test]
fn add_instance_overwrites_existing_name() {
    let mut m = two_entry_manager();
    m.add_instance(
        Instance::new("Elsewhere".to_string(), Some("/bin/other".to_string())),
        "Alt".to_string(),
    );
    assert_eq!(m.instances.len(), 2);
    assert_eq!(m.instances[0].0, "Alt");
    assert_eq!(m.instances[0].1.folder_name, "Elsewhere");
    assert_eq!(m.instances[0].1.smapi_path, Some("/bin/other".to_string()));
}

#[test]
fn lookup_finds_the_entry() {
    let m = two_entry_manager();
    let inst = m.lookup(&"Alt".to_string()).expect("Alt is present");
    assert_eq!(inst.folder_name, "AltMods");
    assert!(m.lookup(&"Missing".to_string()).is_none());
}

#[test]
fn contains_name_reports_presence() {
    let m = two_entry_manager();
    assert!(m.contains_name(&"Default".to_string()));
    assert!(!m.contains_name(&"Other".to_string()));
}

#[test]
fn remove_unknown_name_is_not_found() {
    let mut m = two_entry_manager();
    let r = m.remove_instance(&"Nope".to_string(), None);
    assert_eq!(r, Err(RemoveError::NotFound));
    assert_eq!(m.instances.len(), 2);
}

#[test]
fn remove_last_entry_is_rejected() {
    let mut m = Manager::new("/opt/smapi".to_string());
    let r = m.remove_instance(&"Default".to_string(), None);
    assert_eq!(r, Err(RemoveError::InvariantViolation));
    assert_eq!(m.instances.len(), 1);
}

#[test]
fn soft_remove_deletes_only_the_entry() {
    let mut m = two_entry_manager();
    let r = m.remove_instance(&"Alt".to_string(), None);
    assert_eq!(r, Ok(()));
    assert_eq!(m.instances.len(), 1);
    assert_eq!(m.instances[0].0, "Default");
}

#[test]
fn hard_remove_failure_keeps_the_entry() {
    let mut m = two_entry_manager();
    let r = m.remove_instance(&"Alt".to_string(), Some(false));
    assert_eq!(r, Err(RemoveError::FolderDeleteError));
    assert_eq!(m.instances.len(), 2);
    assert!(m.contains_name(&"Alt".to_string()));
}

#[test]
fn hard_remove_success_deletes_the_entry() {
    let mut m = two_entry_manager();
    let r = m.remove_instance(&"Alt".to_string(), Some(true));
    assert_eq!(r, Ok(()));
    assert_eq!(m.instances.len(), 1);
    assert!(!m.contains_name(&"Alt".to_string()));
}
