use smapi_manager::registry::{Instance, Manager};

#[test]
fn save_writes_the_expected_document() {
    let m = Manager::new("/opt/smapi".to_string());
    let out = m.save();
    assert_eq!(
        out,
        "{\"instances\":{\"Default\":{\"folder_name\":\"Mods\",\"smapi_path\":null}},\"smapi_path\":\"/opt/smapi\"}"
    );
}

#[test]
fn save_writes_overrides_and_order() {
    let mut m = Manager::new("sp".to_string());
    m.add_instance(
        Instance::new("AltMods".to_string(), Some("/bin/alt".to_string())),
        "Alt".to_string(),
    );
    let out = m.save();
    assert_eq!(
        out,
        "{\"instances\":{\"Alt\":{\"folder_name\":\"AltMods\",\"smapi_path\":\"/bin/alt\"},\"Default\":{\"folder_name\":\"Mods\",\"smapi_path\":null}},\"smapi_path\":\"sp\"}"
    );
}

#[test]
fn load_of_save_round_trips() {
    let mut m = Manager::new("/opt/smapi".to_string());
    m.add_instance(
        Instance::new("AltMods".to_string(), Some("/bin/alt".to_string())),
        "Alt".to_string(),
    );
    let saved = m.save();
    let loaded = Manager::load_config(saved.as_str()).expect("saved document parses");
    assert_eq!(loaded.smapi_path, m.smapi_path);
    assert_eq!(loaded.instances.len(), m.instances.len());
    for k in 0..m.instances.len() {
        assert_eq!(loaded.instances[k].0, m.instances[k].0);
        assert_eq!(loaded.instances[k].1.folder_name, m.instances[k].1.folder_name);
        assert_eq!(loaded.instances[k].1.smapi_path, m.instances[k].1.smapi_path);
    }
}

#[test]
fn round_trip_escapes_quotes_and_backslashes() {
    let mut m = Manager::new("C:\\Games\\smapi".to_string());
    m.add_instance(
        Instance::new("Mo\"ds".to_string(), None),
        "We\\ird \"name\"".to_string(),
    );
    let saved = m.save();
    let loaded = Manager::load_config(saved.as_str()).expect("escaped document parses");
    assert_eq!(loaded.smapi_path, "C:\\Games\\smapi");
    assert!(loaded.instances.iter().any(|(n, i)| n == "We\\ird \"name\"" && i.folder_name == "Mo\"ds"));
}

#[test]
fn load_rejects_an_empty_file() {
    assert!(Manager::load_config("").is_err());
}

#[test]
fn load_rejects_malformed_text() {
    assert!(Manager::load_config("{\"instances\":{}").is_err());
    assert!(Manager::load_config("not json at all").is_err());
    assert!(Manager::load_config("{\"instances\":{},\"smapi_path\":\"x\"}").is_err());
}

#[test]
fn load_rejects_unsorted_names() {
    let text = "{\"instances\":{\"B\":{\"folder_name\":\"m\",\"smapi_path\":null},\"A\":{\"folder_name\":\"m\",\"smapi_path\":null}},\"smapi_path\":\"x\"}";
    assert!(Manager::load_config(text).is_err());
}

#[test]
fn load_accepts_a_plain_document() {
    let text = "{\"instances\":{\"A\":{\"folder_name\":\"m\",\"smapi_path\":\"/p\"},\"B\":{\"folder_name\":\"n\",\"smapi_path\":null}},\"smapi_path\":\"/s\"}";
    let m = Manager::load_config(text).expect("plain document parses");
    assert_eq!(m.instances.len(), 2);
    assert_eq!(m.instances[0].0, "A");
    assert_eq!(m.instances[0].1.smapi_path, Some("/p".to_string()));
    assert_eq!(m.instances[1].0, "B");
    assert_eq!(m.instances[1].1.smapi_path, None);
    assert_eq!(m.smapi_path, "/s");
}

#[test]
fn load_rejects_trailing_text() {
    let m = Manager::new("sp".to_string());
    let mut saved = m.save();
    saved.push(' ');
    assert!(Manager::load_config(saved.as_str()).is_err());
}
