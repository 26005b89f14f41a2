use troozn_proxy::registry::{
    normalize_phone_role, safe_device_id, safe_folder_name, PhoneRegister, PhoneRegistry,
    RegisterError,
};

fn registration(device: &str, name: Option<&str>, role: &str) -> PhoneRegister {
    PhoneRegister {
        device_id: device.to_string(),
        display_name: name.map(|n| n.to_string()),
        role: role.to_string(),
        source_visible: true,
    }
}

#[test]
fn device_identifiers_are_made_safe() {
    assert_eq!(safe_device_id("phone-1"), "phone-1");
    assert_eq!(safe_device_id("a b/c:é"), "a_b_c__");
    assert_eq!(safe_device_id(""), "phone");
}

#[test]
fn roles_are_recognized() {
    assert_eq!(normalize_phone_role(" Admin "), "admin");
    assert_eq!(normalize_phone_role("PRINCIPAL"), "admin");
    assert_eq!(normalize_phone_role("guest"), "guest");
    assert_eq!(normalize_phone_role("other"), "guest");
}

#[test]
fn folder_names_are_made_safe() {
    assert_eq!(safe_folder_name(" Pixel TROOZN "), "Pixel TROOZN");
    assert_eq!(safe_folder_name("a/b\\c\u{7}"), "a_b_c_");
    assert_eq!(safe_folder_name("..hidden.."), "hidden");
    assert_eq!(safe_folder_name("..."), "Telephone");
}

#[test]
fn only_one_device_can_be_the_administrator() {
    let mut phones = PhoneRegistry::new();
    assert_eq!(phones.register(registration("a", None, "admin"), 1, 100), Ok(()));
    assert_eq!(
        phones.register(registration("b", None, "admin"), 2, 100),
        Err(RegisterError::AdminAlreadyClaimed)
    );
    assert_eq!(phones.phones.len(), 1);
    assert_eq!(phones.register(registration("a", None, "principal"), 3, 100), Ok(()));
    assert_eq!(phones.register(registration("b", None, "guest"), 4, 100), Ok(()));
    assert_eq!(phones.admin_device_id.as_deref(), Some("a"));
    assert_eq!(RegisterError::AdminAlreadyClaimed.message(), "admin_already_claimed");
}

#[test]
fn phones_with_one_name_get_different_folders() {
    let mut phones = PhoneRegistry::new();
    phones.register(registration("a", Some("Pixel"), "guest"), 1, 100).unwrap();
    phones.register(registration("b", Some("Pixel"), "guest"), 2, 100).unwrap();
    phones.register(registration("c", Some("Pixel (d)"), "guest"), 3, 100).unwrap();
    phones.register(registration("d", Some("Pixel"), "guest"), 4, 1234).unwrap();
    let folders: Vec<String> =
        phones.phones.iter().map(|p| p.folder_name.clone()).collect();
    assert_eq!(folders, vec!["Pixel", "Pixel (b)", "Pixel (d)", "Pixel (1234)"]);
}

#[test]
fn a_phone_that_registers_again_keeps_its_folder() {
    let mut phones = PhoneRegistry::new();
    phones.register(registration("a", Some("Pixel"), "guest"), 1, 100).unwrap();
    phones.register(registration("a", Some("Pixel"), "guest"), 9, 200).unwrap();
    assert_eq!(phones.phones.len(), 1);
    assert_eq!(phones.phones[0].connection, 9);
    assert_eq!(phones.phones[0].folder_name, "Pixel");
}

#[test]
fn a_blank_name_is_replaced_by_the_identifier() {
    let mut phones = PhoneRegistry::new();
    phones.register(registration("dev 1", Some("  "), "guest"), 1, 100).unwrap();
    assert_eq!(phones.phones[0].display_name, "dev_1");
}

#[test]
fn lost_phones_stay_for_half_a_minute() {
    let mut phones = PhoneRegistry::new();
    phones.register(registration("a", Some("Pixel"), "guest"), 1, 100).unwrap();
    assert_eq!(phones.unregister_connection(1, 1000), vec!["Pixel".to_string()]);
    assert!(phones.unregister_connection(2, 1000).is_empty());
    assert_eq!(phones.list(1030).len(), 1);
    assert!(phones.get_by_folder("Pixel", 1030).is_some());
    assert!(phones.get_by_folder("Pixel", 1031).is_none());
    assert!(phones.phones.is_empty());
}

#[test]
fn phones_are_listed_by_name_and_found() {
    let mut phones = PhoneRegistry::new();
    phones.register(registration("a", Some("Zed"), "guest"), 1, 100).unwrap();
    phones.register(registration("b", Some("Abe"), "guest"), 2, 100).unwrap();
    let mut hidden = registration("c", Some("Hidden"), "guest");
    hidden.source_visible = false;
    phones.register(hidden, 3, 100).unwrap();
    let names: Vec<String> =
        phones.list(100).iter().map(|p| p.display_name.clone()).collect();
    assert_eq!(names, vec!["Abe", "Zed"]);
    assert_eq!(phones.get_by_folder("Zed", 100).unwrap().id, "a");
    assert_eq!(phones.get_by_folder("a", 100).unwrap().id, "a");
    assert_eq!(phones.get_by_folder("Hidden", 100).unwrap().id, "c");
    assert!(phones.get_by_folder("nobody", 100).is_none());
    assert_eq!(phones.get_by_id("b", 100).unwrap().display_name, "Abe");
    assert!(phones.get_by_id("c", 100).is_none());
}
