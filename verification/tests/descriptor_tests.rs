use container_desktop_entries::descriptor::{decode, DecodeError};

#[test]
fn decode_reads_entry_group_fields() {
    let text = "[Desktop Entry]\nName=My App\nExec=myapp --flag\nIcon=myapp\nNoDisplay=false";
    let d = decode("app", text).unwrap();
    assert_eq!(d.appid, "app");
    assert_eq!(d.launch.as_deref(), Some("myapp --flag"));
    assert_eq!(d.name.as_deref(), Some("My App"));
    assert_eq!(d.icon.as_deref(), Some("myapp"));
    assert!(!d.no_display);
}

#[test]
fn decode_no_display_true() {
    let text = "[Desktop Entry]\nNoDisplay=true";
    let d = decode("app", text).unwrap();
    assert!(d.no_display);
}

#[test]
fn decode_missing_fields_are_none() {
    let d = decode("app", "[Desktop Entry]").unwrap();
    assert!(d.launch.is_none());
    assert!(d.name.is_none());
    assert!(d.icon.is_none());
    assert!(!d.no_display);
}

#[test]
fn decode_rejects_malformed_line() {
    let text = "[Desktop Entry]\ngarbage line";
    assert_eq!(decode("app", text).unwrap_err(), DecodeError::BadLine);
}

#[test]
fn decode_rejects_missing_entry_group() {
    let text = "[Other Group]\nExec=x";
    assert_eq!(
        decode("app", text).unwrap_err(),
        DecodeError::MissingEntryGroup
    );
}

#[test]
fn decode_later_key_overrides_earlier() {
    let text = "[Desktop Entry]\nIcon=first\nIcon=second";
    let d = decode("app", text).unwrap();
    assert_eq!(d.icon.as_deref(), Some("second"));
}

#[test]
fn decode_ignores_keys_outside_entry_group() {
    let text = "[Other]\nExec=wrong\n[Desktop Entry]\nName=Right\n[Another]\nIcon=wrong";
    let d = decode("app", text).unwrap();
    assert!(d.launch.is_none());
    assert_eq!(d.name.as_deref(), Some("Right"));
    assert!(d.icon.is_none());
}

#[test]
fn decode_ignores_comments_and_blanks() {
    let text = "#Exec=commented\n\n[Desktop Entry]\n# another comment\nExec=real";
    let d = decode("app", text).unwrap();
    assert_eq!(d.launch.as_deref(), Some("real"));
}

#[test]
fn decode_value_may_contain_equals() {
    let text = "[Desktop Entry]\nExec=env A=1 myapp";
    let d = decode("app", text).unwrap();
    assert_eq!(d.launch.as_deref(), Some("env A=1 myapp"));
}
