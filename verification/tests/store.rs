use w_squid::config::{is_valid_name, parse_config, render_config};
use w_squid::errors::StoreError;
use w_squid::store::{config_file_path, BackingResource, ToggleStateStore};

fn writable_resource(text: &str) -> BackingResource {
    BackingResource { content: Some(text.to_string()), writable: true }
}

#[test]
fn malformed_config_yields_empty_mapping_and_diagnostic() {
    let res = writable_resource("this is not a flat mapping {");
    let (store, err) = ToggleStateStore::load(&res);
    assert!(store.entries().is_empty());
    assert_eq!(err, Some(StoreError::ConfigMalformed));
    assert!(err.unwrap().message().contains("ConfigMalformed"));
}

#[test]
fn unreadable_config_yields_empty_mapping_and_diagnostic() {
    let res = BackingResource { content: None, writable: true };
    let (store, err) = ToggleStateStore::load(&res);
    assert!(store.entries().is_empty());
    assert_eq!(err, Some(StoreError::ConfigUnreadable));
    assert!(err.unwrap().message().contains("ConfigUnreadable"));
}

#[test]
fn empty_config_loads_as_empty_mapping_without_error() {
    let res = writable_resource("");
    let (store, err) = ToggleStateStore::load(&res);
    assert!(store.entries().is_empty());
    assert_eq!(err, None);
}

#[test]
fn parse_accepts_flat_mapping() {
    let parsed = parse_config("ipv6: true\noffload: false\n").unwrap();
    assert_eq!(parsed.len(), 2);
    assert_eq!(parsed[0].0, "ipv6");
    assert!(parsed[0].1);
    assert_eq!(parsed[1].0, "offload");
    assert!(!parsed[1].1);
}

#[test]
fn parse_rejects_text_without_final_newline() {
    assert_eq!(parse_config("ipv6: true"), Err(StoreError::ConfigMalformed));
}

#[test]
fn parse_rejects_missing_space_after_colon() {
    assert_eq!(parse_config("ipv6:true\n"), Err(StoreError::ConfigMalformed));
}

#[test]
fn parse_rejects_empty_name() {
    assert_eq!(parse_config(": true\n"), Err(StoreError::ConfigMalformed));
}

#[test]
fn parse_rejects_unknown_value_word() {
    assert_eq!(parse_config("ipv6: maybe\n"), Err(StoreError::ConfigMalformed));
}

#[test]
fn parse_rejects_duplicate_name() {
    assert_eq!(parse_config("x: true\nx: false\n"), Err(StoreError::ConfigMalformed));
}

#[test]
fn render_writes_one_line_per_entry() {
    let entries = vec![("ipv6".to_string(), true), ("offload".to_string(), false)];
    assert_eq!(render_config(&entries), "ipv6: true\noffload: false\n");
}

#[test]
fn set_then_load_round_trips_the_value() {
    let mut res = writable_resource("");
    let (mut store, err) = ToggleStateStore::load(&res);
    assert_eq!(err, None);
    store.set(&mut res, "x", true).unwrap();
    let (reloaded, err) = ToggleStateStore::load(&res);
    assert_eq!(err, None);
    assert_eq!(reloaded.get("x"), Some(true));
}

#[test]
fn set_updates_an_existing_entry_in_place() {
    let mut res = writable_resource("a: true\nb: false\n");
    let (mut store, _) = ToggleStateStore::load(&res);
    store.set(&mut res, "a", false).unwrap();
    assert_eq!(store.get("a"), Some(false));
    assert_eq!(store.get("b"), Some(false));
    assert_eq!(res.content.as_deref(), Some("a: false\nb: false\n"));
}

#[test]
fn get_of_an_unseen_switch_is_none() {
    let (store, _) = ToggleStateStore::load(&writable_resource("a: true\n"));
    assert_eq!(store.get("zzz"), None);
}

#[test]
fn failed_write_reports_error_but_keeps_memory_state() {
    let mut res = BackingResource { content: Some("".to_string()), writable: false };
    let (mut store, _) = ToggleStateStore::load(&res);
    let r = store.set(&mut res, "x", true);
    assert_eq!(r, Err(StoreError::ConfigWriteFailed));
    assert_eq!(store.get("x"), Some(true));
    assert_eq!(res.content.as_deref(), Some(""));
}

#[test]
fn write_failure_message_names_the_failure() {
    assert!(StoreError::ConfigWriteFailed.message().contains("ConfigWriteFailed"));
}

#[test]
fn name_validity_rejects_what_the_format_cannot_hold() {
    assert!(is_valid_name("ipv6"));
    assert!(is_valid_name("tcp tuning v2"));
    assert!(!is_valid_name(""));
    assert!(!is_valid_name("a:b"));
    assert!(!is_valid_name("a\nb"));
}

#[test]
fn config_file_path_joins_the_base_directory_and_falls_back_locally() {
    assert_eq!(
        config_file_path(Some("/home/op/.local/share".to_string())),
        "/home/op/.local/share/W-Squid/switches.conf"
    );
    assert_eq!(config_file_path(None), "switches.conf");
}
