//! Tests of the storage adapter's key namespacing.

use curl_sponge::WasmAdapter;

#[test]
fn format_key_joins_components_and_key() {
    let components = vec![
        String::from("wallets"),
        String::from("user"),
        String::from("subfolder"),
    ];
    let adapter = WasmAdapter::from_components(&components);
    assert_eq!(adapter.format_key("record"), "wallets-user-subfolder-record");
}

#[test]
fn format_key_with_a_single_component() {
    let components = vec![String::from("wallets")];
    let adapter = WasmAdapter::from_components(&components);
    assert_eq!(adapter.format_key("k"), "wallets-k");
}

#[test]
fn format_key_with_no_components_keeps_the_separator() {
    let components: Vec<String> = Vec::new();
    let adapter = WasmAdapter::from_components(&components);
    assert_eq!(adapter.format_key("k"), "-k");
}
