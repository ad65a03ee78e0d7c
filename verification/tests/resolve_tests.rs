use poi_agent::resolve::{
    get_network, get_start_block, parse_block_number, parse_u32_dec, parse_u32_hex,
    select_rpc_url, RegistryError,
};

#[test]
fn decimal_parsing_reads_exact_values() {
    assert_eq!(parse_u32_dec("0"), Some(0));
    assert_eq!(parse_u32_dec("123"), Some(123));
    assert_eq!(parse_u32_dec("007"), Some(7));
    assert_eq!(parse_u32_dec("4294967295"), Some(u32::MAX));
}

#[test]
fn decimal_parsing_rejects_bad_input() {
    assert_eq!(parse_u32_dec(""), None);
    assert_eq!(parse_u32_dec("12a"), None);
    assert_eq!(parse_u32_dec("-1"), None);
    assert_eq!(parse_u32_dec(" 1"), None);
    assert_eq!(parse_u32_dec("4294967296"), None);
    assert_eq!(parse_u32_dec("99999999999999999999"), None);
}

#[test]
fn hex_parsing_reads_exact_values() {
    assert_eq!(parse_u32_hex("10"), Some(16));
    assert_eq!(parse_u32_hex("ff"), Some(255));
    assert_eq!(parse_u32_hex("FF"), Some(255));
    assert_eq!(parse_u32_hex("DeadBeef"), Some(0xdead_beef));
    assert_eq!(parse_u32_hex("ffffffff"), Some(u32::MAX));
}

#[test]
fn hex_parsing_rejects_bad_input() {
    assert_eq!(parse_u32_hex(""), None);
    assert_eq!(parse_u32_hex("xyz"), None);
    assert_eq!(parse_u32_hex("100000000"), None);
}

#[test]
fn block_number_reads_both_notations() {
    assert_eq!(parse_block_number("0x1234"), Some(0x1234));
    assert_eq!(parse_block_number("1234"), Some(1234));
    assert_eq!(parse_block_number("0x0"), Some(0));
    assert_eq!(parse_block_number("0"), Some(0));
}

#[test]
fn block_number_rejects_bad_input() {
    assert_eq!(parse_block_number("0x"), None);
    assert_eq!(parse_block_number("0xzz"), None);
    assert_eq!(parse_block_number(""), None);
    assert_eq!(parse_block_number("latest"), None);
}

#[test]
fn start_block_is_the_least_named() {
    let manifest = "dataSources:\n  - source:\n      startBlock: 500\n  - source:\n      startBlock: 30\n  - source:\n      startBlock: 4000\n";
    assert_eq!(get_start_block(manifest), 30);
}

#[test]
fn start_block_defaults_to_zero() {
    assert_eq!(get_start_block("dataSources: []\n"), 0);
    assert_eq!(get_start_block(""), 0);
}

#[test]
fn start_block_tolerates_spacing() {
    assert_eq!(get_start_block("startBlock:12"), 12);
    assert_eq!(get_start_block("startBlock:   7"), 7);
}

#[test]
fn network_is_the_first_named() {
    let manifest = "dataSources:\n  - network: mainnet\n  - network: gnosis\n";
    assert_eq!(get_network(manifest), Some("mainnet".to_string()));
}

#[test]
fn missing_network_is_none() {
    assert_eq!(get_network("dataSources: []\n"), None);
}

#[test]
fn rpc_url_selection_takes_the_first() {
    let urls = vec!["http://one".to_string(), "http://two".to_string()];
    assert_eq!(select_rpc_url(true, Some(&urls)), Ok("http://one".to_string()));
}

#[test]
fn rpc_url_selection_reports_each_absence() {
    assert_eq!(select_rpc_url(false, None), Err(RegistryError::NetworkNotFound));
    assert_eq!(select_rpc_url(true, None), Err(RegistryError::NoRpcUrls));
    let empty: Vec<String> = Vec::new();
    assert_eq!(select_rpc_url(true, Some(&empty)), Err(RegistryError::EmptyRpcUrls));
}
