use tx_gen::keys::SecretKey;
use tx_gen::net::{
    arg_u64, arg_value, assert_network_matches, check_network, Net, NetworkMismatch, Settings,
};
use tx_gen::tx::{Address, AddressPrefix};

fn args(list: &[&str]) -> Vec<String> {
    list.iter().map(|arg| arg.to_string()).collect()
}

fn address(prefix: AddressPrefix) -> Address {
    let text = "00000000000000000000000000000000000000000000000000000000000000a7";
    SecretKey::from_hex(text).ok().unwrap().address(prefix)
}

fn message(network_id: &str, net: Net, prefix: AddressPrefix) -> Option<String> {
    match assert_network_matches(network_id, net, &address(prefix)) {
        Ok(()) => None,
        Err(mismatch) => Some(mismatch.message()),
    }
}

#[test]
fn mainnet_where_nothing_is_selected() {
    assert_eq!(Net::from_args(&args(&[])), Net::Mainnet);
    assert_eq!(Net::from_args(&args(&["tn10", "devnet"])), Net::Mainnet);
    assert_eq!(Net::from_args(&args(&["--net"])), Net::Mainnet);
    assert_eq!(Net::from_args(&args(&["--net", "mainnet"])), Net::Mainnet);
}

#[test]
fn networks_are_selected_by_name() {
    assert_eq!(Net::from_args(&args(&["--net", "tn10"])), Net::Testnet10);
    assert_eq!(Net::from_args(&args(&["--net", "testnet10"])), Net::Testnet10);
    assert_eq!(Net::from_args(&args(&["--net", "devnet"])), Net::Devnet);
    assert_eq!(Net::from_args(&args(&["--net=tn10"])), Net::Testnet10);
    assert_eq!(Net::from_args(&args(&["--net=testnet10"])), Net::Testnet10);
    assert_eq!(Net::from_args(&args(&["--net=devnet"])), Net::Devnet);
}

#[test]
fn names_are_of_any_case() {
    assert_eq!(Net::from_args(&args(&["--net", "TN10"])), Net::Testnet10);
    assert_eq!(Net::from_args(&args(&["--net=DevNet"])), Net::Devnet);
    assert_eq!(Net::from_args(&args(&["--NET=devnet"])), Net::Mainnet);
}

#[test]
fn last_known_name_wins() {
    assert_eq!(Net::from_args(&args(&["--net", "tn10", "--net=devnet"])), Net::Devnet);
    assert_eq!(Net::from_args(&args(&["--net=tn10", "--net", "moon"])), Net::Testnet10);
    assert_eq!(Net::from_args(&args(&["--net", "devnet", "--net", "mainnet"])), Net::Devnet);
}

#[test]
fn name_behind_the_flag_is_no_flag() {
    assert_eq!(Net::from_args(&args(&["--net", "--net=tn10", "--net", "devnet"])), Net::Devnet);
    assert_eq!(Net::from_args(&args(&["--net", "--net", "devnet"])), Net::Mainnet);
}

#[test]
fn flags_have_values() {
    let list = args(&["--a", "1", "--b=2", "--b", "3", "--c"]);
    assert_eq!(arg_value(&list, "--a"), Some("1".to_string()));
    assert_eq!(arg_value(&list, "--b"), Some("2".to_string()));
    assert_eq!(arg_value(&list, "--c"), None);
    assert_eq!(arg_value(&list, "--d"), None);
    assert_eq!(arg_value(&args(&["--d="]), "--d"), Some(String::new()));
    assert_eq!(arg_value(&args(&["--dd=4", "--d", "5"]), "--d"), Some("5".to_string()));
}

#[test]
fn both_forms_of_a_flag_agree() {
    let apart = args(&["x", "--rpc-url", "grpc://host:1", "y"]);
    let joined = args(&["x", "--rpc-url=grpc://host:1", "y"]);
    assert_eq!(arg_value(&apart, "--rpc-url"), Some("grpc://host:1".to_string()));
    assert_eq!(arg_value(&apart, "--rpc-url"), arg_value(&joined, "--rpc-url"));
}

#[test]
fn value_that_is_no_number_counts_as_absent() {
    assert_eq!(arg_u64(&args(&["--n", "2000"]), "--n"), Some(2000));
    assert_eq!(arg_u64(&args(&["--n=0"]), "--n"), Some(0));
    assert_eq!(arg_u64(&args(&["--n", "many"]), "--n"), None);
    assert_eq!(arg_u64(&args(&["--n", "many", "--n", "3"]), "--n"), None);
    assert_eq!(arg_u64(&args(&[]), "--n"), None);
}

#[test]
fn settings_without_arguments() {
    let settings = Settings::from_args(&args(&[]));
    assert_eq!(settings.net, Net::Mainnet);
    assert_eq!(settings.rpc_url, "grpc://n-mainnet.kaspa.ws:16110");
    assert_eq!(settings.coinbase_maturity, 100);
}

#[test]
fn settings_of_the_other_networks() {
    let testnet = Settings::from_args(&args(&["--net", "tn10"]));
    assert_eq!(testnet.rpc_url, "grpc://n-testnet-10.kaspa.ws:16210");
    assert_eq!(testnet.coinbase_maturity, 100);
    let devnet = Settings::from_args(&args(&["--net", "devnet"]));
    assert_eq!(devnet.rpc_url, "grpc://127.0.0.1:16610");
    assert_eq!(devnet.coinbase_maturity, 100);
}

#[test]
fn settings_are_overridden() {
    let list = args(&[
        "--net",
        "devnet",
        "--coinbase-maturity",
        "2000",
        "--rpc-url=grpc://10.0.0.2:16610",
    ]);
    let settings = Settings::from_args(&list);
    assert_eq!(settings.net, Net::Devnet);
    assert_eq!(settings.rpc_url, "grpc://10.0.0.2:16610");
    assert_eq!(settings.coinbase_maturity, 2000);
}

#[test]
fn own_address_and_own_node_match() {
    assert_eq!(message("mainnet", Net::Mainnet, Net::Mainnet.prefix()), None);
    assert_eq!(message("testnet-10", Net::Testnet10, Net::Testnet10.prefix()), None);
    assert_eq!(message("devnet", Net::Devnet, Net::Devnet.prefix()), None);
    assert_eq!(message("KASPA-MAINNET", Net::Mainnet, AddressPrefix::Mainnet), None);
}

#[test]
fn prefixes_of_the_networks() {
    assert_eq!(Net::Mainnet.prefix(), AddressPrefix::Mainnet);
    assert_eq!(Net::Testnet10.prefix(), AddressPrefix::Testnet);
    assert_eq!(Net::Devnet.prefix(), AddressPrefix::Devnet);
}

#[test]
fn address_of_another_network_is_refused() {
    let expected = Some("Address prefix does not match selected network".to_string());
    assert_eq!(message("mainnet", Net::Mainnet, AddressPrefix::Testnet), expected);
    assert_eq!(message("testnet-10", Net::Testnet10, AddressPrefix::Simnet), expected);
    assert_eq!(message("devnet", Net::Devnet, AddressPrefix::Mainnet), expected);
    assert_eq!(message("mainnet", Net::Devnet, AddressPrefix::Mainnet), expected);
}

#[test]
fn node_of_another_network_is_refused() {
    assert_eq!(
        message("Testnet-11", Net::Testnet10, AddressPrefix::Testnet),
        Some("Connected node \"testnet-11\" does not look like testnet-10".to_string())
    );
    assert_eq!(
        message("devnet", Net::Mainnet, AddressPrefix::Mainnet),
        Some("Connected node \"devnet\" does not look like mainnet".to_string())
    );
    assert_eq!(
        message("ÄMAIN", Net::Mainnet, AddressPrefix::Mainnet),
        Some("Connected node \"ämain\" does not look like mainnet".to_string())
    );
}

#[test]
fn check_takes_the_id_in_lower_case() {
    let mainnet = address(AddressPrefix::Mainnet);
    assert!(check_network("mainnet".to_string(), Net::Mainnet, &mainnet).is_ok());
    assert!(matches!(
        check_network("Mainnet".to_string(), Net::Mainnet, &mainnet),
        Err(NetworkMismatch::Node { network_id, net: Net::Mainnet }) if network_id == "Mainnet"
    ));
    assert!(matches!(
        check_network("mainnet".to_string(), Net::Devnet, &mainnet),
        Err(NetworkMismatch::Address)
    ));
}

#[test]
fn hints_tell_networks_apart() {
    let nets = [Net::Mainnet, Net::Testnet10, Net::Devnet];
    for selected in nets {
        for actual in nets {
            let verdict = message(actual.expected_hint(), selected, selected.prefix());
            assert_eq!(verdict.is_none(), selected == actual);
        }
    }
}
