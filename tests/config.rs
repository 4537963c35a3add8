use testnet::config::hosts_file;
use testnet::config::inner_ifname;
use testnet::config::normalize_nodes;
use testnet::config::outer_ifname;
use testnet::config::ConfigError;
use testnet::config::IfAddr;
use testnet::config::NodeConfig;

fn named(name: &str) -> NodeConfig {
    NodeConfig { name: name.to_string(), ifaddr: IfAddr::unspecified() }
}

#[test]
fn interface_names() {
    assert_eq!(outer_ifname(0), "n0");
    assert_eq!(outer_ifname(12), "n12");
    assert_eq!(inner_ifname(3), "veth3");
}

#[test]
fn default_nodes_get_names_and_addresses() {
    let nodes = normalize_nodes(&vec![NodeConfig::default(); 2]).unwrap();
    assert_eq!(nodes[0].name, "n0");
    assert_eq!(nodes[1].name, "n1");
    assert_eq!(nodes[0].ifaddr.to_text(), "10.84.0.1/16");
    assert_eq!(nodes[1].ifaddr.to_text(), "10.84.0.2/16");
}

#[test]
fn named_nodes_keep_names() {
    let nodes = normalize_nodes(&vec![named("node1"), named("node2")]).unwrap();
    assert_eq!(nodes[0].name, "node1");
    assert_eq!(nodes[1].name, "node2");
    assert_eq!(nodes[0].ifaddr.addr_text(), "10.84.0.1");
    assert_eq!(nodes[1].ifaddr.addr_text(), "10.84.0.2");
}

#[test]
fn given_addresses_are_kept() {
    let mut node = named("a");
    node.ifaddr = IfAddr::new(0xc0a8_0105, 24).unwrap();
    let nodes = normalize_nodes(&vec![NodeConfig::default(), node]).unwrap();
    assert_eq!(nodes[1].ifaddr.to_text(), "192.168.1.5/24");
    assert_eq!(nodes[0].ifaddr.addr(), 0x0a54_0001);
    assert_eq!(nodes[0].ifaddr.prefix_len(), 16);
}

#[test]
fn last_default_address() {
    let nodes = normalize_nodes(&vec![NodeConfig::default(); 65534]).unwrap();
    assert_eq!(nodes[65533].ifaddr.to_text(), "10.84.255.254/16");
    assert_eq!(nodes[65533].name, "n65533");
}

#[test]
fn default_addresses_run_out() {
    assert_eq!(
        normalize_nodes(&vec![NodeConfig::default(); 65535]),
        Err(ConfigError::AddressesExhausted)
    );
}

#[test]
fn prefix_length_over_32_is_refused() {
    assert_eq!(IfAddr::new(1, 33), Err(ConfigError::PrefixLen));
    assert!(IfAddr::new(1, 32).is_ok());
    assert!(IfAddr::unspecified().is_unspecified());
}

#[test]
fn hosts_file_lists_every_node() {
    let nodes = normalize_nodes(&vec![named("node1"), NodeConfig::default()]).unwrap();
    assert_eq!(hosts_file(&nodes), "10.84.0.1 node1\n10.84.0.2 n1\n");
    assert_eq!(hosts_file(&vec![]), "");
}

#[test]
fn node_config_from_names() {
    let a: NodeConfig = "node1".into();
    assert_eq!(a.name, "node1");
    assert!(a.ifaddr.is_unspecified());
    assert_eq!(a.ifaddr.prefix_len(), 0);
    let b: NodeConfig = String::from("node2").into();
    assert_eq!(b.name, "node2");
    assert!(b.ifaddr.is_unspecified());
    assert_eq!(NodeConfig::named("x"), NodeConfig::from("x"));
}
