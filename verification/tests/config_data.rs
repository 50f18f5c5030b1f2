use ssh_fleet::address::SocketAddress;
use ssh_fleet::config_data::{Config, Server};

fn text(s: &str) -> String {
    s.to_string()
}

#[test]
fn default_config_has_the_group_all_without_members() {
    let config = Config::default();
    assert_eq!(config.servers.len(), 0);
    assert_eq!(config.pre_commands.len(), 0);
    assert_eq!(config.groups.len(), 1);
    let members = config.groups.get(&text("All")).unwrap();
    assert!(members.is_empty());
    assert_eq!(config.groups.entry(0), Some((&text("All"), &Vec::<String>::new())));
}

#[test]
fn a_new_server_holds_what_it_was_given() {
    let ip = SocketAddress::V6 {
        octets: [0x20, 0x01, 0x0d, 0xb8, 0, 0, 0, 0, 0, 0, 0, 0, 0, 0, 0, 0x10],
        port: 2222,
        flowinfo: 5,
        scope_id: 2,
    };
    let server = Server::new(ip, text("PRIVATE"), Some(text("PUBLIC")), text("root"), None);
    assert_eq!(server.user, "root");
    assert_eq!(server.ip, ip);
    assert_eq!(server.private, "PRIVATE");
    assert_eq!(server.public, Some(text("PUBLIC")));
    assert_eq!(server.passphrase, None);
}

#[test]
fn a_copy_of_a_server_holds_the_same() {
    let server = Server::new(
        SocketAddress::V4 { octets: [172, 16, 0, 9], port: 22 },
        text("PRIVATE"),
        None,
        text("deploy"),
        Some(text("keypass")),
    );
    let copy = server.clone();
    assert_eq!(copy, server);
    assert_eq!(copy.passphrase, Some(text("keypass")));
    assert_eq!(copy.public, None);
}

#[test]
fn names_of_servers_are_told_apart_by_case() {
    let mut config = Config::default();
    let server = Server::new(
        SocketAddress::V4 { octets: [172, 16, 0, 9], port: 22 },
        text("PRIVATE"),
        None,
        text("deploy"),
        None,
    );
    config.servers.insert(text("Alpha"), server.clone());
    config.servers.insert(text("alpha"), server);
    assert_eq!(config.servers.len(), 2);
    assert!(config.servers.contains_key(&text("Alpha")));
    assert!(!config.servers.contains_key(&text("ALPHA")));
}

#[test]
fn a_group_may_name_servers_that_are_not_registered() {
    let mut config = Config::default();
    config.groups.insert(text("web"), vec![text("nowhere")]);
    assert_eq!(config.groups.get(&text("web")).unwrap(), &vec![text("nowhere")]);
    assert_eq!(config.servers.len(), 0);
}

#[test]
fn a_registered_server_is_looked_up_as_a_copy() {
    let mut config = Config::default();
    let server = Server::new(
        SocketAddress::V4 { octets: [172, 16, 0, 9], port: 22 },
        text("PRIVATE"),
        None,
        text("deploy"),
        None,
    );
    config.add_server(text("alpha"), server.clone());
    assert_eq!(config.server(&text("alpha")), Some(server));
    assert_eq!(config.server(&text("beta")), None);
    assert_eq!(config.servers.len(), 1);
}

#[test]
fn the_last_server_registered_under_a_name_counts() {
    let mut config = Config::default();
    let first = Server::new(
        SocketAddress::V4 { octets: [172, 16, 0, 9], port: 22 },
        text("PRIVATE"),
        None,
        text("deploy"),
        None,
    );
    let second = Server::new(
        SocketAddress::V4 { octets: [172, 16, 0, 10], port: 2200 },
        text("OTHER"),
        Some(text("PUBLIC")),
        text("admin"),
        None,
    );
    config.add_server(text("alpha"), first);
    config.add_server(text("alpha"), second.clone());
    assert_eq!(config.servers.len(), 1);
    assert_eq!(config.server(&text("alpha")), Some(second));
}

#[test]
fn a_registered_group_has_no_members() {
    let mut config = Config::default();
    config.groups.insert(text("web"), vec![text("alpha")]);
    config.add_group(text("web"));
    config.add_group(text("db"));
    assert_eq!(config.groups.len(), 3);
    assert!(config.groups.get(&text("web")).unwrap().is_empty());
    assert!(config.groups.get(&text("db")).unwrap().is_empty());
    assert_eq!(config.servers.len(), 0);
}

#[test]
fn a_preset_is_resolved_to_its_text() {
    let mut config = Config::default();
    config.pre_commands.insert(text("uptime"), text("uptime -p"));
    assert_eq!(config.preset(&text("uptime")), Some(text("uptime -p")));
    assert_eq!(config.preset(&text("Uptime")), None);
}
