use ssh_fleet::address::SocketAddress;
use ssh_fleet::commands::{
    add_group, add_server, file_report, get_task, record_result, server_execute_command,
};
use ssh_fleet::session::{Session, StepOutcome};
use ssh_fleet::config_data::Config;
use ssh_fleet::error::FailureKind;
use ssh_fleet::state::{ConfigStore, State};

fn text(s: &str) -> String {
    s.to_string()
}

fn loaded() -> State {
    let mut state = State::new();
    assert!(state.config.install(Config::default(), text("passphrase")));
    state
}

fn with_alpha() -> State {
    let mut state = loaded();
    add_server(
        text("alpha"),
        SocketAddress::V4 { octets: [10, 0, 0, 1], port: 22 },
        text("PRIVATE"),
        Some(text("PUBLIC")),
        text("root"),
        Some(text("keypass")),
        &mut state.config,
    );
    state
}

fn config_of(state: &State) -> &Config {
    match &state.config {
        ConfigStore::Loaded { config, .. } => config,
        ConfigStore::Unloaded => panic!("no configuration is installed"),
    }
}

#[test]
fn a_new_state_has_no_configuration_and_no_result() {
    let mut state = State::new();
    assert!(!state.config.is_loaded());
    assert_eq!(get_task(text("alpha"), &mut state.completed_tasks), "");
}

#[test]
fn only_the_first_installation_is_the_first() {
    let mut state = State::new();
    assert!(state.config.install(Config::default(), text("one")));
    assert!(state.config.is_loaded());
    assert!(!state.config.install(Config::default(), text("two")));
    match &state.config {
        ConfigStore::Loaded { passphrase, .. } => assert_eq!(passphrase, "two"),
        ConfigStore::Unloaded => panic!("no configuration is installed"),
    }
}

#[test]
fn an_installation_leaves_the_results_alone() {
    let mut state = State::new();
    record_result(text("alpha"), text("early"), &mut state.completed_tasks);
    state.config.install(Config::default(), text("one"));
    assert_eq!(get_task(text("alpha"), &mut state.completed_tasks), "early");
}

#[test]
fn a_command_without_a_configuration_is_refused() {
    let state = State::new();
    let failure = server_execute_command(text("ls"), None, text("alpha"), &state.config).unwrap_err();
    assert_eq!(failure.kind, FailureKind::ConfigNotLoaded);
    assert_eq!(failure.message, "No Config loaded");
}

#[test]
fn a_command_for_an_unknown_server_is_refused_and_files_nothing() {
    let mut state = loaded();
    let failure = server_execute_command(text("ls"), None, text("alpha"), &state.config).unwrap_err();
    assert_eq!(failure.kind, FailureKind::ServerNotFound);
    assert_eq!(failure.message, "Server does not exist");
    assert_eq!(get_task(text("alpha"), &mut state.completed_tasks), "");
}

#[test]
fn a_command_with_an_unknown_preset_is_refused() {
    let state = with_alpha();
    let failure =
        server_execute_command(text("ls"), Some(text("uptime")), text("alpha"), &state.config).unwrap_err();
    assert_eq!(failure.kind, FailureKind::PresetNotFound);
    assert_eq!(failure.message, "Preset command does not exist");
}

#[test]
fn an_unknown_server_is_reported_before_an_unknown_preset() {
    let state = loaded();
    let failure =
        server_execute_command(text("ls"), Some(text("uptime")), text("alpha"), &state.config).unwrap_err();
    assert_eq!(failure.kind, FailureKind::ServerNotFound);
}

#[test]
fn a_literal_command_is_dispatched_with_a_copy_of_the_server() {
    let state = with_alpha();
    let dispatch = server_execute_command(text("ls -l"), None, text("alpha"), &state.config).unwrap();
    assert_eq!(dispatch.server_name, "alpha");
    assert_eq!(dispatch.command, "ls -l");
    assert_eq!(dispatch.server_data.user, "root");
    assert_eq!(dispatch.server_data.ip, SocketAddress::V4 { octets: [10, 0, 0, 1], port: 22 });
    assert_eq!(dispatch.server_data.private, "PRIVATE");
    assert_eq!(dispatch.server_data.public, Some(text("PUBLIC")));
    assert_eq!(dispatch.server_data.passphrase, Some(text("keypass")));
    assert_eq!(&dispatch.server_data, config_of(&state).servers.get(&text("alpha")).unwrap());
}

#[test]
fn a_preset_runs_its_own_text() {
    let mut state = with_alpha();
    match &mut state.config {
        ConfigStore::Loaded { config, .. } => {
            config.pre_commands.insert(text("uptime"), text("uptime -p"))
        }
        ConfigStore::Unloaded => panic!("no configuration is installed"),
    }
    let dispatch =
        server_execute_command(text("ignored"), Some(text("uptime")), text("alpha"), &state.config).unwrap();
    assert_eq!(dispatch.command, "uptime -p");
    assert_eq!(dispatch.server_name, "alpha");
}

#[test]
fn a_server_of_the_same_name_is_replaced() {
    let mut state = with_alpha();
    add_server(
        text("alpha"),
        SocketAddress::V4 { octets: [10, 0, 0, 2], port: 2222 },
        text("OTHER"),
        None,
        text("admin"),
        None,
        &mut state.config,
    );
    let config = config_of(&state);
    assert_eq!(config.servers.len(), 1);
    let alpha = config.servers.get(&text("alpha")).unwrap();
    assert_eq!(alpha.user, "admin");
    assert_eq!(alpha.ip, SocketAddress::V4 { octets: [10, 0, 0, 2], port: 2222 });
    assert_eq!(alpha.public, None);
}

#[test]
fn a_group_starts_without_members() {
    let mut state = loaded();
    add_group(text("web"), &mut state.config);
    let config = config_of(&state);
    assert_eq!(config.groups.len(), 2);
    assert!(config.groups.get(&text("All")).unwrap().is_empty());
    assert!(config.groups.get(&text("web")).unwrap().is_empty());
}

#[test]
fn a_group_of_the_same_name_is_emptied() {
    let mut state = loaded();
    match &mut state.config {
        ConfigStore::Loaded { config, .. } => {
            config.groups.insert(text("web"), vec![text("alpha"), text("beta")])
        }
        ConfigStore::Unloaded => panic!("no configuration is installed"),
    }
    add_group(text("web"), &mut state.config);
    assert!(config_of(&state).groups.get(&text("web")).unwrap().is_empty());
}

#[test]
fn registering_without_a_configuration_changes_nothing() {
    let mut state = State::new();
    add_group(text("web"), &mut state.config);
    add_server(
        text("alpha"),
        SocketAddress::V4 { octets: [10, 0, 0, 1], port: 22 },
        text("PRIVATE"),
        None,
        text("root"),
        None,
        &mut state.config,
    );
    assert!(!state.config.is_loaded());
}

#[test]
fn a_poll_drains_the_results_of_its_server() {
    let mut state = with_alpha();
    record_result(text("alpha"), text("first"), &mut state.completed_tasks);
    record_result(text("beta"), text("other"), &mut state.completed_tasks);
    record_result(text("alpha"), text("second"), &mut state.completed_tasks);
    assert_eq!(get_task(text("alpha"), &mut state.completed_tasks), "first\nsecond");
    assert_eq!(get_task(text("alpha"), &mut state.completed_tasks), "");
    assert_eq!(get_task(text("beta"), &mut state.completed_tasks), "other");
    assert_eq!(config_of(&state).servers.len(), 1);
}

#[test]
fn a_run_that_is_over_files_one_result() {
    let mut state = State::new();
    let mut session = Session::start();
    for step in 0..7 {
        let outcome = if step == 5 {
            StepOutcome::Output(text("up 3 days"))
        } else {
            StepOutcome::Done
        };
        session = session.advance(outcome);
    }
    assert!(file_report(text("alpha"), session, &mut state.completed_tasks));
    assert_eq!(get_task(text("alpha"), &mut state.completed_tasks), "up 3 days");
}

#[test]
fn a_run_that_failed_files_the_reason_as_its_result() {
    let mut state = State::new();
    record_result(text("alpha"), text("earlier"), &mut state.completed_tasks);
    let session = Session::start().advance(StepOutcome::Failed(text("connection refused")));
    assert!(file_report(text("alpha"), session, &mut state.completed_tasks));
    assert_eq!(get_task(text("alpha"), &mut state.completed_tasks), "earlier\nconnection refused");
}

#[test]
fn a_run_that_is_not_over_files_nothing() {
    let mut state = State::new();
    let session = Session::start().advance(StepOutcome::Done);
    assert!(!file_report(text("alpha"), session, &mut state.completed_tasks));
    assert_eq!(get_task(text("alpha"), &mut state.completed_tasks), "");
}
