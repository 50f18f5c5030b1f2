//! What each command does to the shared state.

use crate::address::SocketAddress;
use crate::config_data::{ConfigModel, Server, ServerView};
use crate::error::{Failure, FailureKind};
use crate::ledger::{appended, drained, drained_text};
use crate::name_map::{entries_insert, entries_map};
use crate::session::Session;
use crate::ledger::Ledger;
use crate::state::{ConfigStore, StoreView};
use vstd::prelude::*;

verus! {

/// What a `Dispatch` holds, as mathematical values.
pub struct DispatchView {
    pub server_name: Seq<char>,
    pub server_data: ServerView,
    pub command: Seq<char>,
}

/// One command that is to run on one server: the name under which the
/// result is to be filed, a copy of the server's record, and the text of
/// the command.
#[derive(Debug)]
pub struct Dispatch {
    pub server_name: String,
    pub server_data: Server,
    pub command: String,
}

impl View for Dispatch {
    type V = DispatchView;

    open spec fn view(&self) -> DispatchView {
        DispatchView {
            server_name: self.server_name@,
            server_data: self.server_data@,
            command: self.command@,
        }
    }
}

impl StoreView {
    /// The store after a server is registered: with no configuration
    /// installed, the same store.
    pub open spec fn with_server(self, name: Seq<char>, server: ServerView) -> StoreView {
        match self {
            StoreView::Unloaded => self,
            StoreView::Loaded { config, passphrase } => StoreView::Loaded {
                config: ConfigModel {
                    servers: entries_insert(config.servers, name, server),
                    ..config
                },
                passphrase,
            },
        }
    }

    /// The store after a group is registered, which has no members then:
    /// with no configuration installed, the same store.
    pub open spec fn with_group(self, name: Seq<char>) -> StoreView {
        match self {
            StoreView::Unloaded => self,
            StoreView::Loaded { config, passphrase } => StoreView::Loaded {
                config: ConfigModel {
                    groups: entries_insert(config.groups, name, Seq::empty()),
                    ..config
                },
                passphrase,
            },
        }
    }

    /// What a request to run a command comes to: the dispatch, or the kind
    /// of failure and its message. A request that names a preset runs the
    /// text of the preset and takes no account of the command it carries.
    pub open spec fn dispatch(
        self,
        command: Seq<char>,
        pre_cmd: Option<Seq<char>>,
        server: Seq<char>,
    ) -> Result<DispatchView, (FailureKind, Seq<char>)> {
        match self {
            StoreView::Unloaded => Err((FailureKind::ConfigNotLoaded, "No Config loaded"@)),
            StoreView::Loaded { config, .. } => {
                let servers = entries_map(config.servers);
                let presets = entries_map(config.pre_commands);
                if !servers.contains_key(server) {
                    Err((FailureKind::ServerNotFound, "Server does not exist"@))
                } else {
                    match pre_cmd {
                        Some(preset) => if presets.contains_key(preset) {
                            Ok(
                                DispatchView {
                                    server_name: server,
                                    server_data: servers[server],
                                    command: presets[preset],
                                },
                            )
                        } else {
                            Err((FailureKind::PresetNotFound, "Preset command does not exist"@))
                        },
                        None => Ok(
                            DispatchView {
                                server_name: server,
                                server_data: servers[server],
                                command,
                            },
                        ),
                    }
                }
            },
        }
    }
}

/// Hands out all results that wait for a server as one text, a line feed
/// between each two, and leaves none of them behind.
pub fn get_task(server_name: String, completed_tasks: &mut Ledger) -> (text: String)
    ensures
        text@ == drained_text(old(completed_tasks)@, server_name@),
        final(completed_tasks)@ == drained(old(completed_tasks)@, server_name@),
{
    completed_tasks.drain(&server_name)
}

/// Registers a group under a name, without members, in place of a group of
/// that name. With no configuration installed nothing changes.
pub fn add_group(name: String, config: &mut ConfigStore)
    ensures
        final(config)@ == old(config)@.with_group(name@),
{
    match config {
        ConfigStore::Loaded { config: installed, .. } => {
            installed.add_group(name);
        },
        ConfigStore::Unloaded => {},
    }
}

/// Registers a server under a name, in place of a server of that name. With
/// no configuration installed nothing changes.
pub fn add_server(
    name: String,
    ip: SocketAddress,
    private: String,
    public: Option<String>,
    user: String,
    pass: Option<String>,
    config: &mut ConfigStore,
)
    ensures
        final(config)@ == old(config)@.with_server(
            name@,
            ServerView {
                user: user@,
                ip,
                private: private@,
                public: public.deep_view(),
                passphrase: pass.deep_view(),
            },
        ),
{
    let server = Server::new(ip, private, public, user, pass);
    match config {
        ConfigStore::Loaded { config: installed, .. } => {
            installed.add_server(name, server);
        },
        ConfigStore::Unloaded => {},
    }
}

/// Decides on a request to run a command on a server, and changes nothing:
/// it reads the configuration and has no hold of the results. The failures
/// come in this order: no configuration is installed; the server is not
/// registered; the request names a preset that is not registered.
pub fn server_execute_command(
    command: String,
    pre_cmd: Option<String>,
    server: String,
    config: &ConfigStore,
) -> (decision: Result<Dispatch, Failure>)
    ensures
        match config@.dispatch(command@, pre_cmd.deep_view(), server@) {
            Ok(dispatch) => decision matches Ok(made) && made@ == dispatch,
            Err((kind, message)) => decision matches Err(e) && e.carries(kind, message),
        },
{
    match config {
        ConfigStore::Unloaded => Err(
            Failure::new(FailureKind::ConfigNotLoaded, "No Config loaded".to_string()),
        ),
        ConfigStore::Loaded { config: installed, .. } => {
            let server_data = match installed.server(&server) {
                Some(data) => data,
                None => {
                    return Err(
                        Failure::new(
                            FailureKind::ServerNotFound,
                            "Server does not exist".to_string(),
                        ),
                    );
                },
            };
            match pre_cmd {
                Some(preset) => match installed.preset(&preset) {
                    Some(text) => Ok(Dispatch { server_name: server, server_data, command: text }),
                    None => Err(
                        Failure::new(
                            FailureKind::PresetNotFound,
                            "Preset command does not exist".to_string(),
                        ),
                    ),
                },
                None => Ok(Dispatch { server_name: server, server_data, command }),
            }
        },
    }
}

/// Files the result of a finished command under the name of its server,
/// behind the results that wait there.
pub fn record_result(server_name: String, text: String, completed_tasks: &mut Ledger)
    ensures
        final(completed_tasks)@ == appended(old(completed_tasks)@, server_name@, text@),
{
    completed_tasks.append(server_name, text);
}

/// Files what a run reports under the name of its server: one result for a
/// run that is over, whether it ended with the output or with a failure,
/// and nothing for a run that is not over. The answer says whether the run
/// was over.
pub fn file_report(server_name: String, session: Session, completed_tasks: &mut Ledger) -> (filed:
    bool)
    ensures
        match session@.report() {
            Some(text) => filed && final(completed_tasks)@ == appended(
                old(completed_tasks)@,
                server_name@,
                text,
            ),
            None => !filed && final(completed_tasks)@ == old(completed_tasks)@,
        },
{
    match session.into_report() {
        Some(text) => {
            record_result(server_name, text, completed_tasks);
            true
        },
        None => false,
    }
}

} // verus!
