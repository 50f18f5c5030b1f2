//! The state that the commands share.

use crate::config_data::{Config, ConfigModel};
use crate::ledger::Ledger;
use vstd::prelude::*;

verus! {

/// What a `ConfigStore` holds, as mathematical values.
pub enum StoreView {
    Unloaded,
    Loaded { config: ConfigModel, passphrase: Seq<char> },
}

/// The configuration of this process: none yet, or the one that was created
/// or loaded, with the passphrase under which it is kept on disk.
#[derive(Debug)]
pub enum ConfigStore {
    Unloaded,
    Loaded { config: Config, passphrase: String },
}

impl View for ConfigStore {
    type V = StoreView;

    open spec fn view(&self) -> StoreView {
        match self {
            ConfigStore::Unloaded => StoreView::Unloaded,
            ConfigStore::Loaded { config, passphrase } => StoreView::Loaded {
                config: config.deep_view(),
                passphrase: passphrase@,
            },
        }
    }
}

impl ConfigStore {
    /// Whether a configuration is installed.
    pub fn is_loaded(&self) -> (loaded: bool)
        ensures
            loaded == (self@ is Loaded),
    {
        match self {
            ConfigStore::Unloaded => false,
            ConfigStore::Loaded { .. } => true,
        }
    }

    /// Installs a configuration and the passphrase that it is kept under, in
    /// place of what was installed. The answer says whether this is the
    /// first configuration of the process, which is when the periodic saving
    /// has to be started.
    pub fn install(&mut self, config: Config, passphrase: String) -> (first: bool)
        ensures
            first == (old(self)@ is Unloaded),
            final(self)@ == (StoreView::Loaded {
                config: config.deep_view(),
                passphrase: passphrase@,
            }),
    {
        let first = !self.is_loaded();
        *self = ConfigStore::Loaded { config, passphrase };
        first
    }
}

/// What a `State` holds, as mathematical values.
pub struct StateView {
    pub config: StoreView,
    pub completed_tasks: Map<Seq<char>, Seq<Seq<char>>>,
}

/// All that the commands share: the configuration, and the results of
/// finished commands that wait to be fetched. The two are apart, so that
/// each can be kept under a lock of its own: a command works on the one
/// that it needs and cannot touch the other.
#[derive(Debug)]
pub struct State {
    pub config: ConfigStore,
    pub completed_tasks: Ledger,
}

impl View for State {
    type V = StateView;

    open spec fn view(&self) -> StateView {
        StateView { config: self.config@, completed_tasks: self.completed_tasks@ }
    }
}

impl State {
    /// The state of a process that has just started: no configuration, no
    /// result.
    pub fn new() -> (state: Self)
        ensures
            state@ == (StateView { config: StoreView::Unloaded, completed_tasks: Map::empty() }),
    {
        State { config: ConfigStore::Unloaded, completed_tasks: Ledger::new() }
    }
}

} // verus!
