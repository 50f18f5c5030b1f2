//! Creating, loading and periodically saving the configuration.

use crate::config_data::{Config, ConfigModel, Server};
use crate::error::{Failure, FailureKind};
use crate::state::{ConfigStore, StoreView};
use crate::vault::{open_container, opened, seal_container, within_cipher};
use crate::name_map::NameMap;
use crate::wire::{all_kept, lemma_kept_item, wire_items, Wire};
use vstd::bytes::lemma_auto_spec_u64_to_from_le_bytes;
use vstd::prelude::*;
use vstd::utf8::{encode_utf8, is_ascii_chars, is_ascii_chars_encode_utf8};

verus! {

/// Where the one file of the configuration lies.
pub const CONFIG_LOCATION: &'static str = "./config.crypt";

/// The seconds between two rounds of periodic saving.
pub const AUTOSAVE_PERIOD_SECS: u64 = 5;

/// The configuration that the bytes start with, or `None`. Bytes that follow
/// the configuration are of no account.
pub open spec fn decoded(data: Seq<u8>) -> Option<ConfigModel> {
    match <Config as Wire>::parse(data) {
        Some((model, _)) => Some(model),
        None => None,
    }
}

/// What loading a container with a passphrase gives: the configuration, or
/// the kind of failure.
pub open spec fn loaded(passphrase: Seq<char>, container: Seq<u8>) -> Result<
    ConfigModel,
    FailureKind,
> {
    match opened(passphrase, container) {
        None => Err(FailureKind::DecryptionFailure),
        Some(data) => match decoded(data) {
            Some(model) => Ok(model),
            None => Err(FailureKind::SerializationFailure),
        },
    }
}

/// The container holds the bytes of the configuration under the passphrase.
/// Where every address of a server is storable, it is then loaded with the
/// passphrase as the configuration.
pub open spec fn saved(config: ConfigModel, passphrase: Seq<char>, container: Seq<u8>) -> bool {
    &&& opened(passphrase, container) == Some(<Config as Wire>::wire(config))
    &&& config.storable() ==> loaded(passphrase, container) == Ok::<ConfigModel, FailureKind>(
        config,
    )
}

/// The bytes of a configuration keep all of it exactly when every address
/// of a server is storable.
pub proof fn lemma_kept_is_storable(model: ConfigModel)
    ensures
        <Config as Wire>::kept(model) == model.storable(),
{
    assert(all_kept::<(String, Vec<String>)>(model.groups)) by {
        assert forall|i: int| 0 <= i < model.groups.len() implies <(
            String,
            Vec<String>,
        ) as Wire>::kept(#[trigger] model.groups[i]) by {
            assert(all_kept::<String>(model.groups[i].1));
        }
    }
    assert(all_kept::<(String, String)>(model.pre_commands));
    if model.storable() {
        assert forall|i: int| 0 <= i < model.servers.len() implies <(String, Server) as Wire>::kept(
            #[trigger] model.servers[i],
        ) by {
            assert(model.servers[i].1.ip.storable());
        }
    }
    if <Config as Wire>::kept(model) {
        assert forall|i: int| 0 <= i < model.servers.len() implies (
        #[trigger] model.servers[i]).1.ip.storable() by {
            lemma_kept_item::<(String, Server)>(model.servers, i);
        }
    }
}

/// A configuration whose addresses are storable is read back from its bytes
/// as itself: with the same servers, groups and presets, in the same order.
pub proof fn lemma_configuration_reads_back(model: ConfigModel)
    requires
        <Config as Wire>::stable(model),
    ensures
        decoded(<Config as Wire>::wire(model)) == Some(model),
{
    <Config as Wire>::lemma_reads_back(model, Seq::empty());
    assert(<Config as Wire>::wire(model) + Seq::<u8>::empty() =~= <Config as Wire>::wire(model));
}

/// A container that holds the bytes of a configuration under a passphrase is
/// loaded with that passphrase as that very configuration, where the
/// configuration is one that its bytes give back: the servers, the groups
/// and the presets are the same, and so are the mappings they stand for.
pub proof fn lemma_saved_configuration_is_loaded(
    passphrase: Seq<char>,
    container: Seq<u8>,
    model: ConfigModel,
)
    requires
        <Config as Wire>::stable(model),
        opened(passphrase, container) == Some(<Config as Wire>::wire(model)),
    ensures
        loaded(passphrase, container) == Ok::<ConfigModel, FailureKind>(model),
        loaded(passphrase, container)->Ok_0.mapping() == model.mapping(),
{
    lemma_configuration_reads_back(model);
}

/// The bytes of a configuration. Where every address of a server is
/// storable, they are read back as the same configuration.
pub fn encode_config(config: &Config) -> (data: Vec<u8>)
    ensures
        data@ == <Config as Wire>::wire(config.deep_view()),
        config.deep_view().storable() ==> decoded(data@) == Some(config.deep_view()),
{
    let mut data: Vec<u8> = Vec::new();
    config.encode(&mut data);
    proof {
        assert(Seq::<u8>::empty() + <Config as Wire>::wire(config.deep_view())
            =~= <Config as Wire>::wire(config.deep_view()));
        lemma_kept_is_storable(config.deep_view());
        if config.deep_view().storable() {
            lemma_configuration_reads_back(config.deep_view());
        }
    }
    data
}

/// The configuration that the bytes start with.
pub fn decode_config(data: &[u8]) -> (read: Result<Config, Failure>)
    ensures
        match decoded(data@) {
            Some(model) => read matches Ok(config) && config.deep_view() == model,
            None => read matches Err(e) && e.carries(
                FailureKind::SerializationFailure,
                "unable to read the configuration data"@,
            ),
        },
{
    assert(data@.skip(0) =~= data@);
    match Config::decode(data, 0) {
        Some((config, _)) => Ok(config),
        None => Err(
            Failure::new(
                FailureKind::SerializationFailure,
                "unable to read the configuration data".to_string(),
            ),
        ),
    }
}

/// Reads the configuration out of what the file holds. The file makes no
/// difference to what is installed unless this succeeds.
pub fn load_config(pass: &String, data: &[u8]) -> (read: Result<Config, Failure>)
    ensures
        match loaded(pass@, data@) {
            Ok(model) => read matches Ok(config) && config.deep_view() == model,
            Err(FailureKind::DecryptionFailure) => read matches Err(e) && e.carries(
                FailureKind::DecryptionFailure,
                "unable to decrypt data. Wrong Password?"@,
            ),
            Err(_) => read matches Err(e) && e.carries(
                FailureKind::SerializationFailure,
                "unable to read the configuration data"@,
            ),
        },
{
    match open_container(pass, data) {
        Ok(plain) => decode_config(plain.as_slice()),
        Err(e) => Err(e),
    }
}

/// The configuration of a new installation has 43 bytes: three lengths of
/// mappings, and in the second mapping the name "All" with its length and
/// the length of an empty list.
pub proof fn lemma_initial_bytes()
    ensures
        <Config as Wire>::wire(ConfigModel::initial()).len() == 43,
{
    let initial = ConfigModel::initial();
    let group = initial.groups[0];
    lemma_auto_spec_u64_to_from_le_bytes();
    reveal_strlit("All");
    assert(is_ascii_chars("All"@));
    is_ascii_chars_encode_utf8("All"@);
    assert(encode_utf8("All"@).len() == 3);
    assert(<String as Wire>::wire(group.0).len() == 11);
    assert(wire_items::<String>(group.1) =~= Seq::<u8>::empty());
    assert(<Vec<String> as Wire>::wire(group.1).len() == 8);
    assert(<(String, Vec<String>) as Wire>::wire(group).len() == 19);
    assert(initial.groups.drop_last() =~= Seq::<(Seq<char>, Seq<Seq<char>>)>::empty());
    assert(wire_items::<(String, Vec<String>)>(initial.groups.drop_last()) =~= Seq::<u8>::empty());
    assert(wire_items::<(String, Vec<String>)>(initial.groups).len() == 19);
    assert(wire_items::<(String, Server)>(initial.servers) =~= Seq::<u8>::empty());
    assert(wire_items::<(String, String)>(initial.pre_commands) =~= Seq::<u8>::empty());
    assert(<NameMap<Server> as Wire>::wire(initial.servers).len() == 8);
    assert(<NameMap<Vec<String>> as Wire>::wire(initial.groups).len() == 27);
    assert(<NameMap<String> as Wire>::wire(initial.pre_commands).len() == 8);
}

/// Makes the configuration of a new installation and the container to
/// write to the file. It succeeds for every passphrase. The container holds
/// the bytes of that configuration, and is loaded with the same passphrase
/// as that configuration.
pub fn create_config(pass: &String) -> (made: Result<(Config, Vec<u8>), Failure>)
    ensures
        made is Ok,
        match made {
            Ok((config, container)) => config.deep_view() == ConfigModel::initial() && saved(
                ConfigModel::initial(),
                pass@,
                container@,
            ) && loaded(pass@, container@) == Ok::<ConfigModel, FailureKind>(
                ConfigModel::initial(),
            ),
            Err(e) => e.carries(FailureKind::PersistenceIOFailure, "unable to encrypt data"@),
        },
{
    let config = Config::default();
    let data = encode_config(&config);
    proof {
        lemma_initial_bytes();
    }
    match seal_container(pass, data.as_slice()) {
        Ok(container) => Ok((config, container)),
        Err(e) => Err(e),
    }
}

/// Installs the configuration that was read, with the passphrase that it
/// was read with, or hands the failure on and leaves what is installed as
/// it is. The answer to an installation says whether it is the first of the
/// process.
pub fn activate(read: Result<Config, Failure>, pass: String, config: &mut ConfigStore) -> (done:
    Result<bool, Failure>)
    ensures
        match read {
            Ok(held) => done == Ok::<bool, Failure>(old(config)@ is Unloaded) && final(config)@ == (
            StoreView::Loaded { config: held.deep_view(), passphrase: pass@ }),
            Err(e) => done == Err::<bool, Failure>(e) && final(config)@ == old(config)@,
        },
{
    match read {
        Ok(held) => Ok(config.install(held, pass)),
        Err(e) => Err(e),
    }
}

/// What a round of periodic saving writes, of an attempt to make the
/// container: the container, or nothing where the attempt failed.
pub fn snapshot_outcome(attempt: Result<Vec<u8>, Failure>) -> (written: Option<Vec<u8>>)
    ensures
        match attempt {
            Ok(held) => written == Some(held),
            Err(_) => written is None,
        },
{
    match attempt {
        Ok(held) => Some(held),
        Err(_) => None,
    }
}

/// One round of periodic saving: the container to write to the file, or
/// `None` where the round is skipped. A round is skipped without a
/// configuration. With one, the container comes back wherever the bytes of
/// the configuration are within what the cipher takes; it holds these bytes
/// under the installed passphrase. The round changes nothing, and asks
/// nothing of the rounds before it.
pub fn autosave_snapshot(config: &ConfigStore) -> (written: Option<Vec<u8>>)
    ensures
        match config@ {
            StoreView::Unloaded => written is None,
            StoreView::Loaded { config, passphrase } => (within_cipher(
                <Config as Wire>::wire(config).len(),
            ) ==> written is Some) && (written matches Some(container) ==> saved(
                config,
                passphrase,
                container@,
            )),
        },
{
    match config {
        ConfigStore::Unloaded => None,
        ConfigStore::Loaded { config: installed, passphrase } => {
            let data = encode_config(installed);
            snapshot_outcome(seal_container(passphrase, data.as_slice()))
        },
    }
}

} // verus!
