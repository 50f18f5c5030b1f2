//! The configuration: servers, groups of servers and preset commands.

use crate::address::SocketAddress;
use crate::name_map::{entries_insert, entries_map, NameMap};
use crate::wire::Wire;
use vstd::prelude::*;

verus! {

/// What a `Server` holds, as mathematical values.
pub struct ServerView {
    pub user: Seq<char>,
    pub ip: SocketAddress,
    pub private: Seq<char>,
    pub public: Option<Seq<char>>,
    pub passphrase: Option<Seq<char>>,
}

/// One remote target: the user to log in as, the address, the private key,
/// and where there is one the public key and the passphrase of the key.
#[derive(Debug, PartialEq, Eq)]
pub struct Server {
    pub user: String,
    pub ip: SocketAddress,
    pub private: String,
    pub public: Option<String>,
    pub passphrase: Option<String>,
}

impl DeepView for Server {
    type V = ServerView;

    open spec fn deep_view(&self) -> ServerView {
        ServerView {
            user: self.user@,
            ip: self.ip,
            private: self.private@,
            public: self.public.deep_view(),
            passphrase: self.passphrase.deep_view(),
        }
    }
}

impl View for Server {
    type V = ServerView;

    open spec fn view(&self) -> ServerView {
        self.deep_view()
    }
}

fn clone_optional(text: &Option<String>) -> (copy: Option<String>)
    ensures
        copy.deep_view() == text.deep_view(),
{
    match text {
        Some(s) => Some(s.clone()),
        None => None,
    }
}

impl Clone for Server {
    /// An owned copy that holds the same values.
    fn clone(&self) -> (copy: Self)
        ensures
            copy@ == self@,
    {
        Server {
            user: self.user.clone(),
            ip: self.ip,
            private: self.private.clone(),
            public: clone_optional(&self.public),
            passphrase: clone_optional(&self.passphrase),
        }
    }
}

impl Server {
    /// A server with these values.
    pub fn new(
        ip: SocketAddress,
        private: String,
        public: Option<String>,
        user: String,
        passphrase: Option<String>,
    ) -> (server: Self)
        ensures
            server@ == (ServerView {
                user: user@,
                ip,
                private: private@,
                public: public.deep_view(),
                passphrase: passphrase.deep_view(),
            }),
    {
        Self { user, ip, private, public, passphrase }
    }
}

/// The fields of a server in the order of their bytes.
pub type ServerParts = (String, (SocketAddress, (String, (Option<String>, Option<String>))));

impl ServerView {
    /// The fields in the order of their bytes.
    pub open spec fn parts(self) -> <ServerParts as DeepView>::V {
        (self.user, (self.ip, (self.private, (self.public, self.passphrase))))
    }

    /// The server with these fields.
    pub open spec fn of_parts(parts: <ServerParts as DeepView>::V) -> ServerView {
        ServerView {
            user: parts.0,
            ip: parts.1.0,
            private: parts.1.1.0,
            public: parts.1.1.1.0,
            passphrase: parts.1.1.1.1,
        }
    }
}

impl Wire for Server {
    /// The user, the address, the private key, the public key and the
    /// passphrase, one after the other.
    open spec fn wire(value: ServerView) -> Seq<u8> {
        <ServerParts as Wire>::wire(value.parts())
    }

    open spec fn parse(bytes: Seq<u8>) -> Option<(ServerView, Seq<u8>)> {
        match <ServerParts as Wire>::parse(bytes) {
            Some((parts, rest)) => Some((ServerView::of_parts(parts), rest)),
            None => None,
        }
    }

    open spec fn kept(value: ServerView) -> bool {
        <ServerParts as Wire>::kept(value.parts())
    }

    open spec fn stable(value: ServerView) -> bool {
        <ServerParts as Wire>::stable(value.parts())
    }

    proof fn lemma_reads_back(value: ServerView, rest: Seq<u8>) {
        <ServerParts as Wire>::lemma_reads_back(value.parts(), rest);
    }

    fn encode(&self, out: &mut Vec<u8>) {
        self.user.encode(out);
        self.ip.encode(out);
        self.private.encode(out);
        self.public.encode(out);
        self.passphrase.encode(out);
        assert(out@ =~= old(out)@ + Self::wire(self.deep_view()));
    }

    fn decode(bytes: &[u8], start: usize) -> (read: Option<(Self, usize)>) {
        match <ServerParts as Wire>::decode(bytes, start) {
            Some(((user, (ip, (private, (public, passphrase)))), end)) => Some(
                (Server { user, ip, private, public, passphrase }, end),
            ),
            None => None,
        }
    }
}

/// What a `Config` holds, as mathematical values.
pub struct ConfigView {
    pub servers: Map<Seq<char>, ServerView>,
    pub groups: Map<Seq<char>, Seq<Seq<char>>>,
    pub pre_commands: Map<Seq<char>, Seq<char>>,
}

impl ConfigView {
    /// The configuration that a new installation starts with: no server, no
    /// preset, and the one group "All" without members.
    pub open spec fn initial() -> ConfigView {
        ConfigView {
            servers: Map::empty(),
            groups: Map::empty().insert("All"@, Seq::empty()),
            pre_commands: Map::empty(),
        }
    }
}

/// The entries of a `Config` in their order, as mathematical values.
pub struct ConfigModel {
    pub servers: Seq<(Seq<char>, ServerView)>,
    pub groups: Seq<(Seq<char>, Seq<Seq<char>>)>,
    pub pre_commands: Seq<(Seq<char>, Seq<char>)>,
}

/// The three mappings of a configuration in the order of their bytes.
pub type ConfigParts = (NameMap<Server>, (NameMap<Vec<String>>, NameMap<String>));

impl ConfigModel {
    /// The mappings that the entries stand for.
    pub open spec fn mapping(self) -> ConfigView {
        ConfigView {
            servers: entries_map(self.servers),
            groups: entries_map(self.groups),
            pre_commands: entries_map(self.pre_commands),
        }
    }

    /// The entries that a new installation starts with.
    pub open spec fn initial() -> ConfigModel {
        ConfigModel {
            servers: Seq::empty(),
            groups: seq![("All"@, Seq::empty())],
            pre_commands: Seq::empty(),
        }
    }

    /// Every server has an address that its stored form keeps whole.
    pub open spec fn storable(self) -> bool {
        forall|i: int|
            0 <= i < self.servers.len() ==> (#[trigger] self.servers[i]).1.ip.storable()
    }

    /// The three lists of entries in the order of their bytes.
    pub open spec fn parts(self) -> <ConfigParts as DeepView>::V {
        (self.servers, (self.groups, self.pre_commands))
    }

    /// The configuration with these lists of entries.
    pub open spec fn of_parts(parts: <ConfigParts as DeepView>::V) -> ConfigModel {
        ConfigModel { servers: parts.0, groups: parts.1.0, pre_commands: parts.1.1 }
    }
}

/// The registered servers, the groups of server names and the preset
/// commands, each under its name.
#[derive(Debug)]
pub struct Config {
    pub servers: NameMap<Server>,
    pub groups: NameMap<Vec<String>>,
    pub pre_commands: NameMap<String>,
}

impl View for Config {
    type V = ConfigView;

    open spec fn view(&self) -> ConfigView {
        ConfigView {
            servers: self.servers@,
            groups: self.groups@,
            pre_commands: self.pre_commands@,
        }
    }
}

impl Config {
    /// Registers a server under a name, in place of a server of that name.
    pub fn add_server(&mut self, name: String, server: Server)
        ensures
            final(self).deep_view() == (ConfigModel {
                servers: entries_insert(old(self).deep_view().servers, name@, server@),
                ..old(self).deep_view()
            }),
            final(self)@ == (ConfigView {
                servers: old(self)@.servers.insert(name@, server@),
                ..old(self)@
            }),
    {
        self.servers.insert(name, server);
    }

    /// Registers a group under a name, without members, in place of a group
    /// of that name.
    pub fn add_group(&mut self, name: String)
        ensures
            final(self).deep_view() == (ConfigModel {
                groups: entries_insert(old(self).deep_view().groups, name@, Seq::empty()),
                ..old(self).deep_view()
            }),
            final(self)@ == (ConfigView {
                groups: old(self)@.groups.insert(name@, Seq::empty()),
                ..old(self)@
            }),
    {
        let members: Vec<String> = Vec::new();
        assert(members.deep_view() =~= Seq::<Seq<char>>::empty());
        self.groups.insert(name, members);
    }

    /// An owned copy of the server that is registered under the name.
    pub fn server(&self, name: &String) -> (found: Option<Server>)
        ensures
            match found {
                Some(server) => self@.servers.contains_key(name@) && server@
                    == self@.servers[name@],
                None => !self@.servers.contains_key(name@),
            },
    {
        match self.servers.get(name) {
            Some(server) => Some(server.clone()),
            None => None,
        }
    }

    /// The text of the command that is registered as a preset under the
    /// name.
    pub fn preset(&self, name: &String) -> (found: Option<String>)
        ensures
            match found {
                Some(text) => self@.pre_commands.contains_key(name@) && text@
                    == self@.pre_commands[name@],
                None => !self@.pre_commands.contains_key(name@),
            },
    {
        match self.pre_commands.get(name) {
            Some(text) => Some(text.clone()),
            None => None,
        }
    }
}

impl DeepView for Config {
    type V = ConfigModel;

    open spec fn deep_view(&self) -> ConfigModel {
        ConfigModel {
            servers: self.servers.entries(),
            groups: self.groups.entries(),
            pre_commands: self.pre_commands.entries(),
        }
    }
}

impl Wire for Config {
    /// The servers, the groups and the presets, one mapping after the other.
    open spec fn wire(value: ConfigModel) -> Seq<u8> {
        <ConfigParts as Wire>::wire(value.parts())
    }

    open spec fn parse(bytes: Seq<u8>) -> Option<(ConfigModel, Seq<u8>)> {
        match <ConfigParts as Wire>::parse(bytes) {
            Some((parts, rest)) => Some((ConfigModel::of_parts(parts), rest)),
            None => None,
        }
    }

    open spec fn kept(value: ConfigModel) -> bool {
        <ConfigParts as Wire>::kept(value.parts())
    }

    open spec fn stable(value: ConfigModel) -> bool {
        <ConfigParts as Wire>::stable(value.parts())
    }

    proof fn lemma_reads_back(value: ConfigModel, rest: Seq<u8>) {
        <ConfigParts as Wire>::lemma_reads_back(value.parts(), rest);
    }

    fn encode(&self, out: &mut Vec<u8>) {
        self.servers.encode(out);
        self.groups.encode(out);
        self.pre_commands.encode(out);
        assert(out@ =~= old(out)@ + Self::wire(self.deep_view()));
    }

    fn decode(bytes: &[u8], start: usize) -> (read: Option<(Self, usize)>) {
        match <ConfigParts as Wire>::decode(bytes, start) {
            Some(((servers, (groups, pre_commands)), end)) => Some(
                (Config { servers, groups, pre_commands }, end),
            ),
            None => None,
        }
    }
}

impl Default for Config {
    /// The configuration that a new installation starts with: no server, no
    /// preset, and the one group "All" without members.
    fn default() -> (config: Self)
        ensures
            config.deep_view() == ConfigModel::initial(),
            config@ == ConfigView::initial(),
    {
        let mut groups: NameMap<Vec<String>> = NameMap::new();
        let members: Vec<String> = Vec::new();
        assert(members.deep_view() =~= Seq::<Seq<char>>::empty());
        groups.insert("All".to_string(), members);
        let config = Config { servers: NameMap::new(), groups, pre_commands: NameMap::new() };
        assert(config.groups.entries() =~= seq![("All"@, Seq::<Seq<char>>::empty())]) by {
            assert(!crate::name_map::has_name(
                Seq::<(Seq<char>, Seq<Seq<char>>)>::empty(),
                "All"@,
            ));
        }
        assert(config.deep_view() == ConfigModel::initial());
        config
    }
}

} // verus!
