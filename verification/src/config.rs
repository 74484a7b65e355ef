//! Node and client configuration settings.
//!
//! Every setting has a built-in default; values read from an optional
//! settings file override them field by field, and the file's absence is
//! not an error. The storage engine's database directory is derived as
//! `home/db_path`.

use vstd::prelude::*;

verus! {

/// Filesystem locations of the node's state: the home directory, and the
/// directories of the consensus engine, the database and the gossip
/// network, each relative to home.
#[derive(Clone, Debug)]
pub struct Node {
    /// The node's home directory.
    pub home: String,
    /// The consensus engine directory, relative to home.
    pub tendermint_path: String,
    /// The database directory, relative to home.
    pub db_path: String,
    /// The gossip network directory, relative to home.
    pub libp2p_path: String,
}

/// Connection settings of the consensus engine.
#[derive(Clone, Debug)]
pub struct Tendermint {
    /// The engine's host address.
    pub host: String,
    /// The engine's port.
    pub port: String,
    /// The network identifier.
    pub network: String,
}

/// Settings of the gossip network.
#[derive(Clone, Debug)]
pub struct Gossip {
    /// The gossip host address.
    pub host: String,
    /// The gossip port.
    pub port: String,
    /// Peer addresses to dial.
    pub peers: Vec<String>,
    /// Topic names to subscribe to.
    pub topics: Vec<String>,
}

/// The node and client configuration.
#[derive(Clone, Debug)]
pub struct Config {
    /// Filesystem locations.
    pub node: Node,
    /// Consensus engine connection.
    pub tendermint: Tendermint,
    /// Gossip network settings.
    pub p2p: Gossip,
}

/// Overrides read from the optional settings file: a `Some` replaces the
/// built-in default, a `None` keeps it. The home directory always comes
/// from the caller, never from the file.
#[derive(Clone, Debug)]
pub struct ConfigOverrides {
    /// Consensus engine directory override.
    pub tendermint_path: Option<String>,
    /// Database directory override.
    pub db_path: Option<String>,
    /// Gossip directory override.
    pub libp2p_path: Option<String>,
    /// Consensus engine host override.
    pub tendermint_host: Option<String>,
    /// Consensus engine port override.
    pub tendermint_port: Option<String>,
    /// Network identifier override.
    pub tendermint_network: Option<String>,
    /// Gossip host override.
    pub p2p_host: Option<String>,
    /// Gossip port override.
    pub p2p_port: Option<String>,
    /// Peer list override.
    pub p2p_peers: Option<Vec<String>>,
    /// Topic list override.
    pub p2p_topics: Option<Vec<String>>,
}

impl ConfigOverrides {
    /// The empty override set: every setting keeps its default, as when
    /// the settings file is absent or empty.
    pub fn none() -> (r: ConfigOverrides)
        ensures
            r.tendermint_path is None,
            r.db_path is None,
            r.libp2p_path is None,
            r.tendermint_host is None,
            r.tendermint_port is None,
            r.tendermint_network is None,
            r.p2p_host is None,
            r.p2p_port is None,
            r.p2p_peers is None,
            r.p2p_topics is None,
    {
        ConfigOverrides {
            tendermint_path: None,
            db_path: None,
            libp2p_path: None,
            tendermint_host: None,
            tendermint_port: None,
            tendermint_network: None,
            p2p_host: None,
            p2p_port: None,
            p2p_peers: None,
            p2p_topics: None,
        }
    }
}

/// `base`, the separator, then `sub`.
fn join_path(base: &String, sub: &String) -> (r: String)
    ensures
        r@ == base@ + "/"@ + sub@,
{
    let mut s = String::new();
    s.append(base.as_str());
    s.append("/");
    s.append(sub.as_str());
    proof {
        assert(s@ =~= base@ + "/"@ + sub@);
    }
    s
}

impl Config {
    /// The configuration holding every built-in default over the given
    /// home directory: consensus engine directory `tendermint`, database
    /// directory `db`, gossip directory `libp2p`; consensus engine at
    /// `127.0.0.1:26658` on network `mainnet`; gossip at
    /// `127.0.0.1:20201` with no peers and no topics.
    pub fn new(home: String) -> (r: Config)
        ensures
            r.node.home@ == home@,
            r.node.tendermint_path@ == "tendermint"@,
            r.node.db_path@ == "db"@,
            r.node.libp2p_path@ == "libp2p"@,
            r.tendermint.host@ == "127.0.0.1"@,
            r.tendermint.port@ == "26658"@,
            r.tendermint.network@ == "mainnet"@,
            r.p2p.host@ == "127.0.0.1"@,
            r.p2p.port@ == "20201"@,
            r.p2p.peers@.len() == 0,
            r.p2p.topics@.len() == 0,
    {
        Config {
            node: Node {
                home,
                tendermint_path: String::from_str("tendermint"),
                db_path: String::from_str("db"),
                libp2p_path: String::from_str("libp2p"),
            },
            tendermint: Tendermint {
                host: String::from_str("127.0.0.1"),
                port: String::from_str("26658"),
                network: String::from_str("mainnet"),
            },
            p2p: Gossip {
                host: String::from_str("127.0.0.1"),
                port: String::from_str("20201"),
                peers: Vec::new(),
                topics: Vec::new(),
            },
        }
    }

    /// Replace each setting that the override set provides and keep the
    /// rest; the home directory is never overridden.
    pub fn apply_overrides(&mut self, o: ConfigOverrides)
        ensures
            final (self).node.home == old(self).node.home,
            final (self).node.tendermint_path == (match o.tendermint_path {
                Some(v) => v,
                None => old(self).node.tendermint_path,
            }),
            final (self).node.db_path == (match o.db_path {
                Some(v) => v,
                None => old(self).node.db_path,
            }),
            final (self).node.libp2p_path == (match o.libp2p_path {
                Some(v) => v,
                None => old(self).node.libp2p_path,
            }),
            final (self).tendermint.host == (match o.tendermint_host {
                Some(v) => v,
                None => old(self).tendermint.host,
            }),
            final (self).tendermint.port == (match o.tendermint_port {
                Some(v) => v,
                None => old(self).tendermint.port,
            }),
            final (self).tendermint.network == (match o.tendermint_network {
                Some(v) => v,
                None => old(self).tendermint.network,
            }),
            final (self).p2p.host == (match o.p2p_host {
                Some(v) => v,
                None => old(self).p2p.host,
            }),
            final (self).p2p.port == (match o.p2p_port {
                Some(v) => v,
                None => old(self).p2p.port,
            }),
            final (self).p2p.peers == (match o.p2p_peers {
                Some(v) => v,
                None => old(self).p2p.peers,
            }),
            final (self).p2p.topics == (match o.p2p_topics {
                Some(v) => v,
                None => old(self).p2p.topics,
            }),
    {
        let ConfigOverrides {
            tendermint_path,
            db_path,
            libp2p_path,
            tendermint_host,
            tendermint_port,
            tendermint_network,
            p2p_host,
            p2p_port,
            p2p_peers,
            p2p_topics,
        } = o;
        match tendermint_path {
            Some(v) => {
                self.node.tendermint_path = v;
            },
            None => {},
        }
        match db_path {
            Some(v) => {
                self.node.db_path = v;
            },
            None => {},
        }
        match libp2p_path {
            Some(v) => {
                self.node.libp2p_path = v;
            },
            None => {},
        }
        match tendermint_host {
            Some(v) => {
                self.tendermint.host = v;
            },
            None => {},
        }
        match tendermint_port {
            Some(v) => {
                self.tendermint.port = v;
            },
            None => {},
        }
        match tendermint_network {
            Some(v) => {
                self.tendermint.network = v;
            },
            None => {},
        }
        match p2p_host {
            Some(v) => {
                self.p2p.host = v;
            },
            None => {},
        }
        match p2p_port {
            Some(v) => {
                self.p2p.port = v;
            },
            None => {},
        }
        match p2p_peers {
            Some(v) => {
                self.p2p.peers = v;
            },
            None => {},
        }
        match p2p_topics {
            Some(v) => {
                self.p2p.topics = v;
            },
            None => {},
        }
    }

    /// The consensus engine's directory: `home/tendermint_path`.
    pub fn tendermint_home_dir(&self) -> (r: String)
        ensures
            r@ == self.node.home@ + "/"@ + self.node.tendermint_path@,
    {
        join_path(&self.node.home, &self.node.tendermint_path)
    }

    /// The gossip network's directory: `home/libp2p_path`.
    pub fn gossip_home_dir(&self) -> (r: String)
        ensures
            r@ == self.node.home@ + "/"@ + self.node.libp2p_path@,
    {
        join_path(&self.node.home, &self.node.libp2p_path)
    }

    /// The storage engine's directory: `home/db_path`.
    pub fn db_home_dir(&self) -> (r: String)
        ensures
            r@ == self.node.home@ + "/"@ + self.node.db_path@,
    {
        join_path(&self.node.home, &self.node.db_path)
    }
}

} // verus!
