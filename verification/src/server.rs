//! Where the store is reached, and what the session is opened with.

use vstd::prelude::*;

verus! {

/// One node of the store.
#[derive(Clone, Debug, PartialEq, Eq)]
pub struct Node {
    pub host: String,
    pub port: u16,
    /// The name to verify the node's certificate against, where it is not
    /// the host.
    pub tls_server_name: Option<String>,
}

/// The store: one node, or the nodes of a cluster.
#[derive(Clone, Debug, PartialEq, Eq)]
pub enum Server {
    Centralized { server: Node },
    Clustered { hosts: Vec<Node> },
}

/// The node at `host` and `port`, its certificate checked against the host.
pub open spec fn plain_node(host: String, port: u16) -> Node {
    Node { host, port, tls_server_name: None }
}

impl Server {
    /// A cluster of the nodes listed, in the order of the list.
    pub fn cluster(host_port_li: Vec<(String, u16)>) -> (server: Server)
        ensures
            server matches Server::Clustered { hosts } && hosts@.len() == host_port_li@.len()
                && forall|i: int|
                0 <= i < hosts@.len() ==> hosts@[i] == plain_node(
                    host_port_li@[i].0,
                    host_port_li@[i].1,
                ),
    {
        let ghost listed = host_port_li@;
        let mut hosts: Vec<Node> = Vec::new();
        for pair in it: host_port_li
            invariant
                it.seq() == listed,
                hosts@.len() == it.index(),
                forall|i: int|
                    0 <= i < hosts@.len() ==> hosts@[i] == plain_node(listed[i].0, listed[i].1),
        {
            let (host, port) = pair;
            hosts.push(Node { host, port, tls_server_name: None });
        }
        Server::Clustered { hosts }
    }

    /// The single node at `host` and `port`.
    pub fn host_port(host: String, port: u16) -> (server: Server)
        ensures
            server == (Server::Centralized { server: plain_node(host, port) }),
    {
        Server::Centralized { server: Node { host, port, tls_server_name: None } }
    }
}

/// The protocol that the session speaks.
#[derive(Clone, Copy, Debug, PartialEq, Eq, Structural)]
pub enum RespVersion {
    RESP2,
    RESP3,
}

/// What a session with the store is opened with.
#[derive(Clone, Debug, PartialEq, Eq)]
pub struct Connect {
    pub version: RespVersion,
    pub server: Server,
    pub username: Option<String>,
    pub password: Option<String>,
}

} // verus!
