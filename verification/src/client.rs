//! The group client and the stream handles it makes.
//!
//! A [`Client`] holds what every operation of one consumer needs: the name
//! of the consumer group, the name under which this process consumes, how
//! long a read waits, after how long an unacknowledged entry may be taken
//! over, and how often a claim tidies up first. A [`Stream`] binds these to
//! one stream.

use crate::msgpack::{pack_uint, spec_pack_uint};
use crate::server::{Connect, RespVersion, Server};
use crate::store::{field_views, Request, RequestView, Xid, XidView};
use vstd::prelude::*;

verus! {

/// One claim in this many tidies up first, unless the client is told
/// otherwise: a claim a minute makes that once a week.
pub const CLEAN_ODDS: u32 = 7 * 24 * 60;

/// What a [`Client`] holds, as mathematics.
pub struct ClientView {
    /// How many milliseconds a read waits for entries; `None` to not wait.
    pub block: Option<u64>,
    /// After how many milliseconds without acknowledgement an entry may be
    /// claimed by another consumer.
    pub pending: u32,
    /// The consumer group.
    pub group: Seq<char>,
    /// The name under which this process consumes.
    pub consumer: Seq<char>,
    /// One claim in this many tidies up first.
    pub clean_odds: u32,
}

/// What a [`Stream`] holds, as mathematics.
pub struct StreamView {
    pub c: ClientView,
    /// The stream's name.
    pub name: Seq<char>,
}

/// The settings of one consumer in one consumer group.
#[derive(Debug)]
pub struct Client {
    block: Option<u64>,
    pending: u32,
    group: String,
    consumer: String,
    clean_odds: u32,
}

/// A stream, as one consumer of one group sees it.
#[derive(Debug)]
pub struct Stream {
    c: Client,
    name: String,
}

impl View for Client {
    type V = ClientView;

    closed spec fn view(&self) -> ClientView {
        ClientView {
            block: self.block,
            pending: self.pending,
            group: self.group@,
            consumer: self.consumer@,
            clean_odds: self.clean_odds,
        }
    }
}

impl View for Stream {
    type V = StreamView;

    closed spec fn view(&self) -> StreamView {
        StreamView { c: self.c@, name: self.name@ }
    }
}

impl Clone for Client {
    fn clone(&self) -> (copy: Self)
        ensures
            copy@ == self@,
    {
        proof {
            use_type_invariant(self);
        }
        Client {
            block: self.block,
            pending: self.pending,
            group: self.group.clone(),
            consumer: self.consumer.clone(),
            clean_odds: self.clean_odds,
        }
    }
}

impl Clone for Stream {
    fn clone(&self) -> (copy: Self)
        ensures
            copy@ == self@,
    {
        Stream { c: self.c.clone(), name: self.name.clone() }
    }
}

/// The request that appends one entry of `fields` to `stream`: the store
/// picks the identifier, and makes the stream where there is none.
pub open spec fn append_request(stream: Seq<char>, fields: Seq<(Seq<u8>, Seq<u8>)>) -> RequestView {
    RequestView::Append { stream, no_make_stream: false, id: XidView::Auto, fields }
}

/// The name of the group that [`server_host_port`] consumes in.
pub open spec fn default_group() -> Seq<char> {
    seq!['C']
}

impl Client {
    #[verifier::type_invariant]
    spec fn well_formed(self) -> bool {
        self.clean_odds >= 1
    }

    /// The client of `group` that consumes as `consumer`, and what its
    /// session is to be opened with: the protocol's third version, at
    /// `server`, as `username` with `password`.
    ///
    /// A read waits `block` milliseconds; an entry that has been pending
    /// for `pending` milliseconds may be claimed.
    pub fn conn(
        server: Server,
        username: Option<String>,
        password: Option<String>,
        block: Option<u64>,
        pending: u32,
        group: String,
        consumer: String,
    ) -> (r: (Connect, Client))
        ensures
            r.0 == (Connect { version: RespVersion::RESP3, server, username, password }),
            r.1@ == (ClientView {
                block,
                pending,
                group: group@,
                consumer: consumer@,
                clean_odds: CLEAN_ODDS,
            }),
    {
        let plan = Connect { version: RespVersion::RESP3, server, username, password };
        (plan, Client { block, pending, group, consumer, clean_odds: CLEAN_ODDS })
    }

    /// The same client, with one claim in `odds` tidying up first. There is
    /// no such client for `odds` of zero.
    pub fn with_clean_odds(self, odds: u32) -> (r: Option<Client>)
        ensures
            match r {
                Some(c) => odds > 0 && c@ == (ClientView { clean_odds: odds, ..self@ }),
                None => odds == 0,
            },
    {
        if odds == 0 {
            None
        } else {
            Some(
                Client {
                    block: self.block,
                    pending: self.pending,
                    group: self.group,
                    consumer: self.consumer,
                    clean_odds: odds,
                },
            )
        }
    }

    /// How many milliseconds a read waits for entries.
    pub fn block(&self) -> (r: Option<u64>)
        ensures
            r == self@.block,
    {
        self.block
    }

    /// After how many milliseconds an unacknowledged entry may be claimed.
    pub fn pending(&self) -> (r: u32)
        ensures
            r == self@.pending,
    {
        self.pending
    }

    /// The consumer group.
    pub fn group(&self) -> (r: &str)
        ensures
            r@ == self@.group,
    {
        self.group.as_str()
    }

    /// The name under which this process consumes.
    pub fn consumer(&self) -> (r: &str)
        ensures
            r@ == self@.consumer,
    {
        self.consumer.as_str()
    }

    /// One claim in this many tidies up first; never zero.
    pub fn clean_odds(&self) -> (r: u32)
        ensures
            r == self@.clean_odds,
            r >= 1,
    {
        proof {
            use_type_invariant(self);
        }
        self.clean_odds
    }

    /// The handle of the stream `name` for this client.
    pub fn stream(&self, name: String) -> (s: Stream)
        ensures
            s@ == (StreamView { c: self@, name: name@ }),
    {
        Stream { c: self.clone(), name }
    }

    /// The request that appends one entry of `fields` to `stream`.
    pub fn xadd(&self, stream: &str, fields: Vec<(Vec<u8>, Vec<u8>)>) -> (r: Request)
        ensures
            r@ == append_request(stream@, field_views(fields@)),
    {
        Request::Append { stream: stream.to_owned(), no_make_stream: false, id: Xid::Auto, fields }
    }

    /// The request that appends to `stream` one entry of one field: the
    /// value `val` under the key `id`, the key written as a MessagePack
    /// unsigned integer.
    pub fn xadd_id(&self, stream: &str, id: u64, val: Vec<u8>) -> (r: Request)
        ensures
            r@ == append_request(stream@, seq![(spec_pack_uint(id), val@)]),
    {
        let mut fields: Vec<(Vec<u8>, Vec<u8>)> = Vec::new();
        fields.push((pack_uint(id), val));
        proof {
            assert(field_views(fields@) =~= seq![(spec_pack_uint(id), val@)]);
        }
        Request::Append { stream: stream.to_owned(), no_make_stream: false, id: Xid::Auto, fields }
    }
}

impl Stream {
    /// The client that the handle was made by.
    pub fn client(&self) -> (r: &Client)
        ensures
            r@ == self@.c,
    {
        &self.c
    }

    /// The stream's name.
    pub fn name(&self) -> (r: &str)
        ensures
            r@ == self@.name,
    {
        self.name.as_str()
    }
}

/// The client of the group `C` on the single node at `host` and `port`,
/// for reads that wait `block` seconds, and what its session is opened with.
///
/// An entry may be claimed once it has been pending three times as long as
/// a read waits. There is no such client where that time, in milliseconds,
/// does not fit 32 bits.
pub fn server_host_port(
    block: u64,
    host: String,
    port: u16,
    username: Option<String>,
    password: Option<String>,
    consumer: String,
) -> (r: Option<(Connect, Client)>)
    ensures
        match r {
            Some((plan, client)) => {
                &&& 3000 * block <= u32::MAX
                &&& plan == (Connect {
                    version: RespVersion::RESP3,
                    server: Server::Centralized { server: crate::server::plain_node(host, port) },
                    username,
                    password,
                })
                &&& client@ == (ClientView {
                    block: Some((1000 * block) as u64),
                    pending: (3000 * block) as u32,
                    group: default_group(),
                    consumer: consumer@,
                    clean_odds: CLEAN_ODDS,
                })
            },
            None => 3000 * block > u32::MAX,
        },
{
    if block > (u32::MAX / 3000) as u64 {
        return None;
    }
    let block_ms: u64 = block * 1000;
    let pending: u32 = (3 * block_ms) as u32;
    proof {
        reveal_strlit("C");
        assert("C"@ =~= default_group());
    }
    Some(
        Client::conn(
            Server::host_port(host, port),
            username,
            password,
            Some(block_ms),
            pending,
            "C".to_owned(),
            consumer,
        ),
    )
}

} // verus!
