//! What the queue asks of the stream store, and what the store answers.
//!
//! The library never talks to the store. It says which request is to be
//! sent, as a [`Request`], and is told what came back. Whoever holds the
//! connection turns a request into the store's own call and the answer into
//! the plain values below.

use vstd::prelude::*;
use vstd::string::StrSliceExecFns;

verus! {

/// The kinds of failure that the store's client tells apart.
#[derive(Clone, Copy, Debug, PartialEq, Eq, Structural)]
pub enum ErrorKind {
    Config,
    Auth,
    IO,
    InvalidCommand,
    InvalidArgument,
    Url,
    Protocol,
    Canceled,
    /// An error that the store sent as text and the client did not classify.
    /// "The group does not exist" and "the group exists already" arrive as
    /// this kind.
    Unknown,
    Timeout,
    Cluster,
    Parse,
    Sentinel,
    NotFound,
    Backpressure,
}

/// A failed request, as the store's client reported it.
#[derive(Clone, Debug, PartialEq, Eq)]
pub struct StoreError {
    pub kind: ErrorKind,
    pub details: String,
}

/// How the text of the store's "the group does not exist" begins.
pub open spec fn group_missing_mark() -> Seq<char> {
    seq!['N', 'O', 'G', 'R', 'O', 'U', 'P', ' ']
}

/// How the text of the store's "the group exists already" begins.
pub open spec fn group_exists_mark() -> Seq<char> {
    seq!['B', 'U', 'S', 'Y', 'G', 'R', 'O', 'U', 'P', ' ']
}

/// Whether `text` begins with `prefix`.
pub open spec fn begins_with(text: Seq<char>, prefix: Seq<char>) -> bool {
    prefix.len() <= text.len() && text.subrange(0, prefix.len() as int) == prefix
}

/// Whether `text` begins with `prefix`, character by character.
pub fn starts_with(text: &str, prefix: &str) -> (r: bool)
    ensures
        r == begins_with(text@, prefix@),
{
    let wanted: usize = prefix.unicode_len();
    let given: usize = text.unicode_len();
    if given < wanted {
        return false;
    }
    let mut i: usize = 0;
    while i < wanted
        invariant
            i <= wanted <= given,
            wanted == prefix@.len(),
            given == text@.len(),
            forall|j: int| 0 <= j < i ==> text@[j] == prefix@[j],
        decreases wanted - i,
    {
        if text.get_char(i) != prefix.get_char(i) {
            proof {
                assert(text@.subrange(0, wanted as int)[i as int] != prefix@[i as int]);
            }
            return false;
        }
        i = i + 1;
    }
    proof {
        assert(text@.subrange(0, wanted as int) =~= prefix@);
    }
    true
}

impl StoreError {
    /// Whether this is the store's way of saying that the consumer group
    /// does not exist: an unclassified error whose text begins `NOGROUP `.
    pub open spec fn is_group_missing(&self) -> bool {
        self.kind == ErrorKind::Unknown && begins_with(self.details@, group_missing_mark())
    }

    /// Tells "the group does not exist" from every other failure.
    pub fn group_missing(&self) -> (r: bool)
        ensures
            r == self.is_group_missing(),
    {
        proof {
            reveal_strlit("NOGROUP ");
            assert("NOGROUP "@ =~= group_missing_mark());
        }
        match self.kind {
            ErrorKind::Unknown => starts_with(self.details.as_str(), "NOGROUP "),
            _ => false,
        }
    }

    /// Whether this is the store's way of saying that the consumer group
    /// to be created exists already: an unclassified error whose text
    /// begins `BUSYGROUP `.
    pub open spec fn is_group_exists(&self) -> bool {
        self.kind == ErrorKind::Unknown && begins_with(self.details@, group_exists_mark())
    }

    /// Tells "the group exists already" from every other failure.
    pub fn group_exists(&self) -> (r: bool)
        ensures
            r == self.is_group_exists(),
    {
        proof {
            reveal_strlit("BUSYGROUP ");
            assert("BUSYGROUP "@ =~= group_exists_mark());
        }
        match self.kind {
            ErrorKind::Unknown => starts_with(self.details.as_str(), "BUSYGROUP "),
            _ => false,
        }
    }
}

/// A place in a stream, or the instruction to pick one.
#[derive(Clone, Debug, PartialEq, Eq)]
pub enum Xid {
    /// The store assigns the next identifier.
    Auto,
    /// The identifier given.
    Manual(String),
    /// The greatest identifier in the stream.
    Max,
    /// Only what no consumer of the group has been handed yet.
    NewInGroup,
}

/// An argument of a remote procedure.
#[derive(Clone, Debug, PartialEq, Eq)]
pub enum Arg {
    Int(u64),
    Text(String),
}

/// A request to the store.
#[derive(Clone, Debug, PartialEq, Eq)]
pub enum Request {
    /// Read from `stream` as `consumer` of `group`: up to `count` entries
    /// from `cursor` on, waiting up to `block` milliseconds for the first.
    /// Unless `no_ack`, what is read stays pending until acknowledged.
    GroupRead {
        group: String,
        consumer: String,
        count: u64,
        block: Option<u64>,
        no_ack: bool,
        stream: String,
        cursor: Xid,
    },
    /// Create `group` on `stream`, to be handed what follows `start`; with
    /// `make_stream`, create the stream too where there is none.
    GroupCreate { stream: String, group: String, start: Xid, make_stream: bool },
    /// Run the remote procedure `name` on `keys` with `args`.
    Call { name: String, keys: Vec<String>, args: Vec<Arg> },
    /// Append one entry of `fields` to `stream` under the identifier `id`;
    /// with `no_make_stream`, only where the stream exists.
    Append { stream: String, no_make_stream: bool, id: Xid, fields: Vec<(Vec<u8>, Vec<u8>)> },
}

/// What an [`Xid`] holds, as mathematics.
pub enum XidView {
    Auto,
    Manual(Seq<char>),
    Max,
    NewInGroup,
}

/// What an [`Arg`] holds, as mathematics.
pub enum ArgView {
    Int(u64),
    Text(Seq<char>),
}

/// What a [`Request`] holds, as mathematics.
pub enum RequestView {
    GroupRead {
        group: Seq<char>,
        consumer: Seq<char>,
        count: u64,
        block: Option<u64>,
        no_ack: bool,
        stream: Seq<char>,
        cursor: XidView,
    },
    GroupCreate { stream: Seq<char>, group: Seq<char>, start: XidView, make_stream: bool },
    Call { name: Seq<char>, keys: Seq<Seq<char>>, args: Seq<ArgView> },
    Append {
        stream: Seq<char>,
        no_make_stream: bool,
        id: XidView,
        fields: Seq<(Seq<u8>, Seq<u8>)>,
    },
}

impl View for Xid {
    type V = XidView;

    open spec fn view(&self) -> XidView {
        match self {
            Xid::Auto => XidView::Auto,
            Xid::Manual(id) => XidView::Manual(id@),
            Xid::Max => XidView::Max,
            Xid::NewInGroup => XidView::NewInGroup,
        }
    }
}

impl View for Arg {
    type V = ArgView;

    open spec fn view(&self) -> ArgView {
        match self {
            Arg::Int(n) => ArgView::Int(*n),
            Arg::Text(text) => ArgView::Text(text@),
        }
    }
}

/// The texts that `strings` hold, in order.
pub open spec fn text_views(strings: Seq<String>) -> Seq<Seq<char>> {
    Seq::new(strings.len(), |i: int| strings[i]@)
}

/// The arguments that `args` hold, in order.
pub open spec fn arg_views(args: Seq<Arg>) -> Seq<ArgView> {
    Seq::new(args.len(), |i: int| args[i]@)
}

/// The keys and values that `fields` hold, in order.
pub open spec fn field_views(fields: Seq<(Vec<u8>, Vec<u8>)>) -> Seq<(Seq<u8>, Seq<u8>)> {
    Seq::new(fields.len(), |i: int| (fields[i].0@, fields[i].1@))
}

impl View for Request {
    type V = RequestView;

    open spec fn view(&self) -> RequestView {
        match self {
            Request::GroupRead { group, consumer, count, block, no_ack, stream, cursor } => {
                RequestView::GroupRead {
                    group: group@,
                    consumer: consumer@,
                    count: *count,
                    block: *block,
                    no_ack: *no_ack,
                    stream: stream@,
                    cursor: cursor@,
                }
            },
            Request::GroupCreate { stream, group, start, make_stream } => {
                RequestView::GroupCreate {
                    stream: stream@,
                    group: group@,
                    start: start@,
                    make_stream: *make_stream,
                }
            },
            Request::Call { name, keys, args } => RequestView::Call {
                name: name@,
                keys: text_views(keys@),
                args: arg_views(args@),
            },
            Request::Append { stream, no_make_stream, id, fields } => RequestView::Append {
                stream: stream@,
                no_make_stream: *no_make_stream,
                id: id@,
                fields: field_views(fields@),
            },
        }
    }
}

/// One entry of a stream.
#[derive(Clone, Debug, PartialEq, Eq)]
pub struct Entry {
    /// The identifier that the store gave the entry.
    pub id: String,
    /// The entry's keys and values, in the order in which they were appended.
    pub fields: Vec<(Vec<u8>, Vec<u8>)>,
}

/// What a group read brought from one stream.
#[derive(Clone, Debug, PartialEq, Eq)]
pub struct StreamEntries {
    /// The stream's name as the store sent it.
    pub stream: Vec<u8>,
    /// The entries, in the order of delivery.
    pub entries: Vec<Entry>,
}

/// The entries of all `parts` in one sequence: those of the first part,
/// then those of the second, and so on, each part in its own order.
pub open spec fn flat_entries(parts: Seq<StreamEntries>) -> Seq<Entry>
    decreases parts.len(),
{
    if parts.len() == 0 {
        Seq::empty()
    } else {
        flat_entries(parts.drop_last()) + parts.last().entries@
    }
}

/// Lays the answer to a group read out as one sequence of entries, in the
/// order of delivery. An answer without entries gives the empty sequence.
pub fn flatten(parts: Vec<StreamEntries>) -> (entries: Vec<Entry>)
    ensures
        entries@ == flat_entries(parts@),
{
    let ghost all = parts@;
    let mut parts = parts;
    let mut entries: Vec<Entry> = Vec::new();
    proof {
        assert(flat_entries(parts@) + entries@ =~= flat_entries(all));
    }
    while parts.len() > 0
        invariant
            flat_entries(all) == flat_entries(parts@) + entries@,
        decreases parts.len(),
    {
        let ghost before = parts@;
        let ghost behind = entries@;
        match parts.pop() {
            None => {},
            Some(part) => {
                let mut front = part.entries;
                front.append(&mut entries);
                entries = front;
                proof {
                    assert(flat_entries(before) == flat_entries(before.drop_last())
                        + before.last().entries@);
                    assert(flat_entries(parts@) + entries@ =~= flat_entries(before) + behind);
                }
            },
        }
    }
    proof {
        assert(flat_entries(parts@) + entries@ =~= entries@);
    }
    entries
}

} // verus!
