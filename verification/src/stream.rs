//! The operations of a stream handle: read, claim, acknowledge, tidy up.
//!
//! No operation talks to the store. Each begins with a method that gives
//! the first request to send; each answer of the store goes to the method
//! named for the step it ends, which gives the next request or the
//! operation's result. The sequence is fixed by the types: a read that
//! finds no consumer group creates it and reads once more, never twice,
//! also where another consumer has created the group in the meantime; a
//! claim that tidies up first claims afterwards.

use crate::chance::draw_below;
use crate::claim::{
    claim_views, decode_claims, spec_decode_claims, ClaimRecord, ClaimedEntry, MalformedResponse,
};
use crate::client::{Client, Stream, StreamView};
use crate::store::{
    arg_views, flat_entries, flatten, text_views, Arg, ArgView, Entry, Request, RequestView,
    StoreError, StreamEntries, Xid, XidView,
};
use vstd::prelude::*;

verus! {

/// How long a consumer may sit idle, in milliseconds, before tidying up
/// strikes it from the group: seven days.
pub const RETENTION_MS: u64 = 7 * 24 * 60 * 60 * 1000;

/// The read of up to `count` entries that no consumer of the group has been
/// handed yet. What is read becomes pending on this consumer.
pub open spec fn read_request(s: StreamView, count: u64) -> RequestView {
    RequestView::GroupRead {
        group: s.c.group,
        consumer: s.c.consumer,
        count,
        block: s.c.block,
        no_ack: false,
        stream: s.name,
        cursor: XidView::NewInGroup,
    }
}

/// The creation of the consumer group at the very beginning of the stream,
/// so that the group is handed every entry there is; the stream is made
/// where there is none.
pub open spec fn create_request(s: StreamView) -> RequestView {
    RequestView::GroupCreate {
        stream: s.name,
        group: s.c.group,
        start: XidView::Manual("0"@),
        make_stream: true,
    }
}

/// The call that strikes from the group every consumer that has sat idle
/// longer than [`RETENTION_MS`].
pub open spec fn clean_request(s: StreamView) -> RequestView {
    RequestView::Call {
        name: "xconsumerclean"@,
        keys: seq![s.name, s.c.group],
        args: seq![ArgView::Int(RETENTION_MS)],
    }
}

/// The call that acknowledges the entry `id` for the group and deletes it
/// from the stream, both or neither.
pub open spec fn ackdel_request(s: StreamView, id: Seq<char>) -> RequestView {
    RequestView::Call {
        name: "xackdel"@,
        keys: seq![s.name, s.c.group],
        args: seq![ArgView::Text(id)],
    }
}

/// The call that hands this consumer up to `limit` entries that have been
/// pending on any consumer of the group for longer than the client allows.
pub open spec fn claim_request(s: StreamView, limit: u32) -> RequestView {
    RequestView::Call {
        name: "xpendclaim"@,
        keys: seq![s.name, s.c.group, s.c.consumer],
        args: seq![ArgView::Int(s.c.pending as u64), ArgView::Int(limit as u64)],
    }
}

/// What the store answers to a group read.
pub type ReadReply = Result<Vec<StreamEntries>, StoreError>;

/// What the store answers to the creation of a group.
pub type CreateReply = Result<(), StoreError>;

/// What the store answers to a call of a remote procedure.
pub type CallReply = Result<Option<Vec<u8>>, StoreError>;

/// A [`ReadReply`] as mathematics.
pub open spec fn read_reply_view(reply: ReadReply) -> Result<Seq<StreamEntries>, StoreError> {
    match reply {
        Ok(parts) => Ok(parts@),
        Err(e) => Err(e),
    }
}

/// A [`CallReply`] as mathematics.
pub open spec fn call_reply_view(reply: CallReply) -> Result<Option<Seq<u8>>, StoreError> {
    match reply {
        Ok(Some(bytes)) => Ok(Some(bytes@)),
        Ok(None) => Ok(None),
        Err(e) => Err(e),
    }
}

/// What a read has come to, or what it needs next.
#[derive(Debug)]
pub enum NextStep {
    /// The read is over.
    Done(Result<Vec<Entry>, StoreError>),
    /// The group does not exist: send this request, which creates it.
    CreateGroup(Request),
}

/// What a [`NextStep`] holds, as mathematics.
pub enum NextStepView {
    Done(Result<Seq<Entry>, StoreError>),
    CreateGroup(RequestView),
}

impl View for NextStep {
    type V = NextStepView;

    open spec fn view(&self) -> NextStepView {
        match self {
            NextStep::Done(Ok(entries)) => NextStepView::Done(Ok(entries@)),
            NextStep::Done(Err(e)) => NextStepView::Done(Err(*e)),
            NextStep::CreateGroup(request) => NextStepView::CreateGroup(request@),
        }
    }
}

/// What the answer to the first read of an operation leads to: the
/// entries, laid out in one sequence; the creation of the group, where the
/// store says that there is none; every other failure as it came.
pub open spec fn spec_xnext_read(
    s: StreamView,
    reply: Result<Seq<StreamEntries>, StoreError>,
) -> NextStepView {
    match reply {
        Ok(parts) => NextStepView::Done(Ok(flat_entries(parts))),
        Err(e) => if e.is_group_missing() {
            NextStepView::CreateGroup(create_request(s))
        } else {
            NextStepView::Done(Err(e))
        },
    }
}

/// Whether the answer to the creation of the group leaves the group in
/// place: the creation succeeded, or the store says that the group exists
/// already, which it does where another consumer was faster.
pub open spec fn group_stands(reply: CreateReply) -> bool {
    match reply {
        Ok(_) => true,
        Err(e) => e.is_group_exists(),
    }
}

/// What the answer to the creation of the group leads to: the read again
/// where the group now stands, else the failure as it came.
pub open spec fn spec_xnext_created(s: StreamView, count: u64, reply: CreateReply) -> Result<
    RequestView,
    StoreError,
> {
    match reply {
        Ok(_) => Ok(read_request(s, count)),
        Err(e) => if e.is_group_exists() {
            Ok(read_request(s, count))
        } else {
            Err(e)
        },
    }
}

/// What the answer to the second read comes to: the entries, or the
/// failure as it came, whatever it says.
pub open spec fn spec_xnext_retry(reply: Result<Seq<StreamEntries>, StoreError>) -> Result<
    Seq<Entry>,
    StoreError,
> {
    match reply {
        Ok(parts) => Ok(flat_entries(parts)),
        Err(e) => Err(e),
    }
}

/// What a whole read comes to, as a function of what the store answers:
/// `first` to the read, `created` to the creation of the group if it comes
/// to that, `second` to the read after it.
pub open spec fn spec_xnext(
    first: Result<Seq<StreamEntries>, StoreError>,
    created: CreateReply,
    second: Result<Seq<StreamEntries>, StoreError>,
) -> Result<Seq<Entry>, StoreError> {
    match first {
        Ok(parts) => Ok(flat_entries(parts)),
        Err(e) => if !e.is_group_missing() {
            Err(e)
        } else if !group_stands(created) {
            Err(created->Err_0)
        } else {
            match second {
                Ok(parts) => Ok(flat_entries(parts)),
                Err(e) => Err(e),
            }
        },
    }
}

/// The requests that a whole read sends, in order, as a function of what
/// the store answers.
pub open spec fn spec_xnext_requests(
    s: StreamView,
    count: u64,
    first: Result<Seq<StreamEntries>, StoreError>,
    created: CreateReply,
) -> Seq<RequestView> {
    match first {
        Ok(_) => seq![read_request(s, count)],
        Err(e) => if !e.is_group_missing() {
            seq![read_request(s, count)]
        } else if !group_stands(created) {
            seq![read_request(s, count), create_request(s)]
        } else {
            seq![read_request(s, count), create_request(s), read_request(s, count)]
        },
    }
}

/// The steps of a read, one after another, come to what [`spec_xnext`]
/// says, and send what [`spec_xnext_requests`] says: at most three
/// requests, the creation of the group only after the store has said that
/// there is none, and never a second creation.
pub proof fn lemma_xnext_steps(
    s: StreamView,
    count: u64,
    first: Result<Seq<StreamEntries>, StoreError>,
    created: CreateReply,
    second: Result<Seq<StreamEntries>, StoreError>,
)
    ensures
        match spec_xnext_read(s, first) {
            NextStepView::Done(result) => {
                &&& result == spec_xnext(first, created, second)
                &&& spec_xnext_requests(s, count, first, created) == seq![read_request(s, count)]
            },
            NextStepView::CreateGroup(create) => {
                &&& first is Err
                &&& first->Err_0.is_group_missing()
                &&& create == create_request(s)
                &&& match spec_xnext_created(s, count, created) {
                    Err(e) => {
                        &&& created == Err::<(), _>(e)
                        &&& !e.is_group_exists()
                        &&& spec_xnext(first, created, second) == Err::<Seq<Entry>, _>(e)
                        &&& spec_xnext_requests(s, count, first, created) == seq![
                            read_request(s, count),
                            create,
                        ]
                    },
                    Ok(again) => {
                        &&& group_stands(created)
                        &&& again == read_request(s, count)
                        &&& spec_xnext(first, created, second) == spec_xnext_retry(second)
                        &&& spec_xnext_requests(s, count, first, created) == seq![
                            read_request(s, count),
                            create,
                            again,
                        ]
                    },
                }
            },
        },
        spec_xnext_requests(s, count, first, created).len() <= 3,
{
}

/// A read on a stream without the consumer group comes to what the read
/// after the creation of the group brings; the group is created at the
/// beginning of the stream, and the stream with it where there is none.
pub proof fn lemma_xnext_creates_missing_group(
    s: StreamView,
    count: u64,
    missing: StoreError,
    parts: Seq<StreamEntries>,
)
    requires
        missing.is_group_missing(),
    ensures
        spec_xnext(Err(missing), Ok(()), Ok(parts)) == Ok::<_, StoreError>(flat_entries(parts)),
        spec_xnext_requests(s, count, Err(missing), Ok(())) == seq![
            read_request(s, count),
            create_request(s),
            read_request(s, count),
        ],
        create_request(s) matches RequestView::GroupCreate { start, make_stream, .. }
            && start == XidView::Manual(seq!['0']) && make_stream,
{
    reveal_strlit("0");
    assert("0"@ =~= seq!['0']);
}

/// A group that another consumer created in the meantime is no failure:
/// where the read finds no group and the creation finds one, the read goes
/// on as after a creation that succeeded, and comes to what the read after
/// it brings.
pub proof fn lemma_xnext_tolerates_existing_group(
    s: StreamView,
    count: u64,
    missing: StoreError,
    exists: StoreError,
    second: Result<Seq<StreamEntries>, StoreError>,
)
    requires
        missing.is_group_missing(),
        exists.is_group_exists(),
    ensures
        spec_xnext_created(s, count, Err(exists)) == Ok::<_, StoreError>(read_request(s, count)),
        spec_xnext_created(s, count, Err(exists)) == spec_xnext_created(s, count, Ok(())),
        spec_xnext(Err(missing), Err(exists), second) == spec_xnext(
            Err(missing),
            Ok(()),
            second,
        ),
        spec_xnext(Err(missing), Err(exists), second) == spec_xnext_retry(second),
        spec_xnext_requests(s, count, Err(missing), Err(exists)) == seq![
            read_request(s, count),
            create_request(s),
            read_request(s, count),
        ],
{
}

/// Why a claim failed.
#[derive(Clone, Debug, PartialEq, Eq)]
pub enum ClaimError {
    /// Tidying up before the claim failed; nothing was claimed.
    Clean(StoreError),
    /// The claim itself failed.
    Store(StoreError),
    /// The store's reply to the claim cannot be read.
    Malformed(MalformedResponse),
}

/// How a claim begins.
#[derive(Debug)]
pub enum ClaimStart {
    /// Send this request, which tidies up; the claim follows.
    Clean(Request),
    /// Send this request, which claims.
    Claim(Request),
}

/// What a [`ClaimStart`] holds, as mathematics.
pub enum ClaimStartView {
    Clean(RequestView),
    Claim(RequestView),
}

impl View for ClaimStart {
    type V = ClaimStartView;

    open spec fn view(&self) -> ClaimStartView {
        match self {
            ClaimStart::Clean(request) => ClaimStartView::Clean(request@),
            ClaimStart::Claim(request) => ClaimStartView::Claim(request@),
        }
    }
}

/// How a claim begins when the dice show `drawn`: by tidying up on a zero,
/// by claiming on everything else.
pub open spec fn spec_claim_start(s: StreamView, limit: u32, drawn: u32) -> ClaimStartView {
    if drawn == 0 {
        ClaimStartView::Clean(clean_request(s))
    } else {
        ClaimStartView::Claim(claim_request(s, limit))
    }
}

/// What the answer to tidying up leads to: the claim, or the failure, kept
/// apart from a failure of the claim.
pub open spec fn spec_claim_cleaned(
    s: StreamView,
    limit: u32,
    reply: Result<Option<Seq<u8>>, StoreError>,
) -> Result<RequestView, ClaimError> {
    match reply {
        Ok(_) => Ok(claim_request(s, limit)),
        Err(e) => Err(ClaimError::Clean(e)),
    }
}

/// What the answer to the claim comes to: nothing where the store sent
/// nothing, else what the reply decodes to.
pub open spec fn spec_claim_claimed(reply: Result<Option<Seq<u8>>, StoreError>) -> Result<
    Option<Seq<ClaimRecord>>,
    ClaimError,
> {
    match reply {
        Err(e) => Err(ClaimError::Store(e)),
        Ok(None) => Ok(None),
        Ok(Some(buf)) => match spec_decode_claims(buf) {
            Ok(claimed) => Ok(claimed),
            Err(e) => Err(ClaimError::Malformed(e)),
        },
    }
}

/// What a whole claim comes to, as a function of what the dice show and
/// of what the store answers: `cleaned` to tidying up if it comes to that,
/// `claimed` to the claim.
pub open spec fn spec_xpendclaim(
    drawn: u32,
    cleaned: Result<Option<Seq<u8>>, StoreError>,
    claimed: Result<Option<Seq<u8>>, StoreError>,
) -> Result<Option<Seq<ClaimRecord>>, ClaimError> {
    if drawn == 0 && cleaned is Err {
        Err(ClaimError::Clean(cleaned->Err_0))
    } else {
        spec_claim_claimed(claimed)
    }
}

/// The requests that a whole claim sends, in order.
pub open spec fn spec_xpendclaim_requests(
    s: StreamView,
    limit: u32,
    drawn: u32,
    cleaned: Result<Option<Seq<u8>>, StoreError>,
) -> Seq<RequestView> {
    if drawn != 0 {
        seq![claim_request(s, limit)]
    } else if cleaned is Err {
        seq![clean_request(s)]
    } else {
        seq![clean_request(s), claim_request(s, limit)]
    }
}

/// The steps of a claim, one after another, come to what
/// [`spec_xpendclaim`] says and send what [`spec_xpendclaim_requests`]
/// says: the claim once, unless tidying up failed, and tidying up before
/// it only on a zero.
pub proof fn lemma_xpendclaim_steps(
    s: StreamView,
    limit: u32,
    drawn: u32,
    cleaned: Result<Option<Seq<u8>>, StoreError>,
    claimed: Result<Option<Seq<u8>>, StoreError>,
)
    ensures
        match spec_claim_start(s, limit, drawn) {
            ClaimStartView::Claim(claim) => {
                &&& drawn != 0
                &&& spec_xpendclaim(drawn, cleaned, claimed) == spec_claim_claimed(claimed)
                &&& spec_xpendclaim_requests(s, limit, drawn, cleaned) == seq![claim]
            },
            ClaimStartView::Clean(clean) => {
                &&& drawn == 0
                &&& match spec_claim_cleaned(s, limit, cleaned) {
                    Err(e) => {
                        &&& spec_xpendclaim(drawn, cleaned, claimed) == Err::<
                            Option<Seq<ClaimRecord>>,
                            _,
                        >(e)
                        &&& spec_xpendclaim_requests(s, limit, drawn, cleaned) == seq![clean]
                    },
                    Ok(claim) => {
                        &&& spec_xpendclaim(drawn, cleaned, claimed) == spec_claim_claimed(
                            claimed,
                        )
                        &&& spec_xpendclaim_requests(s, limit, drawn, cleaned) == seq![
                            clean,
                            claim,
                        ]
                    },
                }
            },
        },
{
}

/// What a claim has come to, as mathematics.
pub open spec fn claimed_view(r: Result<Option<Vec<ClaimedEntry>>, ClaimError>) -> Result<
    Option<Seq<ClaimRecord>>,
    ClaimError,
> {
    match r {
        Ok(Some(entries)) => Ok(Some(claim_views(entries@))),
        Ok(None) => Ok(None),
        Err(e) => Err(e),
    }
}

/// A request or a failure, as mathematics.
pub open spec fn request_view<E>(r: Result<Request, E>) -> Result<RequestView, E> {
    match r {
        Ok(request) => Ok(request@),
        Err(e) => Err(e),
    }
}

/// The entries or the failure, as mathematics.
pub open spec fn entries_view(r: Result<Vec<Entry>, StoreError>) -> Result<Seq<Entry>, StoreError> {
    match r {
        Ok(entries) => Ok(entries@),
        Err(e) => Err(e),
    }
}

impl Stream {
    /// The keys that every remote procedure of a stream is called on: the
    /// stream and the consumer group.
    fn keys(&self) -> (keys: Vec<String>)
        ensures
            text_views(keys@) == seq![self@.name, self@.c.group],
    {
        let mut keys: Vec<String> = Vec::new();
        keys.push(self.name().to_owned());
        keys.push(self.client().group().to_owned());
        proof {
            assert(text_views(keys@) =~= seq![self@.name, self@.c.group]);
        }
        keys
    }

    /// The request that tidies the consumer group up.
    pub fn xclean(&self) -> (request: Request)
        ensures
            request@ == clean_request(self@),
    {
        let mut args: Vec<Arg> = Vec::new();
        args.push(Arg::Int(RETENTION_MS));
        proof {
            assert(arg_views(args@) =~= seq![ArgView::Int(RETENTION_MS)]);
        }
        Request::Call { name: "xconsumerclean".to_owned(), keys: self.keys(), args }
    }

    /// The request that acknowledges the entry `task_id` and deletes it.
    pub fn xackdel(&self, task_id: &str) -> (request: Request)
        ensures
            request@ == ackdel_request(self@, task_id@),
    {
        let mut args: Vec<Arg> = Vec::new();
        args.push(Arg::Text(task_id.to_owned()));
        proof {
            assert(arg_views(args@) =~= seq![ArgView::Text(task_id@)]);
        }
        Request::Call { name: "xackdel".to_owned(), keys: self.keys(), args }
    }

    /// The request that claims up to `limit` entries.
    fn claim(&self, limit: u32) -> (request: Request)
        ensures
            request@ == claim_request(self@, limit),
    {
        let mut keys: Vec<String> = self.keys();
        let ghost shared = keys@;
        keys.push(self.client().consumer().to_owned());
        let mut args: Vec<Arg> = Vec::new();
        args.push(Arg::Int(self.client().pending() as u64));
        args.push(Arg::Int(limit as u64));
        proof {
            assert(text_views(shared).len() == 2);
            assert(text_views(shared)[0] == shared[0]@);
            assert(text_views(shared)[1] == shared[1]@);
            assert(text_views(keys@) =~= seq![self@.name, self@.c.group, self@.c.consumer]);
            assert(arg_views(args@) =~= seq![
                ArgView::Int(self@.c.pending as u64),
                ArgView::Int(limit as u64),
            ]);
        }
        Request::Call { name: "xpendclaim".to_owned(), keys, args }
    }

    /// Begins a claim of up to `limit` entries that have been pending for
    /// too long, on whichever consumer of the group.
    ///
    /// Rolls the dice: one claim in as many as the client says begins by
    /// tidying up. Which claim does is left to the dice, but where the
    /// client says one in one, it is this one.
    pub fn xpendclaim(&self, limit: u32) -> (start: ClaimStart)
        ensures
            start@ == ClaimStartView::Clean(clean_request(self@)) || start@
                == ClaimStartView::Claim(claim_request(self@, limit)),
            self@.c.clean_odds == 1 ==> start@ == ClaimStartView::Clean(clean_request(self@)),
    {
        let drawn: u32 = draw_below(self.client().clean_odds());
        self.xpendclaim_drawn(limit, drawn)
    }

    /// Begins a claim of up to `limit` entries, the dice showing `drawn`.
    pub fn xpendclaim_drawn(&self, limit: u32, drawn: u32) -> (start: ClaimStart)
        ensures
            start@ == spec_claim_start(self@, limit, drawn),
    {
        if drawn == 0 {
            ClaimStart::Clean(self.xclean())
        } else {
            ClaimStart::Claim(self.claim(limit))
        }
    }

    /// Goes on with a claim after tidying up: with the claim of up to
    /// `limit` entries, unless tidying up failed.
    pub fn xpendclaim_cleaned(&self, limit: u32, reply: CallReply) -> (r: Result<
        Request,
        ClaimError,
    >)
        ensures
            request_view(r) == spec_claim_cleaned(self@, limit, call_reply_view(reply)),
    {
        match reply {
            Ok(_) => Ok(self.claim(limit)),
            Err(e) => Err(ClaimError::Clean(e)),
        }
    }

    /// Ends a claim: the entries that the store handed over, in the
    /// store's order, or `None` where it handed over none.
    pub fn xpendclaim_claimed(&self, reply: CallReply) -> (r: Result<
        Option<Vec<ClaimedEntry>>,
        ClaimError,
    >)
        ensures
            claimed_view(r) == spec_claim_claimed(call_reply_view(reply)),
    {
        match reply {
            Err(e) => Err(ClaimError::Store(e)),
            Ok(None) => Ok(None),
            Ok(Some(buf)) => match decode_claims(buf.as_slice()) {
                Ok(claimed) => Ok(claimed),
                Err(e) => Err(ClaimError::Malformed(e)),
            },
        }
    }

    /// The request that reads up to `count` entries that no consumer of
    /// the group has been handed yet.
    fn read(&self, count: u64) -> (request: Request)
        ensures
            request@ == read_request(self@, count),
    {
        Request::GroupRead {
            group: self.client().group().to_owned(),
            consumer: self.client().consumer().to_owned(),
            count,
            block: self.client().block(),
            no_ack: false,
            stream: self.name().to_owned(),
            cursor: Xid::NewInGroup,
        }
    }

    /// Begins a read of up to `count` new entries.
    pub fn xnext(&self, count: u64) -> (request: Request)
        ensures
            request@ == read_request(self@, count),
    {
        self.read(count)
    }

    /// Goes on with a read after its first answer.
    pub fn xnext_read(&self, reply: ReadReply) -> (step: NextStep)
        ensures
            step@ == spec_xnext_read(self@, read_reply_view(reply)),
    {
        match reply {
            Ok(parts) => NextStep::Done(Ok(flatten(parts))),
            Err(e) => {
                if e.group_missing() {
                    NextStep::CreateGroup(
                        Request::GroupCreate {
                            stream: self.name().to_owned(),
                            group: self.client().group().to_owned(),
                            start: Xid::Manual("0".to_owned()),
                            make_stream: true,
                        },
                    )
                } else {
                    NextStep::Done(Err(e))
                }
            },
        }
    }

    /// Goes on with a read of up to `count` entries after the creation of
    /// the group: with the read again where the group now stands, be it
    /// that the creation succeeded or that another consumer was faster and
    /// the store says that the group exists already. Every other failure of
    /// the creation ends the read.
    pub fn xnext_created(&self, count: u64, reply: CreateReply) -> (r: Result<Request, StoreError>)
        ensures
            request_view(r) == spec_xnext_created(self@, count, reply),
            group_stands(reply) <==> r is Ok,
    {
        match reply {
            Ok(_) => Ok(self.read(count)),
            Err(e) => {
                if e.group_exists() {
                    Ok(self.read(count))
                } else {
                    Err(e)
                }
            },
        }
    }

    /// Ends a read with the answer to its second request. A group that is
    /// missing still is a failure like every other.
    pub fn xnext_retry(&self, reply: ReadReply) -> (r: Result<Vec<Entry>, StoreError>)
        ensures
            entries_view(r) == spec_xnext_retry(read_reply_view(reply)),
    {
        match reply {
            Ok(parts) => Ok(flatten(parts)),
            Err(e) => Err(e),
        }
    }
}

impl Client {
    /// Begins a read of up to `count` new entries of `stream`; the steps
    /// that follow are those of the stream's handle.
    pub fn xnext(&self, stream: &str, count: u64) -> (request: Request)
        ensures
            request@ == read_request(StreamView { c: self@, name: stream@ }, count),
    {
        self.stream(stream.to_owned()).xnext(count)
    }

    /// Begins a claim of up to `limit` entries of `stream`; the steps that
    /// follow are those of the stream's handle.
    pub fn xpendclaim(&self, stream: &str, limit: u32) -> (start: ClaimStart)
        ensures
            ({
                let s = StreamView { c: self@, name: stream@ };
                &&& start@ == ClaimStartView::Clean(clean_request(s)) || start@
                    == ClaimStartView::Claim(claim_request(s, limit))
                &&& self@.clean_odds == 1 ==> start@ == ClaimStartView::Clean(clean_request(s))
            }),
    {
        self.stream(stream.to_owned()).xpendclaim(limit)
    }
}

} // verus!
