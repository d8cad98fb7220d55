use std::collections::{BTreeMap, BTreeSet};
use xsm::{
    Arg, CallReply, ClaimError, ClaimStart, ClaimedEntry, Client, CreateReply, Entry, ErrorKind,
    NextStep, ReadReply, Request, Server, StoreError, Stream, StreamEntries, Xid,
};

type Id = (u64, u64);

struct Pending {
    consumer: String,
    idle: u64,
    retry: u64,
}

struct Group {
    cursor: Id,
    pending: BTreeMap<Id, Pending>,
}

struct Log {
    entries: BTreeMap<Id, Vec<(Vec<u8>, Vec<u8>)>>,
    groups: BTreeMap<String, Group>,
    last: Id,
}

/// A stream store in memory: as much of it as the queue uses.
struct Store {
    logs: BTreeMap<String, Log>,
    clock: u64,
    sent: Vec<Request>,
}

fn text(id: Id) -> String {
    format!("{}-{}", id.0, id.1)
}

fn id_of(text: &str) -> Id {
    let (ms, seq) = text.split_once('-').unwrap();
    (ms.parse().unwrap(), seq.parse().unwrap())
}

fn busy_group() -> StoreError {
    StoreError {
        kind: ErrorKind::Unknown,
        details: "BUSYGROUP Consumer Group name already exists".to_string(),
    }
}

fn no_group(stream: &str, group: &str) -> StoreError {
    StoreError {
        kind: ErrorKind::Unknown,
        details: format!(
            "NOGROUP No such key '{stream}' or consumer group '{group}' in XREADGROUP with GROUP option"
        ),
    }
}

impl Store {
    fn new() -> Store {
        Store { logs: BTreeMap::new(), clock: 1000, sent: Vec::new() }
    }

    fn pass(&mut self, ms: u64) {
        self.clock += ms;
        for log in self.logs.values_mut() {
            for group in log.groups.values_mut() {
                for pending in group.pending.values_mut() {
                    pending.idle += ms;
                }
            }
        }
    }

    fn append(&mut self, request: Request) -> Result<String, StoreError> {
        self.sent.push(request.clone());
        let Request::Append { stream, no_make_stream, id, fields } = request else {
            panic!("no append");
        };
        assert_eq!(id, Xid::Auto);
        assert!(!no_make_stream);
        let clock = self.clock;
        let log = self.logs.entry(stream).or_insert_with(|| Log {
            entries: BTreeMap::new(),
            groups: BTreeMap::new(),
            last: (0, 0),
        });
        let next = if log.last.0 >= clock { (log.last.0, log.last.1 + 1) } else { (clock, 0) };
        log.last = next;
        log.entries.insert(next, fields);
        Ok(text(next))
    }

    fn read(&mut self, request: Request) -> ReadReply {
        self.sent.push(request.clone());
        let Request::GroupRead { group, consumer, count, no_ack, stream, cursor, .. } = request
        else {
            panic!("no read");
        };
        assert_eq!(cursor, Xid::NewInGroup);
        let Some(log) = self.logs.get_mut(&stream) else {
            return Err(no_group(&stream, &group));
        };
        let Some(state) = log.groups.get_mut(&group) else {
            return Err(no_group(&stream, &group));
        };
        let mut entries: Vec<Entry> = Vec::new();
        for (id, fields) in log.entries.iter() {
            if *id > state.cursor && (entries.len() as u64) < count {
                entries.push(Entry { id: text(*id), fields: fields.clone() });
                state.cursor = *id;
                if !no_ack {
                    state.pending.insert(
                        *id,
                        Pending { consumer: consumer.clone(), idle: 0, retry: 0 },
                    );
                }
            }
        }
        if entries.is_empty() {
            Ok(vec![])
        } else {
            Ok(vec![StreamEntries { stream: stream.into_bytes(), entries }])
        }
    }

    fn create(&mut self, request: Request) -> CreateReply {
        self.sent.push(request.clone());
        let Request::GroupCreate { stream, group, start, make_stream } = request else {
            panic!("no creation");
        };
        if !self.logs.contains_key(&stream) && !make_stream {
            return Err(StoreError {
                kind: ErrorKind::Unknown,
                details: "ERR The XGROUP subcommand requires the key to exist.".to_string(),
            });
        }
        let log = self.logs.entry(stream).or_insert_with(|| Log {
            entries: BTreeMap::new(),
            groups: BTreeMap::new(),
            last: (0, 0),
        });
        let cursor = match start {
            Xid::Manual(at) if at == "0" => (0, 0),
            Xid::Manual(at) => id_of(&at),
            Xid::Max => log.last,
            _ => panic!("no place to start"),
        };
        if log.groups.contains_key(&group) {
            return Err(busy_group());
        }
        log.groups.insert(group, Group { cursor, pending: BTreeMap::new() });
        Ok(())
    }

    fn call(&mut self, request: Request) -> CallReply {
        self.sent.push(request.clone());
        let Request::Call { name, keys, args } = request else {
            panic!("no call");
        };
        let log = self.logs.get_mut(&keys[0]).unwrap();
        let group = log.groups.get_mut(&keys[1]).unwrap();
        match name.as_str() {
            "xconsumerclean" => {
                assert_eq!(args, vec![Arg::Int(604800000)]);
                Ok(None)
            }
            "xackdel" => {
                let [Arg::Text(id)] = args.as_slice() else {
                    panic!("no identifier");
                };
                group.pending.remove(&id_of(id));
                log.entries.remove(&id_of(id));
                Ok(None)
            }
            "xpendclaim" => {
                let [Arg::Int(age), Arg::Int(limit)] = args.as_slice() else {
                    panic!("no threshold and limit");
                };
                let mut numbers: Vec<u64> = Vec::new();
                let mut payload: Vec<u8> = Vec::new();
                for (id, pending) in group.pending.iter_mut() {
                    if pending.idle > *age && (numbers.len() as u64) < 5 * *limit {
                        let (key, val) = &log.entries[id][0];
                        pending.consumer = keys[2].clone();
                        pending.idle = 0;
                        pending.retry += 1;
                        numbers.extend([
                            pending.retry,
                            id.0,
                            id.1,
                            key.len() as u64,
                            val.len() as u64,
                        ]);
                        payload.extend_from_slice(key);
                        payload.extend_from_slice(val);
                    }
                }
                if numbers.is_empty() {
                    return Ok(Some(vec![]));
                }
                let mut packed: Vec<u8> = Vec::new();
                msgpacker::pack_array_slice(&mut packed, &numbers);
                let length = xsm::u64_bin(packed.len() as u64);
                let mut reply = vec![length.len() as u8];
                reply.extend_from_slice(&length);
                reply.extend_from_slice(&packed);
                reply.extend_from_slice(&payload);
                Ok(Some(reply))
            }
            _ => Err(StoreError {
                kind: ErrorKind::Unknown,
                details: "ERR Function not found".to_string(),
            }),
        }
    }

    fn owner(&self, stream: &str, group: &str, id: Id) -> Option<&str> {
        self.logs[stream].groups[group].pending.get(&id).map(|p| p.consumer.as_str())
    }
}

fn worker(name: &str) -> Stream {
    Client::conn(
        Server::host_port("127.0.0.1".to_string(), 6379),
        None,
        None,
        Some(60000),
        180000,
        "C".to_string(),
        name.to_string(),
    )
    .1
    .stream("orders".to_string())
}

fn add(store: &mut Store, val: &[u8]) -> String {
    let request = worker("producer").client().xadd("orders", vec![(b"k".to_vec(), val.to_vec())]);
    store.append(request).unwrap()
}

fn next(store: &mut Store, stream: &Stream, count: u64) -> Result<Vec<Entry>, StoreError> {
    let first = stream.xnext(count);
    match stream.xnext_read(store.read(first)) {
        NextStep::Done(result) => result,
        NextStep::CreateGroup(create) => {
            let again = stream.xnext_created(count, store.create(create))?;
            stream.xnext_retry(store.read(again))
        }
    }
}

fn claim(
    store: &mut Store,
    stream: &Stream,
    limit: u32,
    drawn: u32,
) -> Result<Option<Vec<ClaimedEntry>>, ClaimError> {
    let request = match stream.xpendclaim_drawn(limit, drawn) {
        ClaimStart::Clean(clean) => stream.xpendclaim_cleaned(limit, store.call(clean))?,
        ClaimStart::Claim(request) => request,
    };
    stream.xpendclaim_claimed(store.call(request))
}

fn values(entries: &[Entry]) -> Vec<Vec<u8>> {
    entries.iter().map(|e| e.fields[0].1.clone()).collect()
}

#[test]
fn hello_is_read_once_and_gone_after_xackdel() {
    let mut store = Store::new();
    let me = worker("w1");
    let id = add(&mut store, b"hello");
    let got = next(&mut store, &me, 1).unwrap();
    assert_eq!(got.len(), 1);
    assert_eq!(got[0].id, id);
    assert_eq!(got[0].fields, vec![(b"k".to_vec(), b"hello".to_vec())]);
    assert_eq!(store.call(me.xackdel(&got[0].id)), Ok(None));
    assert!(!store.logs["orders"].entries.contains_key(&id_of(&id)));
    assert_eq!(next(&mut store, &me, 1), Ok(vec![]));
    assert_eq!(next(&mut store, &worker("w2"), 1), Ok(vec![]));
}

#[test]
fn first_read_creates_the_group_and_starts_at_the_beginning() {
    let mut store = Store::new();
    for val in [b"one", b"two"] {
        add(&mut store, val);
    }
    store.pass(5);
    add(&mut store, b"three");
    let me = worker("w1");
    let got = next(&mut store, &me, 10).unwrap();
    assert_eq!(values(&got), vec![b"one".to_vec(), b"two".to_vec(), b"three".to_vec()]);
    let asked: Vec<Request> = store.sent[3..].to_vec();
    assert_eq!(asked.len(), 3);
    assert_eq!(asked[0], me.xnext(10));
    assert_eq!(
        asked[1],
        Request::GroupCreate {
            stream: "orders".to_string(),
            group: "C".to_string(),
            start: Xid::Manual("0".to_string()),
            make_stream: true,
        },
    );
    assert_eq!(asked[2], me.xnext(10));
}

#[test]
fn read_after_the_first_sends_one_request() {
    let mut store = Store::new();
    add(&mut store, b"one");
    let me = worker("w1");
    next(&mut store, &me, 10).unwrap();
    add(&mut store, b"two");
    let before = store.sent.len();
    let got = next(&mut store, &me, 10).unwrap();
    assert_eq!(values(&got), vec![b"two".to_vec()]);
    assert_eq!(store.sent[before..].to_vec(), vec![me.xnext(10)]);
}

#[test]
fn first_read_of_a_stream_that_is_not_there_is_empty() {
    let mut store = Store::new();
    let me = worker("w1");
    assert_eq!(next(&mut store, &me, 10), Ok(vec![]));
    assert!(store.logs["orders"].groups.contains_key("C"));
    add(&mut store, b"late");
    assert_eq!(values(&next(&mut store, &me, 10).unwrap()), vec![b"late".to_vec()]);
}

#[test]
fn read_takes_no_more_than_it_was_asked_for() {
    let mut store = Store::new();
    for val in [b"1", b"2", b"3", b"4", b"5"] {
        add(&mut store, val);
    }
    let me = worker("w1");
    assert_eq!(values(&next(&mut store, &me, 2).unwrap()), vec![b"1".to_vec(), b"2".to_vec()]);
    assert_eq!(values(&next(&mut store, &me, 2).unwrap()), vec![b"3".to_vec(), b"4".to_vec()]);
    assert_eq!(values(&next(&mut store, &me, 2).unwrap()), vec![b"5".to_vec()]);
    assert_eq!(next(&mut store, &me, 2), Ok(vec![]));
}

#[test]
fn creating_the_group_again_is_no_failure_and_keeps_the_cursor() {
    let mut store = Store::new();
    add(&mut store, b"one");
    add(&mut store, b"two");
    let me = worker("w1");
    assert_eq!(values(&next(&mut store, &me, 1).unwrap()), vec![b"one".to_vec()]);
    let create = match me.xnext_read(Err(no_group("orders", "C"))) {
        NextStep::CreateGroup(create) => create,
        NextStep::Done(_) => panic!("the group was not created"),
    };
    let answer = store.create(create);
    assert_eq!(answer, Err(busy_group()));
    let again = me.xnext_created(10, answer).unwrap();
    assert_eq!(again, me.xnext(10));
    assert_eq!(values(&me.xnext_retry(store.read(again)).unwrap()), vec![b"two".to_vec()]);
    assert_eq!(store.logs["orders"].groups["C"].pending.len(), 2);
}

#[test]
fn two_consumers_that_find_no_group_both_read() {
    let mut store = Store::new();
    for val in [b"1", b"2", b"3"] {
        add(&mut store, val);
    }
    let fast = worker("w1");
    let slow = worker("w2");
    let fast_create = match fast.xnext_read(store.read(fast.xnext(2))) {
        NextStep::CreateGroup(create) => create,
        NextStep::Done(_) => panic!("there was a group"),
    };
    let slow_create = match slow.xnext_read(store.read(slow.xnext(2))) {
        NextStep::CreateGroup(create) => create,
        NextStep::Done(_) => panic!("there was a group"),
    };
    let fast_answer = store.create(fast_create);
    assert_eq!(fast_answer, Ok(()));
    let fast_again = fast.xnext_created(2, fast_answer).unwrap();
    let fast_got = fast.xnext_retry(store.read(fast_again)).unwrap();
    assert_eq!(values(&fast_got), vec![b"1".to_vec(), b"2".to_vec()]);
    let slow_answer = store.create(slow_create);
    assert_eq!(slow_answer, Err(busy_group()));
    let slow_again = slow.xnext_created(2, slow_answer).unwrap();
    let slow_got = slow.xnext_retry(store.read(slow_again)).unwrap();
    assert_eq!(values(&slow_got), vec![b"3".to_vec()]);
    assert_eq!(store.owner("orders", "C", id_of(&fast_got[0].id)), Some("w1"));
    assert_eq!(store.owner("orders", "C", id_of(&slow_got[0].id)), Some("w2"));
}

#[test]
fn creation_that_fails_otherwise_ends_the_read() {
    let mut store = Store::new();
    let me = worker("w1");
    let create = match me.xnext_read(store.read(me.xnext(1))) {
        NextStep::CreateGroup(create) => create,
        NextStep::Done(_) => panic!("there was a group"),
    };
    let Request::GroupCreate { stream, group, start, .. } = create else {
        panic!("no creation");
    };
    let answer = store.create(Request::GroupCreate { stream, group, start, make_stream: false });
    assert!(answer.is_err());
    assert_eq!(me.xnext_created(1, answer.clone()), Err(answer.unwrap_err()));
}

#[test]
fn entries_go_to_one_consumer_of_the_group_each() {
    let mut store = Store::new();
    for val in [b"1", b"2", b"3", b"4"] {
        add(&mut store, val);
    }
    let first = next(&mut store, &worker("w1"), 3).unwrap();
    let second = next(&mut store, &worker("w2"), 3).unwrap();
    assert_eq!(values(&first), vec![b"1".to_vec(), b"2".to_vec(), b"3".to_vec()]);
    assert_eq!(values(&second), vec![b"4".to_vec()]);
    assert_eq!(store.owner("orders", "C", id_of(&first[0].id)), Some("w1"));
    assert_eq!(store.owner("orders", "C", id_of(&second[0].id)), Some("w2"));
}

#[test]
fn claim_before_the_threshold_finds_nothing() {
    let mut store = Store::new();
    add(&mut store, b"one");
    next(&mut store, &worker("w1"), 1).unwrap();
    store.pass(180000);
    assert_eq!(claim(&mut store, &worker("w2"), 10, 1), Ok(None));
}

#[test]
fn claim_takes_over_what_lay_too_long() {
    let mut store = Store::new();
    let id = add(&mut store, b"one");
    next(&mut store, &worker("w1"), 1).unwrap();
    store.pass(180001);
    let got = claim(&mut store, &worker("w2"), 10, 1).unwrap().unwrap();
    assert_eq!(got.len(), 1);
    assert_eq!(got[0].retry, 1);
    assert_eq!((got[0].t0, got[0].t1), id_of(&id));
    assert_eq!(got[0].id(), id);
    assert_eq!(got[0].key, b"k".to_vec());
    assert_eq!(got[0].val, b"one".to_vec());
    assert_eq!(store.owner("orders", "C", id_of(&id)), Some("w2"));
    assert_eq!(store.call(worker("w2").xackdel(&got[0].id())), Ok(None));
    assert_eq!(store.owner("orders", "C", id_of(&id)), None);
    store.pass(180001);
    assert_eq!(claim(&mut store, &worker("w3"), 10, 1), Ok(None));
}

#[test]
fn claimers_split_what_is_pending_and_retries_grow() {
    let mut store = Store::new();
    let mut eligible: BTreeSet<String> = BTreeSet::new();
    for n in 0..7u8 {
        eligible.insert(add(&mut store, &[n]));
        store.pass(n as u64 % 2);
    }
    assert_eq!(next(&mut store, &worker("crashed"), 100).unwrap().len(), 7);
    let fresh = add(&mut store, b"fresh");
    assert_eq!(next(&mut store, &worker("alive"), 100).unwrap().len(), 1);
    store.pass(180001);
    assert_eq!(store.call(worker("alive").xackdel(&fresh)), Ok(None));

    let mut seen: BTreeMap<String, u64> = BTreeMap::new();
    for name in ["w1", "w2", "w3", "w4"] {
        let got = claim(&mut store, &worker(name), 3, 1).unwrap();
        for entry in got.unwrap_or_default() {
            assert_eq!(store.owner("orders", "C", (entry.t0, entry.t1)), Some(name));
            assert_eq!(seen.insert(entry.id(), entry.retry), None);
        }
    }
    assert_eq!(seen.keys().cloned().collect::<BTreeSet<String>>(), eligible);
    assert!(seen.values().all(|retry| *retry == 1));

    store.pass(180001);
    let again = claim(&mut store, &worker("w5"), 100, 1).unwrap().unwrap();
    assert_eq!(again.len(), 7);
    for entry in again {
        assert!(entry.retry > seen[&entry.id()]);
    }
}

#[test]
fn claim_that_tidies_up_first_claims_afterwards() {
    let mut store = Store::new();
    add(&mut store, b"one");
    next(&mut store, &worker("w1"), 1).unwrap();
    store.pass(180001);
    let me = worker("w2");
    let before = store.sent.len();
    let got = claim(&mut store, &me, 10, 0).unwrap().unwrap();
    assert_eq!(got.len(), 1);
    let asked: Vec<Request> = store.sent[before..].to_vec();
    assert_eq!(asked.len(), 2);
    assert_eq!(asked[0], me.xclean());
    match me.xpendclaim_drawn(10, 1) {
        ClaimStart::Claim(request) => assert_eq!(asked[1], request),
        ClaimStart::Clean(_) => panic!("the claim tidied up"),
    }
}

#[test]
fn failed_read_sends_nothing_more() {
    let me = worker("w1");
    let down = StoreError { kind: ErrorKind::Timeout, details: "timed out".to_string() };
    match me.xnext_read(Err(down.clone())) {
        NextStep::Done(result) => assert_eq!(result, Err(down)),
        NextStep::CreateGroup(_) => panic!("a group was created"),
    }
}
