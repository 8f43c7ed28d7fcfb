use alternet::address::{Address, Component};
use alternet::behaviour::{Behaviour, Lookups, QueryOutcome, Request, Action, ResolveFailure, respond};
use alternet::dial::{plan_dial, Dial};
use alternet::name::Name;
use alternet::record::{AddrRecord, Error as RecordError, Record, Signed};
use alternet::transport::{AlternetOptions, Error, Transport, WithAlternetExt};
use alternet::validate::StoreRecord;
use libp2p_identity::Keypair;

fn other(tag: u8) -> Component {
    Component::Other(vec![tag])
}

fn addr(parts: Vec<Component>) -> Address {
    Address { components: parts }
}

fn tags(a: &Address) -> Vec<String> {
    a.components
        .iter()
        .map(|c| match c {
            Component::Domain(d) => format!("dns({})", d),
            Component::Peer(p) => format!("p2p({:?})", p),
            Component::Circuit => "circuit".to_string(),
            Component::Other(o) => format!("o{}", o[0]),
        })
        .collect()
}

#[test]
fn listen_rewrites_marker_and_registers_once() {
    let local = vec![7u8, 7];
    let mut t = Transport::new(local.clone());
    let a = addr(vec![other(1), other(2), Component::Domain("example.an".to_string())]);
    let plan = t.listen_on::<()>(1, a).unwrap();
    assert_eq!(tags(&plan.address), vec!["o1", "o2", "p2p([7, 7])"]);
    assert_eq!(plan.register, Some("example.an".to_string()));
    let b = addr(vec![other(3), Component::Domain("example.an".to_string())]);
    let plan = t.listen_on::<()>(2, b).unwrap();
    assert_eq!(tags(&plan.address), vec!["o3", "p2p([7, 7])"]);
    assert_eq!(plan.register, None);
    assert_eq!(t.remove_listener(1), Some("example.an".to_string()));
    assert_eq!(t.remove_listener(1), None);
    let c = addr(vec![Component::Domain("example.an".to_string())]);
    assert_eq!(t.listen_on::<()>(3, c).unwrap().register, None);
    let d = addr(vec![Component::Domain("other.an".to_string())]);
    assert_eq!(t.listen_on::<()>(4, d).unwrap().register, Some("other.an".to_string()));
}

#[test]
fn listen_without_marker_passes_through() {
    let mut t = Transport::new(vec![1]);
    let plan = t.listen_on::<()>(1, addr(vec![other(1), other(2)])).unwrap();
    assert_eq!(tags(&plan.address), vec!["o1", "o2"]);
    assert_eq!(plan.register, None);
}

#[test]
fn listen_marker_position_rules() {
    let mut t = Transport::new(vec![1]);
    let two = addr(vec![Component::Domain("a.an".into()), other(1), Component::Domain("b.an".into())]);
    match t.listen_on::<()>(1, two) {
        Err(Error::MultiaddrNotSupported(a)) => assert_eq!(tags(&a), vec!["dns(a.an)", "o1", "dns(b.an)"]),
        other => panic!("unexpected {:?}", other),
    }
    let before_circuit = addr(vec![Component::Domain("relay.an".into()), Component::Circuit, Component::Domain("me.an".into())]);
    let plan = t.listen_on::<()>(2, before_circuit).unwrap();
    assert_eq!(tags(&plan.address), vec!["dns(relay.an)", "circuit", "p2p([1])"]);
    assert_eq!(plan.register, Some("me.an".to_string()));
}

#[test]
fn with_an_appends_marker() {
    let a = addr(vec![other(4)]).with_an("coolblog.pets");
    assert_eq!(tags(&a), vec!["o4", "dns(coolblog.pets)"]);
    assert!(!AlternetOptions::default().relay);
}

#[test]
fn dial_odometer_two_by_three() {
    let a = addr(vec![
        other(1),
        Component::Domain("x.an".into()),
        other(2),
        Component::Domain("y.an".into()),
        other(3),
    ]);
    let plan = plan_dial(&a);
    assert_eq!(tags(&plan.start), vec!["o1"]);
    assert_eq!(plan.slots.len(), 2);
    assert_eq!(plan.slots[0].domain, "x.an");
    assert_eq!(tags(&plan.slots[0].rest), vec!["o2"]);
    assert_eq!(plan.slots[1].domain, "y.an");
    assert_eq!(tags(&plan.slots[1].rest), vec!["o3"]);
    let cands = vec![
        vec![addr(vec![other(10)]), addr(vec![other(11)])],
        vec![addr(vec![other(20)]), addr(vec![other(21)]), addr(vec![other(22)])],
    ];
    let mut dial = Dial::<u32>::new(&plan, &cands).unwrap();
    let mut tried = Vec::new();
    let mut n: u32 = 0;
    while let Some(next) = dial.next_address() {
        tried.push(tags(&next).join("/"));
        dial.record_failure(Error::Transport(n));
        n += 1;
    }
    assert_eq!(
        tried,
        vec![
            "o1/o10/o2/o20/o3",
            "o1/o10/o2/o21/o3",
            "o1/o10/o2/o22/o3",
            "o1/o11/o2/o20/o3",
            "o1/o11/o2/o21/o3",
            "o1/o11/o2/o22/o3",
        ]
    );
    match dial.into_error() {
        Error::Dial(errs) => {
            let codes: Vec<u32> = errs
                .iter()
                .map(|e| match e {
                    Error::Transport(c) => *c,
                    _ => panic!("unexpected error"),
                })
                .collect();
            assert_eq!(codes, vec![0, 1, 2, 3, 4, 5]);
        }
        other => panic!("unexpected {:?}", other),
    }
}

#[test]
fn dial_without_candidates_fails() {
    let a = addr(vec![Component::Domain("x.an".into())]);
    let plan = plan_dial(&a);
    let cands: Vec<Vec<Address>> = vec![vec![]];
    assert!(matches!(Dial::<u32>::new(&plan, &cands), Err(Error::ResolveError(_))));
    let direct = plan_dial(&addr(vec![other(5)]));
    let mut d = Dial::<u32>::new(&direct, &vec![]).unwrap();
    assert_eq!(tags(&d.next_address().unwrap()), vec!["o5"]);
    assert!(d.next_address().is_none());
}

#[test]
fn concurrent_lookups_do_not_cross() {
    let mut l: Lookups<&str> = Lookups::new();
    assert_eq!(l.start(1, "first"), None);
    assert_eq!(l.start(2, "second"), None);
    assert_eq!(l.progress(2, false), None);
    assert!(l.is_pending(2));
    assert_eq!(l.progress(2, true), Some("second"));
    assert!(l.is_pending(1));
    assert_eq!(l.progress(1, true), Some("first"));
    assert_eq!(l.progress(1, true), None);
    assert_eq!(l.start(3, "a"), None);
    assert_eq!(l.start(3, "b"), Some("a"));
}

#[test]
fn behaviour_answers_each_lookup_from_its_outcome() {
    let k = Keypair::generate_ed25519();
    let domain = Name::from_ascii(b"an").unwrap();
    let mut b: Behaviour<u8> = Behaviour::new();
    let key = match b.on_request::<()>(Request::Resolve { domain, responder: 1 }) {
        Action::GetRecord { key, responder } => {
            assert_eq!(responder, 1);
            key
        }
        _ => panic!("expected a lookup"),
    };
    let mut expected = vec![7u8];
    expected.extend_from_slice(b"addr:an");
    assert_eq!(key, expected);
    assert_eq!(b.start_lookup(10, 1), None);
    assert_eq!(b.start_lookup(11, 2), None);
    let a1 = "/ip4/10.0.0.9/tcp/9".parse::<multiaddr::Multiaddr>().unwrap().to_vec();
    let r = Record::Addr(AddrRecord { domain: Name::from_ascii(b"an").unwrap(), addrs: vec![a1.clone()] });
    let signature = k.sign(&r.signing_bytes()).unwrap();
    let s = Signed { signed: r, pubkey: k.public().encode_protobuf(), signature };
    let found = QueryOutcome::Found(StoreRecord {
        key: s.signed.key(),
        value: s.encode(),
        publisher: Some(k.public().to_peer_id().to_bytes()),
        expires: None,
    });
    assert_eq!(b.on_query_progress(11, false, QueryOutcome::Failed, 0, 0), None);
    let (who, resp) = b.on_query_progress(11, true, QueryOutcome::Failed, 0, 0).unwrap();
    assert_eq!((who, resp), (2, Err(ResolveFailure::QueryFailed)));
    assert_eq!(b.on_query_progress(10, false, found, 0, 0), None);
    assert_eq!(b.on_query_progress(12, true, QueryOutcome::NotFound, 0, 0), None);
    let (who, resp) = b.on_query_progress(10, true, QueryOutcome::NotFound, 0, 0).unwrap();
    assert_eq!((who, resp), (1, Ok(vec![a1])));
    assert_eq!(b.on_query_progress(10, true, QueryOutcome::NotFound, 0, 0), None);
    assert_eq!(respond(&QueryOutcome::NotFound, 0, 0), Ok(vec![]));
    let bad = QueryOutcome::Found(StoreRecord { key: vec![1], value: vec![2], publisher: None, expires: None });
    assert_eq!(respond(&bad, 0, 0), Err(ResolveFailure::Invalid(RecordError::KeyMismatch)));
}
