use alternet::codec::{push_varint, read_varint};
use alternet::name::Name;
use alternet::record::{AddrRecord, Error, LeaseRecord, Record, RootRecord, Signed};
use alternet::validate::{
    from_kad_validated, StoreRecord, EXPIRED_LEEWAY_NANOS, REPUBLISH_INTERVAL_NANOS,
};
use libp2p_identity::Keypair;

const NOW: u64 = 1_000_000_000_000;
const WALL: u64 = 1_700_000_000_000_000_000;
const SECOND: u64 = 1_000_000_000;

fn name(s: &str) -> Name {
    Name::from_ascii(s.as_bytes()).unwrap()
}

fn maddr(s: &str) -> Vec<u8> {
    s.parse::<multiaddr::Multiaddr>().unwrap().to_vec()
}

fn peer(k: &Keypair) -> Vec<u8> {
    k.public().to_peer_id().to_bytes()
}

fn sign(k: &Keypair, r: Record) -> Signed<Record> {
    let signature = k.sign(&r.signing_bytes()).unwrap();
    Signed { signed: r, pubkey: k.public().encode_protobuf(), signature }
}

fn sign_lease(k: &Keypair, l: LeaseRecord) -> Signed<LeaseRecord> {
    let mut body = Vec::new();
    l.encode_into(&mut body);
    let signature = k.sign(&body).unwrap();
    Signed { signed: l, pubkey: k.public().encode_protobuf(), signature }
}

fn stored(top: &Signed<Record>, leases: &Vec<Signed<LeaseRecord>>, publisher: &Keypair, expires: Option<u64>) -> StoreRecord {
    StoreRecord {
        key: top.signed.key(),
        value: alternet::record::encode_chain(top, leases),
        publisher: Some(peer(publisher)),
        expires,
    }
}

fn root_record(k: &Keypair) -> Signed<Record> {
    sign(k, Record::Root(RootRecord { root: name("an"), addr: maddr("/ip4/10.0.0.1/tcp/4001") }))
}

fn lease(holder: &Keypair, signer: &Keypair, sub: &str, until: u64) -> Signed<LeaseRecord> {
    sign_lease(signer, LeaseRecord { subdomain: name(sub), leasee: peer(holder), until })
}

#[test]
fn varint_exact_bytes() {
    let cases: Vec<(u64, Vec<u8>)> = vec![
        (0, vec![0]),
        (250, vec![250]),
        (251, vec![251, 251, 0]),
        (65535, vec![251, 255, 255]),
        (65536, vec![252, 0, 0, 1, 0]),
        (u64::MAX, vec![253, 255, 255, 255, 255, 255, 255, 255, 255]),
    ];
    for (v, bytes) in cases {
        let mut out = Vec::new();
        push_varint(&mut out, v);
        assert_eq!(out, bytes);
        assert_eq!(read_varint(&out, 0), Some((v, bytes.len())));
    }
    assert_eq!(read_varint(&[254u8, 0, 0], 0), None);
    assert_eq!(read_varint(&[252u8, 0, 0], 0), None);
}

#[test]
fn name_parsing_folds_case_and_rejects_bad_labels() {
    let n = name("WWW.Example.AN");
    assert_eq!(n.to_ascii(), b"www.example.an".to_vec());
    assert!(!n.is_root());
    assert_eq!(n.base_name().to_ascii(), b"example.an".to_vec());
    assert_eq!(n.base_name().base_name().to_ascii(), b"an".to_vec());
    assert!(n.base_name().base_name().is_root());
    assert!(Name::from_ascii(b"").is_none());
    assert!(Name::from_ascii(b"a..b").is_none());
    assert!(Name::from_ascii(b".a").is_none());
    assert!(Name::from_ascii(b"a.").is_none());
    assert!(Name::from_ascii(b"a_b").is_none());
}

#[test]
fn round_trip_every_kind() {
    let k = Keypair::generate_ed25519();
    let other = Keypair::generate_ed25519();
    let records = vec![
        Record::Root(RootRecord { root: name("an"), addr: maddr("/ip4/10.0.0.1/tcp/4001") }),
        Record::Lease(LeaseRecord { subdomain: name("example.an"), leasee: peer(&other), until: WALL }),
        Record::Addr(AddrRecord {
            domain: name("www.example.an"),
            addrs: vec![maddr("/ip4/10.0.0.2/tcp/1"), maddr("/ip6/::1/udp/2/quic-v1"), vec![]],
        }),
    ];
    for r in records {
        let s = sign(&k, r);
        let mut bytes = s.encode();
        let len = bytes.len();
        bytes.extend_from_slice(&[9, 9, 9]);
        let (d, end) = Signed::<Record>::decode(&bytes, 0).unwrap();
        assert_eq!(end, len);
        assert_eq!(format!("{:?}", d), format!("{:?}", s));
        assert_eq!(d.encode(), s.encode());
    }
}

#[test]
fn key_is_head_of_value() {
    let k = Keypair::generate_ed25519();
    let s = sign(&k, Record::Addr(AddrRecord { domain: name("example.an"), addrs: vec![] }));
    let key = s.signed.key();
    let mut expected = vec![15u8];
    expected.extend_from_slice(b"addr:example.an");
    assert_eq!(key, expected);
    assert!(s.encode().starts_with(&key));
    assert_eq!(alternet::behaviour::lookup_key(&name("example.an")), expected);
}

#[test]
fn valid_chain_is_accepted() {
    let root = Keypair::generate_ed25519();
    let mid = Keypair::generate_ed25519();
    let leaf = Keypair::generate_ed25519();
    let top = sign(&leaf, Record::Addr(AddrRecord {
        domain: name("www.example.an"),
        addrs: vec![maddr("/ip4/10.0.0.3/tcp/80")],
    }));
    let leases = vec![
        lease(&leaf, &mid, "www.example.an", WALL + SECOND),
        lease(&mid, &root, "example.an", WALL + SECOND),
    ];
    let rec = stored(&top, &leases, &leaf, None);
    let (got, chain) = from_kad_validated(&rec, NOW, WALL).unwrap();
    assert_eq!(format!("{:?}", got), format!("{:?}", top));
    assert_eq!(chain.len(), 2);
    assert_eq!(format!("{:?}", chain), format!("{:?}", leases));
}

#[test]
fn flipped_signature_byte_is_rejected() {
    let root = Keypair::generate_ed25519();
    let mid = Keypair::generate_ed25519();
    let leaf = Keypair::generate_ed25519();
    let top = sign(&leaf, Record::Addr(AddrRecord { domain: name("www.example.an"), addrs: vec![] }));
    let leases = vec![
        lease(&leaf, &mid, "www.example.an", WALL + SECOND),
        lease(&mid, &root, "example.an", WALL + SECOND),
    ];
    for which in 0..3 {
        let mut top2 = sign(&leaf, Record::Addr(AddrRecord { domain: name("www.example.an"), addrs: vec![] }));
        let mut leases2 = vec![
            lease(&leaf, &mid, "www.example.an", WALL + SECOND),
            lease(&mid, &root, "example.an", WALL + SECOND),
        ];
        match which {
            0 => top2.signature[0] ^= 1,
            1 => leases2[0].signature[5] ^= 0x80,
            _ => leases2[1].signature[63] ^= 1,
        }
        let rec = stored(&top2, &leases2, &leaf, None);
        assert_eq!(from_kad_validated(&rec, NOW, WALL).unwrap_err(), Error::InvalidSignature);
    }
    assert!(from_kad_validated(&stored(&top, &leases, &leaf, None), NOW, WALL).is_ok());
}

#[test]
fn lease_expiry_rules() {
    let root = Keypair::generate_ed25519();
    let holder = Keypair::generate_ed25519();
    let past = sign(&root, Record::Lease(LeaseRecord { subdomain: name("example.an"), leasee: peer(&holder), until: WALL - SECOND }));
    let rec = stored(&past, &vec![], &root, Some(NOW + SECOND));
    assert_eq!(from_kad_validated(&rec, NOW, WALL).unwrap_err(), Error::Expired(SECOND));

    let future = sign(&root, Record::Lease(LeaseRecord { subdomain: name("example.an"), leasee: peer(&holder), until: WALL + SECOND }));
    let rec = stored(&future, &vec![], &root, Some(NOW + SECOND));
    assert!(from_kad_validated(&rec, NOW, WALL).is_ok());

    let rec = stored(&future, &vec![], &root, Some(NOW + REPUBLISH_INTERVAL_NANOS + 1));
    assert_eq!(from_kad_validated(&rec, NOW, WALL).unwrap_err(), Error::TTLTooBig(1));
    let rec = stored(&future, &vec![], &root, Some(NOW + REPUBLISH_INTERVAL_NANOS));
    assert!(from_kad_validated(&rec, NOW, WALL).is_ok());

    let rec = stored(&future, &vec![], &root, None);
    assert_eq!(from_kad_validated(&rec, NOW, WALL).unwrap_err(), Error::NoExpiry);
    let rec = stored(&future, &vec![], &root, Some(NOW - EXPIRED_LEEWAY_NANOS - 7));
    assert_eq!(from_kad_validated(&rec, NOW, WALL).unwrap_err(), Error::Expired(7));
    let rec = stored(&future, &vec![], &root, Some(NOW - EXPIRED_LEEWAY_NANOS + 1));
    assert!(from_kad_validated(&rec, NOW, WALL).is_ok());
}

#[test]
fn key_binding_rejects_foreign_key() {
    let k = Keypair::generate_ed25519();
    let top = root_record(&k);
    let mut rec = stored(&top, &vec![], &k, None);
    assert!(from_kad_validated(&rec, NOW, WALL).is_ok());
    rec.key = b"root:other".to_vec();
    assert_eq!(from_kad_validated(&rec, NOW, WALL).unwrap_err(), Error::KeyMismatch);
    rec.key = vec![0; rec.value.len() + 1];
    assert_eq!(from_kad_validated(&rec, NOW, WALL).unwrap_err(), Error::KeyMismatch);
}

#[test]
fn root_claim_rules() {
    let k = Keypair::generate_ed25519();
    let other = Keypair::generate_ed25519();
    let top = root_record(&k);
    assert_eq!(from_kad_validated(&stored(&top, &vec![], &k, Some(NOW)), NOW, WALL).unwrap_err(), Error::UnexpectedExpiry);
    let mut rec = stored(&top, &vec![], &k, None);
    rec.publisher = None;
    assert_eq!(from_kad_validated(&rec, NOW, WALL).unwrap_err(), Error::NoPublisher);
    assert_eq!(from_kad_validated(&stored(&top, &vec![], &other, None), NOW, WALL).unwrap_err(), Error::WrongSigner);
    let mut rec = stored(&top, &vec![], &k, None);
    rec.value.push(0);
    assert_eq!(from_kad_validated(&rec, NOW, WALL).unwrap_err(), Error::MoreData);
}

#[test]
fn chain_errors() {
    let root = Keypair::generate_ed25519();
    let mid = Keypair::generate_ed25519();
    let leaf = Keypair::generate_ed25519();
    let top = sign(&leaf, Record::Addr(AddrRecord { domain: name("example.an"), addrs: vec![] }));
    let wrong = vec![lease(&mid, &root, "example.an", WALL + SECOND)];
    assert_eq!(from_kad_validated(&stored(&top, &wrong, &leaf, None), NOW, WALL).unwrap_err(), Error::WrongSigner);
    assert_eq!(from_kad_validated(&stored(&top, &vec![], &leaf, None), NOW, WALL).unwrap_err(), Error::Format);
    let mut rec = stored(&top, &vec![], &leaf, None);
    rec.value.extend_from_slice(&root_record(&root).encode());
    assert_eq!(from_kad_validated(&rec, NOW, WALL).unwrap_err(), Error::UnexpectedRecordType);
}

#[test]
fn decode_errors() {
    let k = Keypair::generate_ed25519();
    let mut unknown = Vec::new();
    alternet::codec::push_bytes_field(&mut unknown, b"dns:x.an");
    assert_eq!(Record::decode(&unknown, 0).unwrap_err(), Error::UnknownRecordType);
    let mut bad_name = Vec::new();
    alternet::codec::push_bytes_field(&mut bad_name, b"root:a..b");
    assert_eq!(Record::decode(&bad_name, 0).unwrap_err(), Error::Key);
    let mut bad_addr = Vec::new();
    alternet::codec::push_bytes_field(&mut bad_addr, b"root:an");
    alternet::codec::push_bytes_field(&mut bad_addr, &[0xff, 0xff, 0xff]);
    assert_eq!(Record::decode(&bad_addr, 0).unwrap_err(), Error::MultiAddr);
    let mut bad_peer = Vec::new();
    alternet::codec::push_bytes_field(&mut bad_peer, b"lease:x.an");
    alternet::codec::push_bytes_field(&mut bad_peer, &[1, 2, 3]);
    alternet::codec::push_varint(&mut bad_peer, 5);
    assert_eq!(Record::decode(&bad_peer, 0).unwrap_err(), Error::PeerId);
    let full = root_record(&k).encode();
    assert_eq!(Record::decode(&full[..3], 0).unwrap_err(), Error::Format);
    let body = root_record(&k).signed.signing_bytes();
    let mut bad_key = body.clone();
    alternet::codec::push_bytes_field(&mut bad_key, &[1, 2, 3]);
    alternet::codec::push_bytes_field(&mut bad_key, &[0; 64]);
    assert_eq!(Signed::<Record>::decode(&bad_key, 0).unwrap_err(), Error::PublicKey);
}
