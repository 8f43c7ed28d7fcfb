//! The three record kinds, their signed envelope and their canonical binary
//! encoding.
//!
//! A record's bytes begin with its key field, a length-prefixed text
//! `root:<name>`, `lease:<name>` or `addr:<name>`, followed by the fields of
//! its kind. A signed record appends the signer's public key (protobuf
//! encoding) and the signature over the record's bytes, each length-prefixed.
use vstd::prelude::*;

use crate::address::{multiaddr_ok, multiaddr_parses};
use crate::codec::{
    bytes_field, copy_bytes, copy_range, parse_bytes_field, parse_varint, push_all,
    push_bytes_field, push_varint, read_bytes_field, read_varint, starts_with, varint,
};
use crate::crypto::{
    peer_id_ok, peer_id_parses, public_key_decodes, public_key_ok, signature_valid,
    verify_signature,
};
use crate::name::{parse_name, Name};

verus! {

/// Why a record was refused.
#[derive(Debug, PartialEq, Eq)]
pub enum Error {
    /// The stored value does not begin with the store key.
    KeyMismatch,
    /// The key field carries none of the known kind tags.
    UnknownRecordType,
    /// A lease was expected and the key field carries another tag.
    UnexpectedRecordType,
    /// The name in the key field is not a valid name.
    Key,
    /// An address field is not a valid network address.
    MultiAddr,
    /// The bytes end before a field is complete.
    Format,
    /// A leasee field is not a valid peer identity.
    PeerId,
    /// The public key field cannot be decoded.
    PublicKey,
    /// The signature does not match the signed bytes.
    InvalidSignature,
    /// The store gives no publisher.
    NoPublisher,
    /// A record or lease is signed by another identity than the one required.
    WrongSigner,
    /// Bytes remain after the chain of leases.
    MoreData,
    /// A lease is stored without an expiry.
    NoExpiry,
    /// A root claim is stored with an expiry.
    UnexpectedExpiry,
    /// Expired since this many nanoseconds.
    Expired(u64),
    /// The stored expiry lies this many nanoseconds beyond the republish
    /// interval.
    TTLTooBig(u64),
}

/// Claims a top-level name and binds it to an address.
#[derive(Debug)]
pub struct RootRecord {
    pub root: Name,
    /// Binary form of a network address.
    pub addr: Vec<u8>,
}

/// Delegates control of `subdomain` to `leasee` until `until`.
#[derive(Debug)]
pub struct LeaseRecord {
    pub subdomain: Name,
    /// Bytes of a peer identity.
    pub leasee: Vec<u8>,
    /// Nanoseconds since the Unix epoch.
    pub until: u64,
}

/// Publishes reachable addresses for `domain`.
#[derive(Debug)]
pub struct AddrRecord {
    pub domain: Name,
    /// Binary forms of network addresses.
    pub addrs: Vec<Vec<u8>>,
}

#[derive(Debug)]
pub enum Record {
    Root(RootRecord),
    Lease(LeaseRecord),
    Addr(AddrRecord),
}

/// A value with the public key that signed it and the signature.
#[derive(Debug)]
pub struct Signed<T> {
    pub signed: T,
    /// Protobuf encoding of the public key.
    pub pubkey: Vec<u8>,
    pub signature: Vec<u8>,
}

pub struct LeaseView {
    pub subdomain: Seq<u8>,
    pub leasee: Seq<u8>,
    pub until: u64,
}

pub enum RecordView {
    Root { root: Seq<u8>, addr: Seq<u8> },
    Lease(LeaseView),
    Addr { domain: Seq<u8>, addrs: Seq<Seq<u8>> },
}

pub struct SignedView<V> {
    pub signed: V,
    pub pubkey: Seq<u8>,
    pub signature: Seq<u8>,
}

impl View for LeaseRecord {
    type V = LeaseView;

    open spec fn view(&self) -> LeaseView {
        LeaseView { subdomain: self.subdomain@, leasee: self.leasee@, until: self.until }
    }
}

pub open spec fn addrs_view(v: Seq<Vec<u8>>) -> Seq<Seq<u8>> {
    v.map_values(|a: Vec<u8>| a@)
}

impl View for Record {
    type V = RecordView;

    open spec fn view(&self) -> RecordView {
        match self {
            Record::Root(r) => RecordView::Root { root: r.root@, addr: r.addr@ },
            Record::Lease(l) => RecordView::Lease(l@),
            Record::Addr(a) => RecordView::Addr { domain: a.domain@, addrs: addrs_view(a.addrs@) },
        }
    }
}

impl<T: View> View for Signed<T> {
    type V = SignedView<T::V>;

    open spec fn view(&self) -> SignedView<T::V> {
        SignedView { signed: self.signed@, pubkey: self.pubkey@, signature: self.signature@ }
    }
}

pub open spec fn leases_view(v: Seq<Signed<LeaseRecord>>) -> Seq<SignedView<LeaseView>> {
    v.map_values(|l: Signed<LeaseRecord>| l@)
}

// ----- tags and key fields -----
/// `root:`
pub open spec fn root_tag() -> Seq<u8> {
    seq![0x72u8, 0x6f, 0x6f, 0x74, 0x3a]
}

/// `lease:`
pub open spec fn lease_tag() -> Seq<u8> {
    seq![0x6cu8, 0x65, 0x61, 0x73, 0x65, 0x3a]
}

/// `addr:`
pub open spec fn addr_tag() -> Seq<u8> {
    seq![0x61u8, 0x64, 0x64, 0x72, 0x3a]
}

pub open spec fn has_prefix(s: Seq<u8>, p: Seq<u8>) -> bool {
    p.len() <= s.len() && s.subrange(0, p.len() as int) == p
}

/// The key field of a record of the kind `tag` for `name`: the store key
/// under which the record is kept, and the head of its bytes.
pub open spec fn key_field(tag: Seq<u8>, name: Seq<u8>) -> Seq<u8> {
    bytes_field(tag + name)
}

// ----- encoding -----
pub open spec fn encode_lease(l: LeaseView) -> Seq<u8> {
    key_field(lease_tag(), l.subdomain) + bytes_field(l.leasee) + varint(l.until)
}

pub open spec fn encode_addr_list(addrs: Seq<Seq<u8>>) -> Seq<u8>
    decreases addrs.len(),
{
    if addrs.len() == 0 {
        Seq::empty()
    } else {
        bytes_field(addrs[0]) + encode_addr_list(addrs.drop_first())
    }
}

/// The canonical bytes of a record: what its signature covers.
pub open spec fn encode_record(r: RecordView) -> Seq<u8> {
    match r {
        RecordView::Root { root, addr } => key_field(root_tag(), root) + bytes_field(addr),
        RecordView::Lease(l) => encode_lease(l),
        RecordView::Addr { domain, addrs } => key_field(addr_tag(), domain) + varint(
            addrs.len() as u64,
        ) + encode_addr_list(addrs),
    }
}

/// The store key of a record.
pub open spec fn record_key(r: RecordView) -> Seq<u8> {
    match r {
        RecordView::Root { root, .. } => key_field(root_tag(), root),
        RecordView::Lease(l) => key_field(lease_tag(), l.subdomain),
        RecordView::Addr { domain, .. } => key_field(addr_tag(), domain),
    }
}

/// Signed bytes, followed by the public key and the signature.
pub open spec fn encode_envelope(body: Seq<u8>, pubkey: Seq<u8>, signature: Seq<u8>) -> Seq<u8> {
    body + bytes_field(pubkey) + bytes_field(signature)
}

pub open spec fn encode_signed_record(s: SignedView<RecordView>) -> Seq<u8> {
    encode_envelope(encode_record(s.signed), s.pubkey, s.signature)
}

pub open spec fn encode_signed_lease(s: SignedView<LeaseView>) -> Seq<u8> {
    encode_envelope(encode_lease(s.signed), s.pubkey, s.signature)
}

/// The bytes of a chain of signed leases, innermost first.
pub open spec fn encode_lease_chain(leases: Seq<SignedView<LeaseView>>) -> Seq<u8>
    decreases leases.len(),
{
    if leases.len() == 0 {
        Seq::empty()
    } else {
        encode_signed_lease(leases[0]) + encode_lease_chain(leases.drop_first())
    }
}

// ----- decoding -----
/// Reading the key field at the head of `s`.
pub open spec fn parse_key(s: Seq<u8>) -> Result<(Seq<u8>, nat), Error> {
    match parse_bytes_field(s) {
        Some((key, k)) => Ok((key, k)),
        None => Err(Error::Format),
    }
}

/// Reading a lease record at the head of `s`.
pub open spec fn parse_lease(s: Seq<u8>) -> Result<(LeaseView, nat), Error> {
    match parse_key(s) {
        Err(e) => Err(e),
        Ok((key, k)) => if !has_prefix(key, lease_tag()) {
            Err(Error::UnexpectedRecordType)
        } else {
            match parse_name(key.skip(6)) {
                None => Err(Error::Key),
                Some(sub) => match parse_bytes_field(s.skip(k as int)) {
                    None => Err(Error::Format),
                    Some((leasee, k2)) => if !peer_id_parses(leasee) {
                        Err(Error::PeerId)
                    } else {
                        match parse_varint(s.skip((k + k2) as int)) {
                            None => Err(Error::Format),
                            Some((until, k3)) => Ok(
                                (
                                    LeaseView { subdomain: sub, leasee, until },
                                    (k + k2 + k3) as nat,
                                ),
                            ),
                        }
                    }
                },
            }
        },
    }
}

/// Reading `count` length-prefixed addresses at the head of `s`.
pub open spec fn parse_addr_list(s: Seq<u8>, count: nat) -> Result<(Seq<Seq<u8>>, nat), Error>
    decreases count,
{
    if count == 0 {
        Ok((Seq::empty(), 0))
    } else {
        match parse_bytes_field(s) {
            None => Err(Error::Format),
            Some((a, k)) => if !multiaddr_parses(a) {
                Err(Error::MultiAddr)
            } else {
                prepend(seq![a], k, parse_addr_list(s.skip(k as int), (count - 1) as nat))
            },
        }
    }
}

/// `head` and `k` consumed bytes put before an outcome.
pub open spec fn prepend<A>(head: Seq<A>, k: nat, res: Result<(Seq<A>, nat), Error>) -> Result<
    (Seq<A>, nat),
    Error,
> {
    match res {
        Ok((tail, n)) => Ok((head + tail, k + n)),
        Err(e) => Err(e),
    }
}

/// Reading a record of any kind at the head of `s`.
pub open spec fn parse_record(s: Seq<u8>) -> Result<(RecordView, nat), Error> {
    match parse_key(s) {
        Err(e) => Err(e),
        Ok((key, k)) => if has_prefix(key, root_tag()) {
            match parse_name(key.skip(5)) {
                None => Err(Error::Key),
                Some(root) => match parse_bytes_field(s.skip(k as int)) {
                    None => Err(Error::Format),
                    Some((addr, k2)) => if multiaddr_parses(addr) {
                        Ok((RecordView::Root { root, addr }, k + k2))
                    } else {
                        Err(Error::MultiAddr)
                    },
                },
            }
        } else if has_prefix(key, lease_tag()) {
            match parse_lease(s) {
                Ok((l, n)) => Ok((RecordView::Lease(l), n)),
                Err(e) => Err(e),
            }
        } else if has_prefix(key, addr_tag()) {
            match parse_name(key.skip(5)) {
                None => Err(Error::Key),
                Some(domain) => match parse_varint(s.skip(k as int)) {
                    None => Err(Error::Format),
                    Some((count, k2)) => match parse_addr_list(s.skip((k + k2) as int), count as nat) {
                        Err(e) => Err(e),
                        Ok((addrs, k3)) => Ok(
                            (RecordView::Addr { domain, addrs }, (k + k2 + k3) as nat),
                        ),
                    },
                },
            }
        } else {
            Err(Error::UnknownRecordType)
        }
    }
}

/// Reading the public key and signature that follow `body_len` signed bytes
/// at the head of `s`, and checking the signature.
pub open spec fn parse_envelope(s: Seq<u8>, body_len: nat) -> Result<
    (Seq<u8>, Seq<u8>, nat),
    Error,
> {
    let t = s.skip(body_len as int);
    match parse_bytes_field(t) {
        None => Err(Error::Format),
        Some((pk, k1)) => if !public_key_decodes(pk) {
            Err(Error::PublicKey)
        } else {
            match parse_bytes_field(t.skip(k1 as int)) {
                None => Err(Error::Format),
                Some((sig, k2)) => if !signature_valid(pk, s.take(body_len as int), sig) {
                    Err(Error::InvalidSignature)
                } else {
                    Ok((pk, sig, body_len + k1 + k2))
                },
            }
        },
    }
}

pub open spec fn parse_signed_record(s: Seq<u8>) -> Result<(SignedView<RecordView>, nat), Error> {
    match parse_record(s) {
        Err(e) => Err(e),
        Ok((r, n)) => match parse_envelope(s, n) {
            Err(e) => Err(e),
            Ok((pubkey, signature, m)) => Ok((SignedView { signed: r, pubkey, signature }, m)),
        },
    }
}

pub open spec fn parse_signed_lease(s: Seq<u8>) -> Result<(SignedView<LeaseView>, nat), Error> {
    match parse_lease(s) {
        Err(e) => Err(e),
        Ok((l, n)) => match parse_envelope(s, n) {
            Err(e) => Err(e),
            Ok((pubkey, signature, m)) => Ok((SignedView { signed: l, pubkey, signature }, m)),
        },
    }
}

/// An executable outcome `r`, read from position `pos`, agrees with the
/// outcome `s` of reading the bytes from there.
pub open spec fn same_outcome<A: View>(
    r: Result<(A, usize), Error>,
    pos: usize,
    s: Result<(A::V, nat), Error>,
) -> bool {
    match r {
        Ok((a, end)) => pos <= end && s == Ok::<(A::V, nat), Error>((a@, (end - pos) as nat)),
        Err(e) => s == Err::<(A::V, nat), Error>(e),
    }
}

proof fn lemma_skip_skip(s: Seq<u8>, a: int, b: int)
    requires
        0 <= a,
        0 <= b,
        a + b <= s.len(),
    ensures
        s.skip(a).skip(b) == s.skip(a + b),
{
    assert(s.skip(a).skip(b) =~= s.skip(a + b));
}

// ----- executable tags -----
fn root_tag_bytes() -> (r: Vec<u8>)
    ensures
        r@ == root_tag(),
{
    let mut r: Vec<u8> = Vec::new();
    r.push(0x72);
    r.push(0x6f);
    r.push(0x6f);
    r.push(0x74);
    r.push(0x3a);
    assert(r@ =~= root_tag());
    r
}

fn lease_tag_bytes() -> (r: Vec<u8>)
    ensures
        r@ == lease_tag(),
{
    let mut r: Vec<u8> = Vec::new();
    r.push(0x6c);
    r.push(0x65);
    r.push(0x61);
    r.push(0x73);
    r.push(0x65);
    r.push(0x3a);
    assert(r@ =~= lease_tag());
    r
}

fn addr_tag_bytes() -> (r: Vec<u8>)
    ensures
        r@ == addr_tag(),
{
    let mut r: Vec<u8> = Vec::new();
    r.push(0x61);
    r.push(0x64);
    r.push(0x64);
    r.push(0x72);
    r.push(0x3a);
    assert(r@ =~= addr_tag());
    r
}

/// Appends the key field for `tag` and `name`.
fn push_key_field(out: &mut Vec<u8>, tag: &Vec<u8>, name: &Name)
    ensures
        final(out)@ == old(out)@ + key_field(tag@, name@),
{
    let mut key = crate::codec::copy_bytes(tag.as_slice());
    push_all(&mut key, name.as_bytes());
    push_bytes_field(out, key.as_slice());
}

// ----- executable encoding -----
impl LeaseRecord {
    /// Appends the canonical bytes of the lease.
    pub fn encode_into(&self, out: &mut Vec<u8>)
        ensures
            final(out)@ == old(out)@ + encode_lease(self@),
    {
        let ghost start = old(out)@;
        push_key_field(out, &lease_tag_bytes(), &self.subdomain);
        push_bytes_field(out, self.leasee.as_slice());
        push_varint(out, self.until);
        assert(out@ =~= start + encode_lease(self@));
    }

    /// A copy of the lease.
    pub fn duplicate(&self) -> (r: LeaseRecord)
        ensures
            r@ == self@,
    {
        LeaseRecord {
            subdomain: self.subdomain.duplicate(),
            leasee: copy_bytes(self.leasee.as_slice()),
            until: self.until,
        }
    }
}

fn push_addr_list(out: &mut Vec<u8>, addrs: &Vec<Vec<u8>>)
    ensures
        final(out)@ == old(out)@ + encode_addr_list(addrs_view(addrs@)),
{
    let ghost start = old(out)@;
    let ghost all = addrs_view(addrs@);
    assert(all.skip(0) =~= all);
    let mut i: usize = 0;
    while i < addrs.len()
        invariant
            i <= addrs@.len(),
            all == addrs_view(addrs@),
            start + encode_addr_list(all) == out@ + encode_addr_list(all.skip(i as int)),
        decreases addrs.len() - i,
    {
        let ghost before = out@;
        push_bytes_field(out, addrs[i].as_slice());
        proof {
            let t = all.skip(i as int);
            assert(t[0] == addrs@[i as int]@);
            assert(t.drop_first() =~= all.skip(i + 1));
            assert(out@ + encode_addr_list(all.skip(i + 1)) =~= before + encode_addr_list(t));
        }
        i = i + 1;
    }
    assert(all.skip(i as int).len() == 0);
    assert(out@ + encode_addr_list(all.skip(i as int)) =~= out@);
}

impl Record {
    /// Appends the canonical bytes of the record.
    pub fn encode_into(&self, out: &mut Vec<u8>)
        ensures
            final(out)@ == old(out)@ + encode_record(self@),
    {
        let ghost start = old(out)@;
        match self {
            Record::Root(r) => {
                push_key_field(out, &root_tag_bytes(), &r.root);
                push_bytes_field(out, r.addr.as_slice());
            },
            Record::Lease(l) => {
                l.encode_into(out);
            },
            Record::Addr(a) => {
                push_key_field(out, &addr_tag_bytes(), &a.domain);
                push_varint(out, a.addrs.len() as u64);
                push_addr_list(out, &a.addrs);
            },
        }
        assert(out@ =~= start + encode_record(self@));
    }

    /// The canonical bytes of the record: what a signer signs.
    pub fn signing_bytes(&self) -> (r: Vec<u8>)
        ensures
            r@ == encode_record(self@),
    {
        let mut out: Vec<u8> = Vec::new();
        self.encode_into(&mut out);
        assert(out@ =~= encode_record(self@));
        out
    }

    /// The store key of the record: its key field.
    pub fn key(&self) -> (r: Vec<u8>)
        ensures
            r@ == record_key(self@),
    {
        let mut out: Vec<u8> = Vec::new();
        match self {
            Record::Root(r) => push_key_field(&mut out, &root_tag_bytes(), &r.root),
            Record::Lease(l) => push_key_field(&mut out, &lease_tag_bytes(), &l.subdomain),
            Record::Addr(a) => push_key_field(&mut out, &addr_tag_bytes(), &a.domain),
        }
        assert(out@ =~= record_key(self@));
        out
    }
}

impl Signed<Record> {
    /// The bytes of the signed record.
    pub fn encode(&self) -> (r: Vec<u8>)
        ensures
            r@ == encode_signed_record(self@),
    {
        let mut out: Vec<u8> = Vec::new();
        self.signed.encode_into(&mut out);
        push_bytes_field(&mut out, self.pubkey.as_slice());
        push_bytes_field(&mut out, self.signature.as_slice());
        assert(out@ =~= encode_signed_record(self@));
        out
    }
}

impl Signed<LeaseRecord> {
    /// Appends the bytes of the signed lease.
    pub fn encode_into(&self, out: &mut Vec<u8>)
        ensures
            final(out)@ == old(out)@ + encode_signed_lease(self@),
    {
        let ghost start = old(out)@;
        self.signed.encode_into(out);
        push_bytes_field(out, self.pubkey.as_slice());
        push_bytes_field(out, self.signature.as_slice());
        assert(out@ =~= start + encode_signed_lease(self@));
    }

    /// A copy of the signed lease.
    pub fn duplicate(&self) -> (r: Signed<LeaseRecord>)
        ensures
            r@ == self@,
    {
        Signed {
            signed: self.signed.duplicate(),
            pubkey: copy_bytes(self.pubkey.as_slice()),
            signature: copy_bytes(self.signature.as_slice()),
        }
    }
}

/// The stored value of a signed record followed by its chain of leases,
/// innermost first.
pub fn encode_chain(top: &Signed<Record>, leases: &Vec<Signed<LeaseRecord>>) -> (r: Vec<u8>)
    ensures
        r@ == encode_signed_record(top@) + encode_lease_chain(leases_view(leases@)),
{
    let mut out = top.encode();
    let ghost head = out@;
    let ghost all = leases_view(leases@);
    assert(all.skip(0) =~= all);
    let mut i: usize = 0;
    while i < leases.len()
        invariant
            i <= leases@.len(),
            all == leases_view(leases@),
            head + encode_lease_chain(all) == out@ + encode_lease_chain(all.skip(i as int)),
        decreases leases.len() - i,
    {
        let ghost before = out@;
        leases[i].encode_into(&mut out);
        proof {
            let t = all.skip(i as int);
            assert(t[0] == leases@[i as int]@);
            assert(t.drop_first() =~= all.skip(i + 1));
            assert(out@ + encode_lease_chain(all.skip(i + 1)) =~= before + encode_lease_chain(t));
        }
        i = i + 1;
    }
    assert(all.skip(i as int).len() == 0);
    assert(out@ + encode_lease_chain(all.skip(i as int)) =~= out@);
    out
}

// ----- executable decoding -----
/// Reads the key field at `pos`: the bounds of the key text and the position
/// after the field.
fn read_key(buf: &[u8], pos: usize) -> (r: Result<(usize, usize), Error>)
    requires
        pos <= buf@.len(),
    ensures
        match r {
            Ok((start, end)) => parse_key(buf@.skip(pos as int)) == Ok::<(Seq<u8>, nat), Error>(
                (buf@.subrange(start as int, end as int), (end - pos) as nat),
            ) && pos < start <= end <= buf@.len(),
            Err(e) => parse_key(buf@.skip(pos as int)) == Err::<(Seq<u8>, nat), Error>(e),
        },
{
    match read_bytes_field(buf, pos) {
        None => Err(Error::Format),
        Some((start, end)) => Ok((start, end)),
    }
}

/// Reads a name from the key text `buf[start..end]` after a tag of `skip`
/// bytes.
fn read_tagged_name(buf: &[u8], start: usize, end: usize, skip: usize) -> (r: Result<Name, Error>)
    requires
        start + skip <= end <= buf@.len(),
    ensures
        match r {
            Ok(n) => parse_name(buf@.subrange(start as int, end as int).skip(skip as int)) == Some(
                n@,
            ),
            Err(e) => e == Error::Key && parse_name(
                buf@.subrange(start as int, end as int).skip(skip as int),
            ) is None,
        },
{
    let text = &buf[start + skip..end];
    assert(text@ =~= buf@.subrange(start as int, end as int).skip(skip as int));
    match Name::from_ascii(text) {
        Some(n) => Ok(n),
        None => Err(Error::Key),
    }
}

impl LeaseRecord {
    /// Reads a lease record at `pos`.
    pub fn decode(buf: &[u8], pos: usize) -> (r: Result<(LeaseRecord, usize), Error>)
        requires
            pos <= buf@.len(),
        ensures
            same_outcome(r, pos, parse_lease(buf@.skip(pos as int))),
            r is Ok ==> r->Ok_0.0.subdomain.wf(),
            r is Ok ==> pos < r->Ok_0.1 <= buf@.len(),
    {
        let (ks, ke) = match read_key(buf, pos) {
            Ok(x) => x,
            Err(e) => return Err(e),
        };
        let key = &buf[ks..ke];
        if !starts_with(key, lease_tag_bytes().as_slice()) {
            return Err(Error::UnexpectedRecordType);
        }
        let subdomain = match read_tagged_name(buf, ks, ke, 6) {
            Ok(n) => n,
            Err(e) => return Err(e),
        };
        proof {
            lemma_skip_skip(buf@, pos as int, (ke - pos) as int);
        }
        let (ls, le) = match read_bytes_field(buf, ke) {
            Some(x) => x,
            None => return Err(Error::Format),
        };
        let leasee_slice = &buf[ls..le];
        if !peer_id_ok(leasee_slice) {
            return Err(Error::PeerId);
        }
        proof {
            lemma_skip_skip(buf@, pos as int, (le - pos) as int);
        }
        let (until, end) = match read_varint(buf, le) {
            Some(x) => x,
            None => return Err(Error::Format),
        };
        let leasee = copy_range(buf, ls, le);
        Ok((LeaseRecord { subdomain, leasee, until }, end))
    }
}

/// Reads `count` length-prefixed addresses at `pos`.
fn read_addr_list(buf: &[u8], pos: usize, count: u64) -> (r: Result<(Vec<Vec<u8>>, usize), Error>)
    requires
        pos <= buf@.len(),
    ensures
        match r {
            Ok((v, end)) => pos <= end <= buf@.len() && parse_addr_list(
                buf@.skip(pos as int),
                count as nat,
            ) == Ok::<(Seq<Seq<u8>>, nat), Error>((addrs_view(v@), (end - pos) as nat)),
            Err(e) => parse_addr_list(buf@.skip(pos as int), count as nat) == Err::<
                (Seq<Seq<u8>>, nat),
                Error,
            >(e),
        },
{
    let mut addrs: Vec<Vec<u8>> = Vec::new();
    let mut cur: usize = pos;
    let mut i: u64 = 0;
    while i < count
        invariant
            pos <= cur <= buf@.len(),
            i <= count,
            parse_addr_list(buf@.skip(pos as int), count as nat) == prepend(
                addrs_view(addrs@),
                (cur - pos) as nat,
                parse_addr_list(buf@.skip(cur as int), (count - i) as nat),
            ),
        decreases count - i,
    {
        let ghost s = buf@.skip(cur as int);
        let ghost rest_before = parse_addr_list(s, (count - i) as nat);
        match read_bytes_field(buf, cur) {
            None => {
                return Err(Error::Format);
            },
            Some((start, end)) => {
                let a = &buf[start..end];
                if !multiaddr_ok(a) {
                    return Err(Error::MultiAddr);
                }
                let ghost old_addrs = addrs_view(addrs@);
                addrs.push(copy_range(buf, start, end));
                proof {
                    lemma_skip_skip(buf@, cur as int, (end - cur) as int);
                    let a_v = buf@.subrange(start as int, end as int);
                    assert(addrs_view(addrs@) =~= old_addrs + seq![a_v]);
                    let tail = parse_addr_list(buf@.skip(end as int), (count - i - 1) as nat);
                    assert(rest_before == prepend(seq![a_v], (end - cur) as nat, tail));
                    match tail {
                        Ok((t, n)) => {
                            assert(old_addrs + (seq![a_v] + t) =~= (old_addrs + seq![a_v]) + t);
                        },
                        Err(_) => {},
                    }
                }
                cur = end;
            },
        }
        i = i + 1;
    }
    proof {
        assert(addrs_view(addrs@) + Seq::<Seq<u8>>::empty() =~= addrs_view(addrs@));
    }
    Ok((addrs, cur))
}

impl Record {
    /// Reads a record of any kind at `pos`.
    pub fn decode(buf: &[u8], pos: usize) -> (r: Result<(Record, usize), Error>)
        requires
            pos <= buf@.len(),
        ensures
            same_outcome(r, pos, parse_record(buf@.skip(pos as int))),
            r is Ok ==> r->Ok_0.1 <= buf@.len(),
    {
        let (ks, ke) = match read_key(buf, pos) {
            Ok(x) => x,
            Err(e) => return Err(e),
        };
        let key = &buf[ks..ke];
        proof {
            lemma_skip_skip(buf@, pos as int, (ke - pos) as int);
        }
        if starts_with(key, root_tag_bytes().as_slice()) {
            let root = match read_tagged_name(buf, ks, ke, 5) {
                Ok(n) => n,
                Err(e) => return Err(e),
            };
            let (as_, ae) = match read_bytes_field(buf, ke) {
                Some(x) => x,
                None => return Err(Error::Format),
            };
            if !multiaddr_ok(&buf[as_..ae]) {
                return Err(Error::MultiAddr);
            }
            let addr = copy_range(buf, as_, ae);
            Ok((Record::Root(RootRecord { root, addr }), ae))
        } else if starts_with(key, lease_tag_bytes().as_slice()) {
            match LeaseRecord::decode(buf, pos) {
                Ok((l, end)) => Ok((Record::Lease(l), end)),
                Err(e) => Err(e),
            }
        } else if starts_with(key, addr_tag_bytes().as_slice()) {
            let domain = match read_tagged_name(buf, ks, ke, 5) {
                Ok(n) => n,
                Err(e) => return Err(e),
            };
            let (count, ce) = match read_varint(buf, ke) {
                Some(x) => x,
                None => return Err(Error::Format),
            };
            proof {
                lemma_skip_skip(buf@, pos as int, (ce - pos) as int);
            }
            match read_addr_list(buf, ce, count) {
                Ok((addrs, end)) => Ok((Record::Addr(AddrRecord { domain, addrs }), end)),
                Err(e) => Err(e),
            }
        } else {
            Err(Error::UnknownRecordType)
        }
    }
}

/// Reads the public key and signature that follow the signed bytes
/// `buf[pos..body_end]`, and checks the signature.
fn read_envelope(buf: &[u8], pos: usize, body_end: usize) -> (r: Result<
    (Vec<u8>, Vec<u8>, usize),
    Error,
>)
    requires
        pos <= body_end <= buf@.len(),
    ensures
        match r {
            Ok((pk, sig, end)) => body_end <= end <= buf@.len() && parse_envelope(
                buf@.skip(pos as int),
                (body_end - pos) as nat,
            ) == Ok::<(Seq<u8>, Seq<u8>, nat), Error>((pk@, sig@, (end - pos) as nat)),
            Err(e) => parse_envelope(buf@.skip(pos as int), (body_end - pos) as nat) == Err::<
                (Seq<u8>, Seq<u8>, nat),
                Error,
            >(e),
        },
{
    proof {
        lemma_skip_skip(buf@, pos as int, (body_end - pos) as int);
    }
    let (ps, pe) = match read_bytes_field(buf, body_end) {
        Some(x) => x,
        None => return Err(Error::Format),
    };
    let pk = &buf[ps..pe];
    if !public_key_ok(pk) {
        return Err(Error::PublicKey);
    }
    proof {
        lemma_skip_skip(buf@, body_end as int, (pe - body_end) as int);
        assert(buf@.skip(pos as int).skip((body_end - pos) as int).skip((pe - body_end) as int)
            == buf@.skip(pe as int));
    }
    let (ss, se) = match read_bytes_field(buf, pe) {
        Some(x) => x,
        None => return Err(Error::Format),
    };
    let body = &buf[pos..body_end];
    let sig = &buf[ss..se];
    assert(body@ =~= buf@.skip(pos as int).take((body_end - pos) as int));
    if !verify_signature(pk, body, sig) {
        return Err(Error::InvalidSignature);
    }
    Ok((copy_range(buf, ps, pe), copy_range(buf, ss, se), se))
}

impl Signed<Record> {
    /// Reads a signed record at `pos` and checks its signature.
    pub fn decode(buf: &[u8], pos: usize) -> (r: Result<(Signed<Record>, usize), Error>)
        requires
            pos <= buf@.len(),
        ensures
            same_outcome(r, pos, parse_signed_record(buf@.skip(pos as int))),
            r is Ok ==> r->Ok_0.1 <= buf@.len(),
            r is Ok ==> public_key_decodes(r->Ok_0.0.pubkey@),
    {
        let (signed, body_end) = match Record::decode(buf, pos) {
            Ok(x) => x,
            Err(e) => return Err(e),
        };
        match read_envelope(buf, pos, body_end) {
            Ok((pubkey, signature, end)) => Ok((Signed { signed, pubkey, signature }, end)),
            Err(e) => Err(e),
        }
    }
}

impl Signed<LeaseRecord> {
    /// Reads a signed lease at `pos` and checks its signature.
    pub fn decode(buf: &[u8], pos: usize) -> (r: Result<(Signed<LeaseRecord>, usize), Error>)
        requires
            pos <= buf@.len(),
        ensures
            same_outcome(r, pos, parse_signed_lease(buf@.skip(pos as int))),
            r is Ok ==> pos < r->Ok_0.1 <= buf@.len(),
            r is Ok ==> public_key_decodes(r->Ok_0.0.pubkey@),
            r is Ok ==> r->Ok_0.0.signed.subdomain.wf(),
    {
        let (signed, body_end) = match LeaseRecord::decode(buf, pos) {
            Ok(x) => x,
            Err(e) => return Err(e),
        };
        match read_envelope(buf, pos, body_end) {
            Ok((pubkey, signature, end)) => Ok((Signed { signed, pubkey, signature }, end)),
            Err(e) => Err(e),
        }
    }
}

} // verus!
