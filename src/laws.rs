//! Properties of the record format and of validation, stated over the
//! specifications that the encoders, decoders and the validator follow.
use vstd::prelude::*;

use crate::address::multiaddr_parses;
use crate::codec::{bytes_field, lemma_bytes_field_round_trip, lemma_varint_round_trip, varint};
use crate::crypto::{peer_id_of_key, peer_id_parses, public_key_decodes, signature_valid};
use crate::name::{base_name, fold_byte, fold_case, is_label_byte, is_root_name, parse_name, valid_name};
use crate::record::{
    addr_tag, encode_addr_list, encode_envelope, encode_lease, encode_record,
    encode_signed_lease, encode_signed_record, has_prefix, key_field, lease_tag, parse_addr_list,
    parse_envelope, parse_key, parse_lease, parse_record, parse_signed_lease, parse_signed_record,
    encode_lease_chain, record_key, root_tag, Error, LeaseView, RecordView, SignedView,
};
use crate::validate::{
    kind_check, validate, walk_chain, StoreRecordView, EXPIRED_LEEWAY_NANOS,
    REPUBLISH_INTERVAL_NANOS,
};

verus! {

/// A byte string whose length the encoding can state.
pub open spec fn fits(b: Seq<u8>) -> bool {
    b.len() <= u64::MAX
}

/// A name that a key field of the kind `tag` can carry.
pub open spec fn key_name_ok(tag: Seq<u8>, name: Seq<u8>) -> bool {
    valid_name(name) && fits(tag + name)
}

pub open spec fn well_formed_lease(l: LeaseView) -> bool {
    key_name_ok(lease_tag(), l.subdomain) && peer_id_parses(l.leasee) && fits(l.leasee)
}

/// A record that the decoder accepts: valid names, addresses and identities.
pub open spec fn well_formed_record(r: RecordView) -> bool {
    match r {
        RecordView::Root { root, addr } => key_name_ok(root_tag(), root) && multiaddr_parses(addr)
            && fits(addr),
        RecordView::Lease(l) => well_formed_lease(l),
        RecordView::Addr { domain, addrs } => key_name_ok(addr_tag(), domain) && addrs.len()
            <= u64::MAX && forall|i: int|
            0 <= i < addrs.len() ==> multiaddr_parses(#[trigger] addrs[i]) && fits(addrs[i]),
    }
}

/// Signed by the key it carries, over the record's canonical bytes.
pub open spec fn validly_signed<V>(s: SignedView<V>, body: Seq<u8>) -> bool {
    public_key_decodes(s.pubkey) && signature_valid(s.pubkey, body, s.signature) && fits(s.pubkey)
        && fits(s.signature)
}

proof fn lemma_fold_valid(name: Seq<u8>)
    requires
        valid_name(name),
    ensures
        parse_name(name) == Some(name),
{
    assert forall|i: int| 0 <= i < name.len() implies fold_case(name)[i] == name[i] by {
        assert(is_label_byte(name[i]) || name[i] == 0x2e);
        assert(fold_byte(name[i]) == name[i]);
    }
    assert(fold_case(name) =~= name);
}

proof fn lemma_key_round_trip(tag: Seq<u8>, name: Seq<u8>, rest: Seq<u8>)
    requires
        key_name_ok(tag, name),
    ensures
        parse_key(key_field(tag, name) + rest) == Ok::<(Seq<u8>, nat), crate::record::Error>(
            (tag + name, key_field(tag, name).len()),
        ),
        has_prefix(tag + name, tag),
        (tag + name).skip(tag.len() as int) == name,
        parse_name(name) == Some(name),
{
    lemma_bytes_field_round_trip(tag + name, rest);
    assert((tag + name).subrange(0, tag.len() as int) =~= tag);
    assert((tag + name).skip(tag.len() as int) =~= name);
    lemma_fold_valid(name);
}

proof fn lemma_tags_distinct(name: Seq<u8>)
    ensures
        !has_prefix(lease_tag() + name, root_tag()),
        !has_prefix(addr_tag() + name, root_tag()),
        !has_prefix(addr_tag() + name, lease_tag()),
{
    assert((lease_tag() + name)[0] == 0x6c);
    assert((addr_tag() + name)[0] == 0x61);
    if has_prefix(lease_tag() + name, root_tag()) {
        assert((lease_tag() + name).subrange(0, 5)[0] == root_tag()[0]);
    }
    if has_prefix(addr_tag() + name, root_tag()) {
        assert((addr_tag() + name).subrange(0, 5)[0] == root_tag()[0]);
    }
    if has_prefix(addr_tag() + name, lease_tag()) {
        assert((addr_tag() + name).subrange(0, 6)[0] == lease_tag()[0]);
    }
}

proof fn lemma_lease_round_trip(l: LeaseView, rest: Seq<u8>)
    requires
        well_formed_lease(l),
    ensures
        parse_lease(encode_lease(l) + rest) == Ok::<(LeaseView, nat), crate::record::Error>(
            (l, encode_lease(l).len()),
        ),
{
    let k = key_field(lease_tag(), l.subdomain);
    let f = bytes_field(l.leasee);
    let u = varint(l.until);
    let s = encode_lease(l) + rest;
    assert(s =~= k + (f + u + rest));
    lemma_key_round_trip(lease_tag(), l.subdomain, f + u + rest);
    assert(s.skip(k.len() as int) =~= f + (u + rest));
    lemma_bytes_field_round_trip(l.leasee, u + rest);
    assert(s.skip((k.len() + f.len()) as int) =~= u + rest);
    lemma_varint_round_trip(l.until, rest);
}

proof fn lemma_addr_list_round_trip(addrs: Seq<Seq<u8>>, rest: Seq<u8>)
    requires
        forall|i: int| 0 <= i < addrs.len() ==> multiaddr_parses(#[trigger] addrs[i]) && fits(
            addrs[i],
        ),
    ensures
        parse_addr_list(encode_addr_list(addrs) + rest, addrs.len()) == Ok::<
            (Seq<Seq<u8>>, nat),
            crate::record::Error,
        >((addrs, encode_addr_list(addrs).len())),
    decreases addrs.len(),
{
    if addrs.len() > 0 {
        let a = addrs[0];
        let tail = addrs.drop_first();
        let f = bytes_field(a);
        let s = encode_addr_list(addrs) + rest;
        assert(s =~= f + (encode_addr_list(tail) + rest));
        lemma_bytes_field_round_trip(a, encode_addr_list(tail) + rest);
        assert(s.skip(f.len() as int) =~= encode_addr_list(tail) + rest);
        assert forall|i: int| 0 <= i < tail.len() implies multiaddr_parses(#[trigger] tail[i])
            && fits(tail[i]) by {
            assert(tail[i] == addrs[i + 1]);
        }
        lemma_addr_list_round_trip(tail, rest);
        assert(seq![a] + tail =~= addrs);
    } else {
        assert(addrs =~= Seq::<Seq<u8>>::empty());
    }
}

proof fn lemma_root_round_trip(root: Seq<u8>, addr: Seq<u8>, rest: Seq<u8>)
    requires
        well_formed_record(RecordView::Root { root, addr }),
    ensures
        parse_record(encode_record(RecordView::Root { root, addr }) + rest) == Ok::<
            (RecordView, nat),
            crate::record::Error,
        >((RecordView::Root { root, addr }, encode_record(RecordView::Root { root, addr }).len())),
{
    let s = encode_record(RecordView::Root { root, addr }) + rest;
    let k = key_field(root_tag(), root);
    let f = bytes_field(addr);
    assert(s =~= k + (f + rest));
    lemma_key_round_trip(root_tag(), root, f + rest);
    assert(s.skip(k.len() as int) =~= f + rest);
    lemma_bytes_field_round_trip(addr, rest);
}

proof fn lemma_lease_record_round_trip(l: LeaseView, rest: Seq<u8>)
    requires
        well_formed_lease(l),
    ensures
        parse_record(encode_record(RecordView::Lease(l)) + rest) == Ok::<
            (RecordView, nat),
            crate::record::Error,
        >((RecordView::Lease(l), encode_record(RecordView::Lease(l)).len())),
{
    let k = key_field(lease_tag(), l.subdomain);
    assert(encode_lease(l) + rest =~= k + (bytes_field(l.leasee) + varint(l.until) + rest));
    lemma_key_round_trip(lease_tag(), l.subdomain, bytes_field(l.leasee) + varint(l.until) + rest);
    lemma_tags_distinct(l.subdomain);
    lemma_lease_round_trip(l, rest);
}

proof fn lemma_addr_record_round_trip(domain: Seq<u8>, addrs: Seq<Seq<u8>>, rest: Seq<u8>)
    requires
        well_formed_record(RecordView::Addr { domain, addrs }),
    ensures
        parse_record(encode_record(RecordView::Addr { domain, addrs }) + rest) == Ok::<
            (RecordView, nat),
            crate::record::Error,
        >(
            (
                RecordView::Addr { domain, addrs },
                encode_record(RecordView::Addr { domain, addrs }).len(),
            ),
        ),
{
    let s = encode_record(RecordView::Addr { domain, addrs }) + rest;
    let k = key_field(addr_tag(), domain);
    let c = varint(addrs.len() as u64);
    let body = encode_addr_list(addrs);
    assert(s =~= k + (c + body + rest));
    lemma_key_round_trip(addr_tag(), domain, c + body + rest);
    lemma_tags_distinct(domain);
    assert(s.skip(k.len() as int) =~= c + (body + rest));
    lemma_varint_round_trip(addrs.len() as u64, body + rest);
    assert(s.skip((k.len() + c.len()) as int) =~= body + rest);
    lemma_addr_list_round_trip(addrs, rest);
}

proof fn lemma_record_round_trip(r: RecordView, rest: Seq<u8>)
    requires
        well_formed_record(r),
    ensures
        parse_record(encode_record(r) + rest) == Ok::<(RecordView, nat), crate::record::Error>(
            (r, encode_record(r).len()),
        ),
{
    match r {
        RecordView::Root { root, addr } => lemma_root_round_trip(root, addr, rest),
        RecordView::Lease(l) => lemma_lease_record_round_trip(l, rest),
        RecordView::Addr { domain, addrs } => lemma_addr_record_round_trip(domain, addrs, rest),
    }
}

proof fn lemma_envelope_round_trip(
    body: Seq<u8>,
    pubkey: Seq<u8>,
    signature: Seq<u8>,
    rest: Seq<u8>,
)
    requires
        public_key_decodes(pubkey),
        signature_valid(pubkey, body, signature),
        fits(pubkey),
        fits(signature),
    ensures
        parse_envelope(encode_envelope(body, pubkey, signature) + rest, body.len()) == Ok::<
            (Seq<u8>, Seq<u8>, nat),
            crate::record::Error,
        >((pubkey, signature, encode_envelope(body, pubkey, signature).len())),
{
    let p = bytes_field(pubkey);
    let g = bytes_field(signature);
    let s = encode_envelope(body, pubkey, signature) + rest;
    assert(s =~= body + (p + (g + rest)));
    assert(s.skip(body.len() as int) =~= p + (g + rest));
    lemma_bytes_field_round_trip(pubkey, g + rest);
    assert(s.skip(body.len() as int).skip(p.len() as int) =~= g + rest);
    lemma_bytes_field_round_trip(signature, rest);
    assert(s.take(body.len() as int) =~= body);
}

/// Decoding the encoding of a validly signed record of any kind gives the
/// signed record back and takes exactly its bytes, whatever follows them.
pub proof fn lemma_signed_record_round_trip(s: SignedView<RecordView>, rest: Seq<u8>)
    requires
        well_formed_record(s.signed),
        validly_signed(s, encode_record(s.signed)),
    ensures
        parse_signed_record(encode_signed_record(s) + rest) == Ok::<
            (SignedView<RecordView>, nat),
            crate::record::Error,
        >((s, encode_signed_record(s).len())),
{
    let body = encode_record(s.signed);
    let env = bytes_field(s.pubkey) + bytes_field(s.signature);
    assert(encode_signed_record(s) + rest =~= body + (env + rest));
    lemma_record_round_trip(s.signed, env + rest);
    lemma_envelope_round_trip(body, s.pubkey, s.signature, rest);
}

/// Decoding the encoding of a validly signed lease gives the signed lease
/// back and takes exactly its bytes, whatever follows them.
pub proof fn lemma_signed_lease_round_trip(s: SignedView<LeaseView>, rest: Seq<u8>)
    requires
        well_formed_lease(s.signed),
        validly_signed(s, encode_lease(s.signed)),
    ensures
        parse_signed_lease(encode_signed_lease(s) + rest) == Ok::<
            (SignedView<LeaseView>, nat),
            crate::record::Error,
        >((s, encode_signed_lease(s).len())),
{
    let body = encode_lease(s.signed);
    let env = bytes_field(s.pubkey) + bytes_field(s.signature);
    assert(encode_signed_lease(s) + rest =~= body + (env + rest));
    lemma_lease_round_trip(s.signed, env + rest);
    lemma_envelope_round_trip(body, s.pubkey, s.signature, rest);
}

/// An unbroken chain of leases from `name` up to a root: while the name is
/// not a root, the next lease is well formed, validly signed, and leased to
/// the identity that signed the link below it; the walk goes on from the base
/// of its subdomain; after the last lease the name is a root.
pub open spec fn chain_links(leases: Seq<SignedView<LeaseView>>, name: Seq<u8>, signer: Seq<u8>) -> bool
    decreases leases.len(),
{
    if leases.len() == 0 {
        is_root_name(name)
    } else {
        &&& !is_root_name(name)
        &&& leases[0].signed.leasee == signer
        &&& well_formed_lease(leases[0].signed)
        &&& validly_signed(leases[0], encode_lease(leases[0].signed))
        &&& chain_links(
            leases.drop_first(),
            base_name(leases[0].signed.subdomain),
            peer_id_of_key(leases[0].pubkey),
        )
    }
}

proof fn lemma_walk_step(
    s: Seq<u8>,
    name: Seq<u8>,
    signer: Seq<u8>,
    l: SignedView<LeaseView>,
    k: nat,
)
    requires
        !is_root_name(name),
        parse_signed_lease(s) == Ok::<(SignedView<LeaseView>, nat), Error>((l, k)),
        l.signed.leasee == signer,
        0 < k <= s.len(),
    ensures
        walk_chain(s, name, signer) == crate::record::prepend(
            seq![l],
            k,
            walk_chain(s.skip(k as int), base_name(l.signed.subdomain), peer_id_of_key(l.pubkey)),
        ),
{
}

proof fn lemma_signed_lease_nonempty(l: SignedView<LeaseView>)
    ensures
        encode_signed_lease(l).len() > 0,
{
    lemma_varint_round_trip(l.pubkey.len() as u64, Seq::empty());
    assert(encode_signed_lease(l).len() >= bytes_field(l.pubkey).len());
}

proof fn lemma_walk_chain_ok(
    leases: Seq<SignedView<LeaseView>>,
    name: Seq<u8>,
    signer: Seq<u8>,
    rest: Seq<u8>,
)
    requires
        chain_links(leases, name, signer),
    ensures
        walk_chain(encode_lease_chain(leases) + rest, name, signer) == Ok::<
            (Seq<SignedView<LeaseView>>, nat),
            Error,
        >((leases, encode_lease_chain(leases).len())),
    decreases leases.len(),
{
    let s = encode_lease_chain(leases) + rest;
    if leases.len() == 0 {
        assert(leases =~= Seq::<SignedView<LeaseView>>::empty());
    } else {
        let l = leases[0];
        let tail = leases.drop_first();
        let e = encode_signed_lease(l);
        let t = encode_lease_chain(tail) + rest;
        assert(s =~= e + t);
        lemma_signed_lease_round_trip(l, t);
        lemma_signed_lease_nonempty(l);
        assert(s.skip(e.len() as int) =~= t);
        lemma_walk_step(s, name, signer, l, e.len());
        lemma_walk_chain_ok(tail, base_name(l.signed.subdomain), peer_id_of_key(l.pubkey), rest);
        assert(seq![l] + tail =~= leases);
    }
}

proof fn lemma_value_starts_with_key(r: RecordView, rest: Seq<u8>)
    ensures
        has_prefix(encode_record(r) + rest, record_key(r)),
{
    let k = record_key(r);
    let v = encode_record(r) + rest;
    match r {
        RecordView::Root { root, addr } => {
            assert(v =~= k + (bytes_field(addr) + rest));
        },
        RecordView::Lease(l) => {
            assert(v =~= k + (bytes_field(l.leasee) + varint(l.until) + rest));
        },
        RecordView::Addr { domain, addrs } => {
            assert(v =~= k + (varint(addrs.len() as u64) + encode_addr_list(addrs) + rest));
        },
    }
    assert(v.subrange(0, k.len() as int) =~= k);
}

proof fn lemma_validate_ok(
    r: StoreRecordView,
    now: u64,
    now_wall: u64,
    top: SignedView<RecordView>,
    n: nat,
    name: Seq<u8>,
    leases: Seq<SignedView<LeaseView>>,
    m: nat,
)
    requires
        has_prefix(r.value, r.key),
        r.expires is Some ==> r.expires->0 <= now + REPUBLISH_INTERVAL_NANOS,
        r.publisher == Some(peer_id_of_key(top.pubkey)),
        parse_signed_record(r.value) == Ok::<(SignedView<RecordView>, nat), Error>((top, n)),
        kind_check(top.signed, r.expires, now, now_wall) == Ok::<Seq<u8>, Error>(name),
        walk_chain(r.value.skip(n as int), name, peer_id_of_key(top.pubkey)) == Ok::<
            (Seq<SignedView<LeaseView>>, nat),
            Error,
        >((leases, m)),
        n + m == r.value.len(),
    ensures
        validate(r, now, now_wall) == Ok::<(SignedView<RecordView>, Seq<SignedView<LeaseView>>), Error>(
            (top, leases),
        ),
{
}

/// A record stored under its own key, published by its signer, with a stored
/// expiry its kind accepts and within the republish interval, and followed
/// by an unbroken chain of validly signed leases up to a root, is accepted:
/// validation returns the record and the chain.
pub proof fn lemma_valid_chain_accepted(
    top: SignedView<RecordView>,
    leases: Seq<SignedView<LeaseView>>,
    expires: Option<u64>,
    now: u64,
    now_wall: u64,
)
    requires
        well_formed_record(top.signed),
        validly_signed(top, encode_record(top.signed)),
        kind_check(top.signed, expires, now, now_wall) is Ok,
        chain_links(
            leases,
            kind_check(top.signed, expires, now, now_wall)->Ok_0,
            peer_id_of_key(top.pubkey),
        ),
        expires is Some ==> expires->0 <= now + REPUBLISH_INTERVAL_NANOS,
    ensures
        validate(
            StoreRecordView {
                key: record_key(top.signed),
                value: encode_signed_record(top) + encode_lease_chain(leases),
                publisher: Some(peer_id_of_key(top.pubkey)),
                expires,
            },
            now,
            now_wall,
        ) == Ok::<(SignedView<RecordView>, Seq<SignedView<LeaseView>>), Error>((top, leases)),
{
    let chain = encode_lease_chain(leases);
    let value = encode_signed_record(top) + chain;
    let r = StoreRecordView {
        key: record_key(top.signed),
        value,
        publisher: Some(peer_id_of_key(top.pubkey)),
        expires,
    };
    let env = bytes_field(top.pubkey) + bytes_field(top.signature) + chain;
    assert(value =~= encode_record(top.signed) + env);
    lemma_value_starts_with_key(top.signed, env);
    lemma_signed_record_round_trip(top, chain);
    let n = encode_signed_record(top).len();
    assert(value.skip(n as int) =~= chain + Seq::<u8>::empty());
    lemma_walk_chain_ok(
        leases,
        kind_check(top.signed, expires, now, now_wall)->Ok_0,
        peer_id_of_key(top.pubkey),
        Seq::empty(),
    );
    assert(chain + Seq::<u8>::empty() =~= chain);
    lemma_validate_ok(
        r,
        now,
        now_wall,
        top,
        n,
        kind_check(top.signed, expires, now, now_wall)->Ok_0,
        leases,
        chain.len(),
    );
}

/// A record whose stored value does not begin with its store key is
/// refused, whatever else it holds.
pub proof fn lemma_key_binding(r: StoreRecordView, now: u64, now_wall: u64)
    requires
        !has_prefix(r.value, r.key),
    ensures
        validate(r, now, now_wall) == Err::<
            (SignedView<RecordView>, Seq<SignedView<LeaseView>>),
            Error,
        >(Error::KeyMismatch),
{
}

/// A stored expiry beyond the republish interval from now is refused, by how
/// far it lies beyond.
pub proof fn lemma_ttl_too_big(r: StoreRecordView, now: u64, now_wall: u64)
    requires
        has_prefix(r.value, r.key),
        r.expires is Some,
        r.expires->0 > now + REPUBLISH_INTERVAL_NANOS,
    ensures
        validate(r, now, now_wall) == Err::<
            (SignedView<RecordView>, Seq<SignedView<LeaseView>>),
            Error,
        >(Error::TTLTooBig((r.expires->0 - now - REPUBLISH_INTERVAL_NANOS) as u64)),
{
}

/// A lease whose own end lies at or before the wall-clock time is never
/// accepted.
pub proof fn lemma_lapsed_lease_rejected(r: StoreRecordView, now: u64, now_wall: u64)
    requires
        parse_signed_record(r.value) is Ok,
        parse_signed_record(r.value)->Ok_0.0.signed is Lease,
        parse_signed_record(r.value)->Ok_0.0.signed->Lease_0.until <= now_wall,
    ensures
        validate(r, now, now_wall) is Err,
{
}

/// A lease accepted by validation is still running at the wall-clock time,
/// and its stored expiry is present and lies less than the leeway in the
/// past.
pub proof fn lemma_accepted_lease_is_current(r: StoreRecordView, now: u64, now_wall: u64)
    requires
        validate(r, now, now_wall) is Ok,
        validate(r, now, now_wall)->Ok_0.0.signed is Lease,
    ensures
        validate(r, now, now_wall)->Ok_0.0.signed->Lease_0.until > now_wall,
        r.expires is Some,
        now < r.expires->0 + EXPIRED_LEEWAY_NANOS,
{
}

proof fn lemma_envelope_bad_signature(
    body: Seq<u8>,
    pubkey: Seq<u8>,
    signature: Seq<u8>,
    rest: Seq<u8>,
)
    requires
        public_key_decodes(pubkey),
        !signature_valid(pubkey, body, signature),
        fits(pubkey),
        fits(signature),
    ensures
        parse_envelope(encode_envelope(body, pubkey, signature) + rest, body.len()) == Err::<
            (Seq<u8>, Seq<u8>, nat),
            Error,
        >(Error::InvalidSignature),
{
    let p = bytes_field(pubkey);
    let g = bytes_field(signature);
    let s = encode_envelope(body, pubkey, signature) + rest;
    assert(s =~= body + (p + (g + rest)));
    assert(s.skip(body.len() as int) =~= p + (g + rest));
    lemma_bytes_field_round_trip(pubkey, g + rest);
    assert(s.skip(body.len() as int).skip(p.len() as int) =~= g + rest);
    lemma_bytes_field_round_trip(signature, rest);
    assert(s.take(body.len() as int) =~= body);
}

/// A stored record whose own signature does not hold over its bytes is
/// refused as wrongly signed, whatever follows it and however it is stored.
pub proof fn lemma_bad_signature_rejected(
    top: SignedView<RecordView>,
    rest: Seq<u8>,
    key: Seq<u8>,
    publisher: Option<Seq<u8>>,
    expires: Option<u64>,
    now: u64,
    now_wall: u64,
)
    requires
        well_formed_record(top.signed),
        public_key_decodes(top.pubkey),
        fits(top.pubkey),
        fits(top.signature),
        !signature_valid(top.pubkey, encode_record(top.signed), top.signature),
        has_prefix(encode_signed_record(top) + rest, key),
        expires is Some ==> expires->0 <= now + REPUBLISH_INTERVAL_NANOS,
        publisher is Some,
    ensures
        validate(
            StoreRecordView { key, value: encode_signed_record(top) + rest, publisher, expires },
            now,
            now_wall,
        ) == Err::<(SignedView<RecordView>, Seq<SignedView<LeaseView>>), Error>(
            Error::InvalidSignature,
        ),
{
    let body = encode_record(top.signed);
    let env = bytes_field(top.pubkey) + bytes_field(top.signature);
    let value = encode_signed_record(top) + rest;
    assert(value =~= body + (env + rest));
    lemma_record_round_trip(top.signed, env + rest);
    assert(value =~= encode_envelope(body, top.pubkey, top.signature) + rest);
    lemma_envelope_bad_signature(body, top.pubkey, top.signature, rest);
    assert(parse_signed_record(value) == Err::<(SignedView<RecordView>, nat), Error>(
        Error::InvalidSignature,
    ));
}

} // verus!
