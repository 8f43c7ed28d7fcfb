//! Validation of a record read from the distributed store: key binding,
//! expiry, the signer, and the chain of leases from the record's name up to
//! its root.
use vstd::prelude::*;

use crate::codec::{bytes_eq, copy_bytes, starts_with};
use crate::crypto::{peer_id_bytes, peer_id_of_key};
use crate::name::{base_name, is_root_name, Name};
use crate::record::{
    has_prefix, leases_view, parse_signed_lease, parse_signed_record, prepend, Error, LeaseRecord,
    LeaseView, Record, RecordView, Signed, SignedView,
};

verus! {

/// How far beyond now a stored expiry may lie: 24 hours, in nanoseconds.
pub const REPUBLISH_INTERVAL_NANOS: u64 = 86_400_000_000_000;

/// Clock skew tolerated on a stored expiry: 5 seconds, in nanoseconds.
pub const EXPIRED_LEEWAY_NANOS: u64 = 5_000_000_000;

/// A record as the distributed store hands it out.
#[derive(Debug)]
pub struct StoreRecord {
    pub key: Vec<u8>,
    pub value: Vec<u8>,
    /// Bytes of the peer identity that published the record.
    pub publisher: Option<Vec<u8>>,
    /// When the store lets the record expire, in nanoseconds of the local
    /// monotonic clock.
    pub expires: Option<u64>,
}

pub struct StoreRecordView {
    pub key: Seq<u8>,
    pub value: Seq<u8>,
    pub publisher: Option<Seq<u8>>,
    pub expires: Option<u64>,
}

impl View for StoreRecord {
    type V = StoreRecordView;

    open spec fn view(&self) -> StoreRecordView {
        StoreRecordView {
            key: self.key@,
            value: self.value@,
            publisher: match self.publisher {
                Some(p) => Some(p@),
                None => None,
            },
            expires: self.expires,
        }
    }
}

/// Walking up from `name`: while it is not a root, the next signed lease in
/// `s` must name as leasee the identity `signer` that signed the link below
/// it; the walk goes on from the base of the lease's subdomain, with the
/// lease's signer. The leases read and the number of bytes they took.
pub open spec fn walk_chain(s: Seq<u8>, name: Seq<u8>, signer: Seq<u8>) -> Result<
    (Seq<SignedView<LeaseView>>, nat),
    Error,
>
    decreases s.len(),
{
    if is_root_name(name) {
        Ok((Seq::empty(), 0))
    } else {
        match parse_signed_lease(s) {
            Err(e) => Err(e),
            Ok((l, k)) => if l.signed.leasee != signer {
                Err(Error::WrongSigner)
            } else if 0 < k <= s.len() {
                prepend(
                    seq![l],
                    k,
                    walk_chain(
                        s.skip(k as int),
                        base_name(l.signed.subdomain),
                        peer_id_of_key(l.pubkey),
                    ),
                )
            } else {
                Err(Error::Format)
            },
        }
    }
}

/// The checks of each kind against the store's expiry, and the name from
/// which the chain of leases starts.
pub open spec fn kind_check(r: RecordView, expires: Option<u64>, now: u64, now_wall: u64) -> Result<
    Seq<u8>,
    Error,
> {
    match r {
        RecordView::Root { root, .. } => if expires is Some {
            Err(Error::UnexpectedExpiry)
        } else {
            Ok(root)
        },
        RecordView::Lease(l) => match expires {
            None => Err(Error::NoExpiry),
            Some(e) => if now >= e + EXPIRED_LEEWAY_NANOS {
                Err(Error::Expired((now - e - EXPIRED_LEEWAY_NANOS) as u64))
            } else if now_wall >= l.until {
                Err(Error::Expired((now_wall - l.until) as u64))
            } else {
                Ok(base_name(l.subdomain))
            },
        },
        RecordView::Addr { domain, .. } => Ok(domain),
    }
}

/// The outcome of validating a stored record at monotonic time `now` and
/// wall-clock time `now_wall` (both in nanoseconds).
pub open spec fn validate(r: StoreRecordView, now: u64, now_wall: u64) -> Result<
    (SignedView<RecordView>, Seq<SignedView<LeaseView>>),
    Error,
> {
    if !has_prefix(r.value, r.key) {
        Err(Error::KeyMismatch)
    } else if r.expires is Some && r.expires->0 > now + REPUBLISH_INTERVAL_NANOS {
        Err(Error::TTLTooBig((r.expires->0 - now - REPUBLISH_INTERVAL_NANOS) as u64))
    } else {
        match r.publisher {
            None => Err(Error::NoPublisher),
            Some(publisher) => match parse_signed_record(r.value) {
                Err(e) => Err(e),
                Ok((top, n)) => if peer_id_of_key(top.pubkey) != publisher {
                    Err(Error::WrongSigner)
                } else {
                    match kind_check(top.signed, r.expires, now, now_wall) {
                        Err(e) => Err(e),
                        Ok(name) => match walk_chain(r.value.skip(n as int), name, publisher) {
                            Err(e) => Err(e),
                            Ok((leases, m)) => if n + m == r.value.len() {
                                Ok((top, leases))
                            } else {
                                Err(Error::MoreData)
                            },
                        },
                    }
                },
            },
        }
    }
}

pub open spec fn outcome_view(r: Result<(Signed<Record>, Vec<Signed<LeaseRecord>>), Error>) -> Result<
    (SignedView<RecordView>, Seq<SignedView<LeaseView>>),
    Error,
> {
    match r {
        Ok((top, leases)) => Ok((top@, leases_view(leases@))),
        Err(e) => Err(e),
    }
}

/// Checks the store's expiry against the record's kind; the name from which
/// the chain of leases starts.
fn check_kind(r: &Record, expires: Option<u64>, now: u64, now_wall: u64) -> (res: Result<
    Name,
    Error,
>)
    ensures
        match res {
            Ok(n) => kind_check(r@, expires, now, now_wall) == Ok::<Seq<u8>, Error>(n@),
            Err(e) => kind_check(r@, expires, now, now_wall) == Err::<Seq<u8>, Error>(e),
        },
{
    match r {
        Record::Root(root) => {
            if expires.is_some() {
                Err(Error::UnexpectedExpiry)
            } else {
                Ok(root.root.duplicate())
            }
        },
        Record::Lease(l) => match expires {
            None => Err(Error::NoExpiry),
            Some(e) => {
                if now >= e && now - e >= EXPIRED_LEEWAY_NANOS {
                    Err(Error::Expired(now - e - EXPIRED_LEEWAY_NANOS))
                } else if now_wall >= l.until {
                    Err(Error::Expired(now_wall - l.until))
                } else {
                    Ok(l.subdomain.base_name())
                }
            },
        },
        Record::Addr(a) => Ok(a.domain.duplicate()),
    }
}

proof fn lemma_skip_zero(s: Seq<u8>)
    ensures
        s.skip(0) == s,
{
    assert(s.skip(0) =~= s);
}

/// Reads the chain of signed leases at `pos`, walking up from
/// `start_name` with `start_signer` as the identity that signed the link
/// below.
#[verifier::rlimit(60)]
fn read_lease_chain(value: &[u8], pos: usize, start_name: Name, start_signer: Vec<u8>) -> (r: Result<
    (Vec<Signed<LeaseRecord>>, usize),
    Error,
>)
    requires
        pos <= value@.len(),
    ensures
        match r {
            Ok((leases, end)) => pos <= end <= value@.len() && walk_chain(
                value@.skip(pos as int),
                start_name@,
                start_signer@,
            ) == Ok::<(Seq<SignedView<LeaseView>>, nat), Error>(
                (leases_view(leases@), (end - pos) as nat),
            ),
            Err(e) => walk_chain(value@.skip(pos as int), start_name@, start_signer@) == Err::<
                (Seq<SignedView<LeaseView>>, nat),
                Error,
            >(e),
        },
{
    let ghost name0 = start_name@;
    let ghost signer0 = start_signer@;
    let mut name = start_name;
    let mut last = start_signer;
    let mut leases: Vec<Signed<LeaseRecord>> = Vec::new();
    let mut cur: usize = pos;
    assert(leases_view(leases@) =~= Seq::<SignedView<LeaseView>>::empty());
    while !name.is_root()
        invariant
            pos <= cur <= value@.len(),
            name0 == start_name@,
            signer0 == start_signer@,
            walk_chain(value@.skip(pos as int), name0, signer0) == prepend(
                leases_view(leases@),
                (cur - pos) as nat,
                walk_chain(value@.skip(cur as int), name@, last@),
            ),
        decreases value@.len() - cur,
    {
        let ghost s = value@.skip(cur as int);
        let (lease, end) = match Signed::<LeaseRecord>::decode(value, cur) {
            Ok(x) => x,
            Err(e) => return Err(e),
        };
        if !bytes_eq(lease.signed.leasee.as_slice(), last.as_slice()) {
            assert(walk_chain(s, name@, last@) == Err::<(Seq<SignedView<LeaseView>>, nat), Error>(
                Error::WrongSigner,
            ));
            return Err(Error::WrongSigner);
        }
        last = peer_id_bytes(lease.pubkey.as_slice());
        name = lease.signed.subdomain.base_name();
        let ghost old_leases = leases_view(leases@);
        let ghost l = lease@;
        leases.push(lease);
        proof {
            assert(s.skip((end - cur) as int) =~= value@.skip(end as int));
            assert(leases_view(leases@) =~= old_leases + seq![l]);
            let tail = walk_chain(value@.skip(end as int), name@, last@);
            match tail {
                Ok((t, m)) => {
                    assert(old_leases + (seq![l] + t) =~= (old_leases + seq![l]) + t);
                },
                Err(_) => {},
            }
        }
        cur = end;
    }
    assert(leases_view(leases@) + Seq::<SignedView<LeaseView>>::empty() =~= leases_view(leases@));
    Ok((leases, cur))
}

/// Decodes and validates a record read from the store: the value must begin
/// with the key; a stored expiry may lie at most the republish interval
/// beyond `now`; the record's signer must be the publisher; a root claim
/// must not expire, a lease must expire and must not have lapsed; and the
/// leases that follow must form an unbroken chain up to a root, with no
/// bytes after it. Returns the signed record and its leases, innermost
/// first.
pub fn from_kad_validated(record: &StoreRecord, now: u64, now_wall: u64) -> (r: Result<
    (Signed<Record>, Vec<Signed<LeaseRecord>>),
    Error,
>)
    ensures
        outcome_view(r) == validate(record@, now, now_wall),
        !has_prefix(record.value@, record.key@) ==> r == Err::<
            (Signed<Record>, Vec<Signed<LeaseRecord>>),
            Error,
        >(Error::KeyMismatch),
{
    let value = record.value.as_slice();
    if !starts_with(value, record.key.as_slice()) {
        return Err(Error::KeyMismatch);
    }
    if let Some(expiry) = record.expires {
        if now <= u64::MAX - REPUBLISH_INTERVAL_NANOS {
            if expiry > now + REPUBLISH_INTERVAL_NANOS {
                return Err(Error::TTLTooBig(expiry - now - REPUBLISH_INTERVAL_NANOS));
            }
        }
    }
    let publisher = match &record.publisher {
        None => return Err(Error::NoPublisher),
        Some(p) => p,
    };
    proof {
        lemma_skip_zero(value@);
    }
    let (top, n) = match Signed::<Record>::decode(value, 0) {
        Ok(x) => x,
        Err(e) => return Err(e),
    };
    let signer = peer_id_bytes(top.pubkey.as_slice());
    if !bytes_eq(signer.as_slice(), publisher.as_slice()) {
        return Err(Error::WrongSigner);
    }
    let name = match check_kind(&top.signed, record.expires, now, now_wall) {
        Ok(name) => name,
        Err(e) => return Err(e),
    };
    let (leases, pos) = match read_lease_chain(value, n, name, copy_bytes(publisher.as_slice())) {
        Ok(x) => x,
        Err(e) => return Err(e),
    };
    if pos == value.len() {
        Ok((top, leases))
    } else {
        Err(Error::MoreData)
    }
}

} // verus!
