//! The decisions of the behaviour that bridges control requests and the
//! distributed hash table: a resolution becomes a lookup under the domain's
//! address key, each lookup is correlated with the caller waiting on it, and
//! a finished lookup is answered from the validated record it found.
use vstd::prelude::*;

use std::collections::HashMap;

use crate::name::Name;
use crate::record::{addr_tag, key_field, Error, Record, RecordView};
use crate::validate::{from_kad_validated, validate, StoreRecord, StoreRecordView};

verus! {

broadcast use vstd::std_specs::hash::group_hash_axioms;

/// A request of the control plane; `R` answers a resolution, `G` a
/// registration.
pub enum Request<R, G> {
    Resolve { domain: Name, responder: R },
    Register { domain: String, responder: G },
    Deregister { domain: String },
}

/// What the behaviour asks of the hash table and of name-claim
/// bookkeeping.
pub enum Action<R, G> {
    /// Look up `key`; the lookup's identifier is then paired with
    /// `responder`.
    GetRecord { key: Vec<u8>, responder: R },
    /// Claim `domain` for the local node.
    Claim { domain: String, responder: G },
    /// Release `domain`.
    Release { domain: String },
}

/// How a lookup ended.
#[derive(Debug)]
pub enum QueryOutcome {
    /// A record was found.
    Found(StoreRecord),
    /// The lookup finished without a record.
    NotFound,
    /// The lookup failed.
    Failed,
}

pub enum QueryOutcomeView {
    Found(StoreRecordView),
    NotFound,
    Failed,
}

impl View for QueryOutcome {
    type V = QueryOutcomeView;

    open spec fn view(&self) -> QueryOutcomeView {
        match self {
            QueryOutcome::Found(r) => QueryOutcomeView::Found(r@),
            QueryOutcome::NotFound => QueryOutcomeView::NotFound,
            QueryOutcome::Failed => QueryOutcomeView::Failed,
        }
    }
}

/// Why a resolution failed.
#[derive(Debug, PartialEq, Eq)]
pub enum ResolveFailure {
    /// The record found was refused.
    Invalid(Error),
    /// The lookup failed.
    QueryFailed,
}

/// The lookup key of a domain's address record.
pub open spec fn lookup_key_of(domain: Seq<u8>) -> Seq<u8> {
    key_field(addr_tag(), domain)
}

/// The addresses that a record publishes: a root claim its address, an
/// address record its list, a lease none.
pub open spec fn addresses_of(r: RecordView) -> Seq<Seq<u8>> {
    match r {
        RecordView::Root { addr, .. } => seq![addr],
        RecordView::Addr { addrs, .. } => addrs,
        RecordView::Lease(_) => Seq::empty(),
    }
}

/// The answer to a finished lookup.
pub open spec fn response(outcome: QueryOutcomeView, now: u64, now_wall: u64) -> Result<
    Seq<Seq<u8>>,
    ResolveFailure,
> {
    match outcome {
        QueryOutcomeView::Found(rec) => match validate(rec, now, now_wall) {
            Ok((top, _)) => Ok(addresses_of(top.signed)),
            Err(e) => Err(ResolveFailure::Invalid(e)),
        },
        QueryOutcomeView::NotFound => Ok(Seq::empty()),
        QueryOutcomeView::Failed => Err(ResolveFailure::QueryFailed),
    }
}

pub open spec fn response_view(r: Result<Vec<Vec<u8>>, ResolveFailure>) -> Result<
    Seq<Seq<u8>>,
    ResolveFailure,
> {
    match r {
        Ok(v) => Ok(crate::record::addrs_view(v@)),
        Err(e) => Err(e),
    }
}

/// The lookup key under which the address record of `domain` is stored.
pub fn lookup_key(domain: &Name) -> (r: Vec<u8>)
    ensures
        r@ == lookup_key_of(domain@),
{
    let rec = Record::Addr(crate::record::AddrRecord { domain: domain.duplicate(), addrs: Vec::new() });
    rec.key()
}

/// Answers a finished lookup: the addresses of a valid record, none where
/// no record was found, and a failure where the record was refused or the
/// lookup failed.
pub fn respond(outcome: &QueryOutcome, now: u64, now_wall: u64) -> (r: Result<
    Vec<Vec<u8>>,
    ResolveFailure,
>)
    ensures
        response_view(r) == response(outcome@, now, now_wall),
{
    match outcome {
        QueryOutcome::Found(rec) => match from_kad_validated(rec, now, now_wall) {
            Ok((top, _)) => {
                let mut out: Vec<Vec<u8>> = Vec::new();
                match top.signed {
                    Record::Root(root) => {
                        out.push(root.addr);
                        assert(crate::record::addrs_view(out@) =~= addresses_of(top@.signed));
                    },
                    Record::Addr(a) => {
                        out = a.addrs;
                    },
                    Record::Lease(_) => {
                        assert(crate::record::addrs_view(out@) =~= addresses_of(top@.signed));
                    },
                }
                Ok(out)
            },
            Err(e) => Err(ResolveFailure::Invalid(e)),
        },
        QueryOutcome::NotFound => {
            let out: Vec<Vec<u8>> = Vec::new();
            assert(crate::record::addrs_view(out@) =~= Seq::<Seq<u8>>::empty());
            Ok(out)
        },
        QueryOutcome::Failed => Err(ResolveFailure::QueryFailed),
    }
}

/// The lookups in flight, each with the caller waiting on it.
pub struct Lookups<R> {
    pending: HashMap<u64, R>,
}

impl<R> Lookups<R> {
    /// The waiting caller of each lookup in flight.
    pub closed spec fn pending(&self) -> Map<u64, R> {
        self.pending@
    }

    /// No lookup in flight.
    pub fn new() -> (r: Lookups<R>)
        ensures
            r.pending() == Map::<u64, R>::empty(),
    {
        Lookups { pending: HashMap::new() }
    }

    /// Pairs lookup `id` with `responder`. A responder already paired with
    /// `id` is displaced and returned: identifiers are never reused, so this
    /// reveals a fault of the caller.
    pub fn start(&mut self, id: u64, responder: R) -> (r: Option<R>)
        ensures
            final(self).pending() == old(self).pending().insert(id, responder),
            match r {
                Some(prev) => old(self).pending().contains_key(id) && prev == old(
                    self,
                ).pending()[id],
                None => !old(self).pending().contains_key(id),
            },
    {
        self.pending.insert(id, responder)
    }

    /// A progress step of lookup `id`: on its last step the lookup leaves
    /// the table and its responder is returned; earlier steps change
    /// nothing.
    pub fn progress(&mut self, id: u64, last: bool) -> (r: Option<R>)
        ensures
            !last ==> r is None && final(self).pending() == old(self).pending(),
            last ==> final(self).pending() == old(self).pending().remove(id),
            last ==> match r {
                Some(resp) => old(self).pending().contains_key(id) && resp == old(
                    self,
                ).pending()[id],
                None => !old(self).pending().contains_key(id),
            },
    {
        if last {
            self.pending.remove(&id)
        } else {
            None
        }
    }

    /// Whether lookup `id` is in flight.
    pub fn is_pending(&self, id: u64) -> (r: bool)
        ensures
            r == self.pending().contains_key(id),
    {
        self.pending.contains_key(&id)
    }
}

/// The outcome a lookup ends with: the first record it found, if any;
/// otherwise how its last step ended.
pub open spec fn final_outcome(found: Option<StoreRecordView>, last_step: QueryOutcomeView) -> QueryOutcomeView {
    match found {
        Some(r) => QueryOutcomeView::Found(r),
        None => last_step,
    }
}

/// The records kept after a step of lookup `id`: the first record found by
/// a lookup in flight is kept until the lookup ends.
pub open spec fn keep_found(
    found: Map<u64, StoreRecordView>,
    pending: bool,
    id: u64,
    step: QueryOutcomeView,
) -> Map<u64, StoreRecordView> {
    match step {
        QueryOutcomeView::Found(r) => if pending && !found.contains_key(id) {
            found.insert(id, r)
        } else {
            found
        },
        _ => found,
    }
}

/// The behaviour's state: the lookups in flight and the first record each
/// has found.
pub struct Behaviour<R> {
    lookups: Lookups<R>,
    found: HashMap<u64, StoreRecord>,
}

impl<R> Behaviour<R> {
    /// The waiting caller of each lookup in flight.
    pub closed spec fn pending(&self) -> Map<u64, R> {
        self.lookups.pending()
    }

    /// The first record found by each lookup in flight that found one.
    pub closed spec fn found(&self) -> Map<u64, StoreRecordView> {
        Map::new(|id: u64| self.found@.contains_key(id), |id: u64| self.found@[id]@)
    }

    pub fn new() -> (r: Behaviour<R>)
        ensures
            r.pending() == Map::<u64, R>::empty(),
            r.found() == Map::<u64, StoreRecordView>::empty(),
    {
        let r = Behaviour { lookups: Lookups::new(), found: HashMap::new() };
        assert(r.found() =~= Map::<u64, StoreRecordView>::empty());
        r
    }

    /// Pairs lookup `id` with `responder`; a responder already paired with
    /// `id` is displaced and returned.
    pub fn start_lookup(&mut self, id: u64, responder: R) -> (r: Option<R>)
        ensures
            final(self).pending() == old(self).pending().insert(id, responder),
            final(self).found() == old(self).found(),
            match r {
                Some(prev) => old(self).pending().contains_key(id) && prev == old(
                    self,
                ).pending()[id],
                None => !old(self).pending().contains_key(id),
            },
    {
        self.lookups.start(id, responder)
    }

    /// Turns a control request into an action: a resolution into a lookup
    /// of the domain's address key, a registration into a claim, a
    /// deregistration into a release.
    pub fn on_request<G>(&self, request: Request<R, G>) -> (r: Action<R, G>)
        ensures
            match request {
                Request::Resolve { domain, responder } => r matches Action::GetRecord {
                    key,
                    responder: rr,
                } && key@ == lookup_key_of(domain@) && rr == responder,
                Request::Register { domain, responder } => r matches Action::Claim {
                    domain: d,
                    responder: g,
                } && d == domain && g == responder,
                Request::Deregister { domain } => r matches Action::Release { domain: d } && d
                    == domain,
            },
    {
        match request {
            Request::Resolve { domain, responder } => Action::GetRecord {
                key: lookup_key(&domain),
                responder,
            },
            Request::Register { domain, responder } => Action::Claim { domain, responder },
            Request::Deregister { domain } => Action::Release { domain },
        }
    }

    /// A progress step of lookup `id`. The first record that a lookup in
    /// flight finds is kept; on the last step the lookup leaves the table
    /// and its responder is returned with the answer to the lookup's final
    /// outcome. Steps of lookups not in flight change nothing.
    pub fn on_query_progress(
        &mut self,
        id: u64,
        last: bool,
        step: QueryOutcome,
        now: u64,
        now_wall: u64,
    ) -> (r: Option<(R, Result<Vec<Vec<u8>>, ResolveFailure>)>)
        ensures
            ({
                let kept = keep_found(
                    old(self).found(),
                    old(self).pending().contains_key(id),
                    id,
                    step@,
                );
                &&& !last ==> r is None && final(self).pending() == old(self).pending() && final(self).found() == kept
                &&& last ==> final(self).pending() == old(self).pending().remove(
                    id,
                ) && final(self).found() == kept.remove(id)
                &&& last && old(self).pending().contains_key(id) ==> r is Some
                    && r->Some_0.0 == old(self).pending()[id] && response_view(
                    r->Some_0.1,
                ) == response(
                    final_outcome(
                        if kept.contains_key(id) {
                            Some(kept[id])
                        } else {
                            None
                        },
                        step@,
                    ),
                    now,
                    now_wall,
                )
                &&& last && !old(self).pending().contains_key(id) ==> r is None
            }),
    {
        let ghost old_found = self.found();
        let pending = self.lookups.is_pending(id);
        let step = match step {
            QueryOutcome::Found(rec) => {
                if pending && !self.found.contains_key(&id) {
                    self.found.insert(id, rec);
                    assert(self.found() =~= old_found.insert(id, rec@));
                    QueryOutcome::NotFound
                } else {
                    QueryOutcome::Found(rec)
                }
            },
            other => other,
        };
        let ghost kept = self.found();
        if !last {
            return None;
        }
        let stashed = self.found.remove(&id);
        assert(self.found() =~= kept.remove(id));
        match self.lookups.progress(id, true) {
            Some(responder) => {
                let outcome = match stashed {
                    Some(rec) => QueryOutcome::Found(rec),
                    None => step,
                };
                Some((responder, respond(&outcome, now, now_wall)))
            },
            None => None,
        }
    }
}

/// Lookups under different identifiers do not interfere: each finishing
/// lookup hands back its own responder, and the other stays in flight with
/// its responder, in either order of completion.
pub proof fn lemma_lookups_independent<R>(pending: Map<u64, R>, q1: u64, r1: R, q2: u64, r2: R)
    requires
        q1 != q2,
    ensures
        ({
            let m = pending.insert(q1, r1).insert(q2, r2);
            &&& m.contains_key(q1) && m[q1] == r1
            &&& m.contains_key(q2) && m[q2] == r2
            &&& m.remove(q1).contains_key(q2) && m.remove(q1)[q2] == r2
            &&& !m.remove(q1).contains_key(q1)
            &&& m.remove(q2).contains_key(q1) && m.remove(q2)[q1] == r1
            &&& !m.remove(q1).remove(q2).contains_key(q2)
        }),
{
}

} // verus!
