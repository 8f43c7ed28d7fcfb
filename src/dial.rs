//! Dialing addresses that carry symbolic domains: the address is split at
//! its markers, each marker is resolved to candidate addresses, and every
//! combination of candidates is tried in a fixed order, the rightmost marker
//! advancing first, like an odometer.
use vstd::prelude::*;

use crate::address::{Address, Component, ComponentView};
use crate::transport::{Error, ResolveError};

verus! {

/// The components that follow one symbolic-domain marker, up to the next.
#[derive(Debug)]
pub struct Slot {
    pub domain: String,
    pub rest: Address,
}

/// A dial address split at its symbolic-domain markers.
#[derive(Debug)]
pub struct DialPlan {
    /// The components before the first marker.
    pub start: Address,
    /// One slot per marker, in order.
    pub slots: Vec<Slot>,
}

pub struct SlotView {
    pub domain: Seq<char>,
    pub rest: Seq<ComponentView>,
}

pub struct DialPlanView {
    pub start: Seq<ComponentView>,
    pub slots: Seq<SlotView>,
}

impl View for Slot {
    type V = SlotView;

    open spec fn view(&self) -> SlotView {
        SlotView { domain: self.domain@, rest: self.rest@ }
    }
}

impl View for DialPlan {
    type V = DialPlanView;

    open spec fn view(&self) -> DialPlanView {
        DialPlanView { start: self.start@, slots: slots_view(self.slots@) }
    }
}

pub open spec fn slots_view(v: Seq<Slot>) -> Seq<SlotView> {
    v.map_values(|s: Slot| s@)
}

/// The split of an address at its symbolic-domain markers.
pub open spec fn split_dial(a: Seq<ComponentView>) -> DialPlanView
    decreases a.len(),
{
    if a.len() == 0 {
        DialPlanView { start: Seq::empty(), slots: Seq::empty() }
    } else {
        let p = split_dial(a.drop_last());
        let c = a.last();
        match c {
            ComponentView::Domain(d) => DialPlanView {
                start: p.start,
                slots: p.slots.push(SlotView { domain: d, rest: Seq::empty() }),
            },
            _ => if p.slots.len() == 0 {
                DialPlanView { start: p.start.push(c), slots: p.slots }
            } else {
                let last = p.slots.last();
                DialPlanView {
                    start: p.start,
                    slots: p.slots.update(
                        p.slots.len() - 1,
                        SlotView { domain: last.domain, rest: last.rest.push(c) },
                    ),
                }
            },
        }
    }
}

/// The plan with the slot under construction, if any, appended.
pub open spec fn plan_with(start: Seq<ComponentView>, slots: Seq<SlotView>, cur: Option<SlotView>) -> DialPlanView {
    match cur {
        Some(s) => DialPlanView { start, slots: slots.push(s) },
        None => DialPlanView { start, slots },
    }
}

pub open spec fn cur_view(cur: Option<Slot>) -> Option<SlotView> {
    match cur {
        Some(s) => Some(s@),
        None => None,
    }
}

/// The components of the slots, each marker followed by what follows it.
pub open spec fn slots_components(slots: Seq<SlotView>) -> Seq<ComponentView>
    decreases slots.len(),
{
    if slots.len() == 0 {
        Seq::empty()
    } else {
        slots_components(slots.drop_last()) + seq![ComponentView::Domain(slots.last().domain)]
            + slots.last().rest
    }
}

/// Splitting loses nothing: the part before the first marker, followed by
/// each marker and the components after it, is the address.
pub proof fn lemma_split_dial_lossless(a: Seq<ComponentView>)
    ensures
        split_dial(a).start + slots_components(split_dial(a).slots) == a,
        split_dial(a).slots.len() == 0 ==> split_dial(a).start == a,
    decreases a.len(),
{
    if a.len() == 0 {
        assert(split_dial(a).start + slots_components(split_dial(a).slots) =~= a);
    } else {
        let init = a.drop_last();
        lemma_split_dial_lossless(init);
        let p = split_dial(init);
        let q = split_dial(a);
        let c = a.last();
        assert(init.push(c) =~= a);
        match c {
            ComponentView::Domain(d) => {
                assert(q.slots.drop_last() =~= p.slots);
                assert(q.start + slots_components(q.slots) =~= (p.start + slots_components(p.slots)).push(c));
            },
            _ => {
                if p.slots.len() == 0 {
                    assert(q.start + slots_components(q.slots) =~= p.start.push(c));
                } else {
                    assert(q.slots.drop_last() =~= p.slots.drop_last());
                    assert(q.start + slots_components(q.slots) =~= (p.start + slots_components(p.slots)).push(c));
                }
            },
        }
    }
}

/// Splits `addr` at its symbolic-domain markers.
pub fn plan_dial(addr: &Address) -> (r: DialPlan)
    ensures
        r@ == split_dial(addr@),
{
    let mut start = Address::empty();
    let mut slots: Vec<Slot> = Vec::new();
    let mut cur: Option<Slot> = None;
    let mut i: usize = 0;
    assert(addr@.take(0) =~= Seq::<ComponentView>::empty());
    assert(slots_view(slots@) =~= Seq::<SlotView>::empty());
    while i < addr.components.len()
        invariant
            i <= addr@.len(),
            plan_with(start@, slots_view(slots@), cur_view(cur)) == split_dial(
                addr@.take(i as int),
            ),
            cur is None ==> slots@.len() == 0,
        decreases addr.components.len() - i,
    {
        let c = addr.components[i].duplicate();
        let ghost p = split_dial(addr@.take(i as int));
        proof {
            assert(addr@.take(i + 1).drop_last() =~= addr@.take(i as int));
            assert(addr@.take(i + 1).last() == addr@[i as int]);
        }
        let ghost q = split_dial(addr@.take(i + 1));
        match c {
            Component::Domain(d) => {
                let ghost dv = d@;
                match cur {
                    Some(s) => {
                        let ghost sv = s@;
                        let ghost before = slots_view(slots@);
                        slots.push(s);
                        assert(slots_view(slots@) =~= before.push(sv));
                    },
                    None => {},
                }
                cur = Some(Slot { domain: d, rest: Address::empty() });
                assert(q.slots =~= p.slots.push(SlotView { domain: dv, rest: Seq::empty() }));
            },
            other => {
                match cur {
                    Some(mut s) => {
                        s.rest.push(other);
                        assert(q.slots =~= slots_view(slots@).push(s@));
                        cur = Some(s);
                    },
                    None => {
                        start.push(other);
                        cur = None;
                    },
                }
            },
        }
        i = i + 1;
    }
    match cur {
        Some(s) => {
            let ghost sv = s@;
            let ghost before = slots_view(slots@);
            slots.push(s);
            assert(slots_view(slots@) =~= before.push(sv));
        },
        None => {},
    }
    assert(addr@.take(i as int) =~= addr@);
    DialPlan { start, slots }
}

// ----- the odometer -----
pub open spec fn candidates_view(c: Seq<Vec<Address>>) -> Seq<Seq<Seq<ComponentView>>> {
    c.map_values(|v: Vec<Address>| v@.map_values(|a: Address| a@))
}

/// The number of combinations of the first `n` candidate sets.
pub open spec fn combinations(cands: Seq<Seq<Seq<ComponentView>>>, n: nat) -> nat
    decreases n,
{
    if n == 0 {
        1
    } else {
        combinations(cands, (n - 1) as nat) * cands[n - 1].len()
    }
}

/// The `k`-th address tried over the first `n` markers: the rightmost
/// marker takes the candidate `k` modulo its count, the markers before it
/// the combination `k` divided by that count.
pub open spec fn attempt(
    plan: DialPlanView,
    cands: Seq<Seq<Seq<ComponentView>>>,
    n: nat,
    k: nat,
) -> Seq<ComponentView>
    decreases n,
{
    if n == 0 {
        plan.start
    } else {
        let len = cands[n - 1].len();
        attempt(plan, cands, (n - 1) as nat, k / len) + cands[n - 1][(k % len) as int] + plan.slots[n
            - 1].rest
    }
}

/// Every candidate set is non-empty, one per marker.
pub open spec fn candidates_ready(plan: DialPlanView, cands: Seq<Seq<Seq<ComponentView>>>) -> bool {
    cands.len() == plan.slots.len() && forall|i: int| 0 <= i < cands.len() ==> #[trigger] cands[i].len() > 0
}

proof fn lemma_div_mod_pair(j: nat, i: nat, len: nat)
    requires
        i < len,
    ensures
        (j * len + i) / len == j,
        (j * len + i) % len == i,
{
    vstd::arithmetic::div_mod::lemma_fundamental_div_mod_converse(
        (j * len + i) as int,
        len as int,
        j as int,
        i as int,
    );
}

/// Every fully substituted address, in the order they are tried.
pub fn dial_attempts(plan: &DialPlan, cands: &Vec<Vec<Address>>) -> (r: Vec<Address>)
    requires
        candidates_ready(plan@, candidates_view(cands@)),
    ensures
        r@.len() == combinations(candidates_view(cands@), plan@.slots.len()),
        forall|k: int|
            0 <= k < r@.len() ==> (#[trigger] r@[k])@ == attempt(
                plan@,
                candidates_view(cands@),
                plan@.slots.len(),
                k as nat,
            ),
{
    let ghost cv = candidates_view(cands@);
    let mut list: Vec<Address> = Vec::new();
    list.push(plan.start.duplicate());
    let mut n: usize = 0;
    while n < plan.slots.len()
        invariant
            cv == candidates_view(cands@),
            candidates_ready(plan@, cv),
            n <= plan@.slots.len(),
            list@.len() == combinations(cv, n as nat),
            forall|k: int|
                0 <= k < list@.len() ==> (#[trigger] list@[k])@ == attempt(
                    plan@,
                    cv,
                    n as nat,
                    k as nat,
                ),
        decreases plan.slots.len() - n,
    {
        let set = &cands[n];
        let len = set.len();
        assert(cv[n as int].len() == len);
        assert(len > 0);
        let mut next: Vec<Address> = Vec::new();
        let mut j: usize = 0;
        while j < list.len()
            invariant
                cv == candidates_view(cands@),
                candidates_ready(plan@, cv),
                n < plan@.slots.len(),
                set == cands@[n as int],
                len == set@.len(),
                len == cv[n as int].len(),
                len > 0,
                j <= list@.len(),
                forall|k: int|
                    0 <= k < list@.len() ==> (#[trigger] list@[k])@ == attempt(
                        plan@,
                        cv,
                        n as nat,
                        k as nat,
                    ),
                next@.len() == j * len,
                forall|k: int|
                    0 <= k < next@.len() ==> (#[trigger] next@[k])@ == attempt(
                        plan@,
                        cv,
                        (n + 1) as nat,
                        k as nat,
                    ),
            decreases list.len() - j,
        {
            let mut i: usize = 0;
            while i < len
                invariant
                    cv == candidates_view(cands@),
                    candidates_ready(plan@, cv),
                    n < plan@.slots.len(),
                    set == cands@[n as int],
                    len == set@.len(),
                    len == cv[n as int].len(),
                    len > 0,
                    j < list@.len(),
                    i <= len,
                    list@[j as int]@ == attempt(plan@, cv, n as nat, j as nat),
                    next@.len() == j * len + i,
                    forall|k: int|
                        0 <= k < next@.len() ==> (#[trigger] next@[k])@ == attempt(
                            plan@,
                            cv,
                            (n + 1) as nat,
                            k as nat,
                        ),
                decreases len - i,
            {
                let mut a = list[j].duplicate();
                let cand = &set[i];
                a.extend_from(cand, 0, cand.components.len());
                let rest = &plan.slots[n].rest;
                a.extend_from(rest, 0, rest.components.len());
                proof {
                    let k = j * len + i;
                    lemma_div_mod_pair(j as nat, i as nat, len as nat);
                    assert(cand@.subrange(0, cand@.len() as int) =~= cand@);
                    assert(rest@.subrange(0, rest@.len() as int) =~= rest@);
                    assert(cv[n as int][i as int] == cand@);
                    assert(plan@.slots[n as int].rest == rest@);
                    assert(a@ == attempt(plan@, cv, (n + 1) as nat, k as nat));
                }
                let ghost old_next = next@;
                next.push(a);
                proof {
                    assert forall|k: int| 0 <= k < next@.len() implies (#[trigger] next@[k])@
                        == attempt(plan@, cv, (n + 1) as nat, k as nat) by {
                        if k < old_next.len() {
                            assert(next@[k] == old_next[k]);
                        }
                    }
                }
                i = i + 1;
            }
            proof {
                assert((j + 1) * len == j * len + len) by (nonlinear_arith);
            }
            j = j + 1;
        }
        proof {
            assert(combinations(cv, (n + 1) as nat) == combinations(cv, n as nat) * cv[n as int].len());
        }
        list = next;
        n = n + 1;
    }
    list
}

/// Dialing through every combination of candidates in turn.
pub struct Dial<E> {
    attempts: Vec<Address>,
    next: usize,
    errors: Vec<Error<E>>,
}

impl<E> Dial<E> {
    /// The addresses to try, in order.
    pub closed spec fn attempts(&self) -> Seq<Seq<ComponentView>> {
        self.attempts@.map_values(|a: Address| a@)
    }

    /// How many addresses were handed out.
    pub closed spec fn tried(&self) -> nat {
        self.next as nat
    }

    /// The errors of the failed attempts, in attempt order.
    pub closed spec fn errors(&self) -> Seq<Error<E>> {
        self.errors@
    }

    pub closed spec fn wf(&self) -> bool {
        self.next <= self.attempts@.len()
    }

    /// A dial of `plan` with the candidates that resolution gave each marker.
    /// Fails where a marker has no candidate.
    pub fn new(plan: &DialPlan, candidates: &Vec<Vec<Address>>) -> (r: Result<Dial<E>, Error<E>>)
        requires
            candidates@.len() == plan@.slots.len(),
        ensures
            r is Ok <==> candidates_ready(plan@, candidates_view(candidates@)),
            r is Err ==> r->Err_0 is ResolveError,
            r is Ok ==> {
                let d = r->Ok_0;
                &&& d.wf()
                &&& d.tried() == 0
                &&& d.errors() == Seq::<Error<E>>::empty()
                &&& d.attempts().len() == combinations(
                    candidates_view(candidates@),
                    plan@.slots.len(),
                )
                &&& forall|k: int|
                    0 <= k < d.attempts().len() ==> #[trigger] d.attempts()[k] == attempt(
                        plan@,
                        candidates_view(candidates@),
                        plan@.slots.len(),
                        k as nat,
                    )
            },
    {
        let mut i: usize = 0;
        while i < candidates.len()
            invariant
                i <= candidates@.len(),
                forall|j: int| 0 <= j < i ==> #[trigger] candidates_view(candidates@)[j].len() > 0,
            decreases candidates.len() - i,
        {
            if candidates[i].len() == 0 {
                assert(candidates_view(candidates@)[i as int].len() == 0);
                return Err(Error::ResolveError(ResolveError));
            }
            i = i + 1;
        }
        let attempts = dial_attempts(plan, candidates);
        let d = Dial { attempts, next: 0, errors: Vec::new() };
        assert(d.errors() =~= Seq::<Error<E>>::empty());
        Ok(d)
    }

    /// The next address to try, if any is left.
    pub fn next_address(&mut self) -> (r: Option<Address>)
        requires
            old(self).wf(),
        ensures
            final(self).wf(),
            final(self).attempts() == old(self).attempts(),
            final(self).errors() == old(self).errors(),
            old(self).tried() < old(self).attempts().len() ==> r is Some && r->Some_0@ == old(
                self,
            ).attempts()[old(self).tried() as int] && final(self).tried() == old(self).tried() + 1,
            old(self).tried() >= old(self).attempts().len() ==> r is None && final(self).tried()
                == old(self).tried(),
    {
        if self.next < self.attempts.len() {
            let a = self.attempts[self.next].duplicate();
            self.next = self.next + 1;
            Some(a)
        } else {
            None
        }
    }

    /// Records the failure of the last attempt.
    pub fn record_failure(&mut self, e: Error<E>)
        ensures
            final(self).wf() == old(self).wf(),
            final(self).attempts() == old(self).attempts(),
            final(self).tried() == old(self).tried(),
            final(self).errors() == old(self).errors().push(e),
    {
        self.errors.push(e);
    }

    /// The error that the dial ends with once every attempt failed: every
    /// failure, in attempt order.
    pub fn into_error(self) -> (r: Error<E>)
        ensures
            r is Dial && r->Dial_0@ == self.errors(),
    {
        Error::Dial(self.errors)
    }
}

/// The rightmost marker advances first: from one attempt to the next, every
/// marker but the last keeps its candidate while the last one moves to its
/// next candidate, until it has gone through all of them.
pub proof fn lemma_rightmost_advances_first(
    plan: DialPlanView,
    cands: Seq<Seq<Seq<ComponentView>>>,
    n: nat,
    k: nat,
)
    requires
        0 < n <= cands.len(),
        cands[n - 1].len() > 0,
        (k + 1) % cands[n - 1].len() != 0,
    ensures
        ({
            let len = cands[n - 1].len();
            &&& attempt(plan, cands, n, k) == attempt(plan, cands, (n - 1) as nat, k / len)
                + cands[n - 1][(k % len) as int] + plan.slots[n - 1].rest
            &&& attempt(plan, cands, n, k + 1) == attempt(plan, cands, (n - 1) as nat, k / len)
                + cands[n - 1][((k % len) + 1) as int] + plan.slots[n - 1].rest
        }),
{
    let len = cands[n - 1].len();
    let q = k / len;
    let r = k % len;
    assert(k == q * len + r && r < len) by (nonlinear_arith)
        requires
            len > 0,
            q == k / len,
            r == k % len,
    ;
    assert(r + 1 < len) by {
        if r + 1 == len {
            assert(k + 1 == (q + 1) * len) by (nonlinear_arith)
                requires
                    k == q * len + r,
                    r + 1 == len,
            ;
            vstd::arithmetic::div_mod::lemma_mod_multiples_basic((q + 1) as int, len as int);
        }
    }
    lemma_div_mod_pair(q, (r + 1) as nat, len);
    assert(k + 1 == q * len + (r + 1)) by (nonlinear_arith)
        requires
            k == q * len + r,
    ;
}

} // verus!
