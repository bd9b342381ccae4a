//! A pool of backends: which are configured, which are live, and whose turn it is.
//!
//! The configured backends never change after the pool is built. They are kept
//! strictly ascending, so a pool holds no backend twice and two pools built from
//! the same addresses in any order are the same pool. Selection rotates over the
//! live backends: it takes the first live one at or after the cursor, wrapping
//! round at the end, and moves the cursor one past it.

use vstd::prelude::*;
use super::address::{BackendAddress, lemma_ascending_is_canonical, strictly_ascending};

verus! {

/// Whether `backends` is `addresses` as a pool keeps them: strictly ascending,
/// with the same members.
pub open spec fn is_arrangement(
    backends: Seq<BackendAddress>,
    addresses: Seq<BackendAddress>,
) -> bool {
    &&& strictly_ascending(backends)
    &&& forall|x: BackendAddress|
        #![trigger backends.contains(x)]
        #![trigger addresses.contains(x)]
        backends.contains(x) <==> addresses.contains(x)
}

/// `addresses` as a pool keeps them: each of them once, ascending. There is
/// exactly one such sequence (see [`lemma_arranged`]).
pub open spec fn arranged(addresses: Seq<BackendAddress>) -> Seq<BackendAddress> {
    choose|backends: Seq<BackendAddress>| is_arrangement(backends, addresses)
}

/// Mathematical form of a [`BackendPool`].
pub struct PoolView {
    /// The configured backends, in rotation order.
    pub backends: Seq<BackendAddress>,
    /// For each configured backend, whether it is taken to be live.
    pub healthy: Seq<bool>,
    /// The position at which the next selection starts to look.
    pub cursor: int,
}

impl PoolView {
    /// The pool built from `addresses`: each of them once, ascending, all taken to
    /// be live, the cursor on the first.
    pub open spec fn of(addresses: Seq<BackendAddress>) -> PoolView {
        PoolView {
            backends: arranged(addresses),
            healthy: Seq::new(arranged(addresses).len(), |i: int| true),
            cursor: 0,
        }
    }

    /// How many backends are configured.
    pub open spec fn len(self) -> int {
        self.backends.len() as int
    }

    /// The invariant of a pool.
    pub open spec fn wf(self) -> bool {
        &&& strictly_ascending(self.backends)
        &&& self.healthy.len() == self.backends.len()
        &&& 0 <= self.cursor
        &&& self.cursor < self.len() || self.cursor == 0
    }

    /// Whether `backend` is configured.
    pub open spec fn contains(self, backend: BackendAddress) -> bool {
        self.backends.contains(backend)
    }

    /// Whether `backend` is configured and taken to be live.
    pub open spec fn is_healthy(self, backend: BackendAddress) -> bool {
        exists|i: int| 0 <= i < self.len() && self.backends[i] == backend && self.healthy[i]
    }

    /// Whether some backend is live.
    pub open spec fn any_healthy(self) -> bool {
        exists|i: int| 0 <= i < self.len() && self.healthy[i]
    }

    /// Whether every backend is live.
    pub open spec fn all_healthy(self) -> bool {
        forall|i: int| 0 <= i < self.len() ==> self.healthy[i]
    }

    /// The position `k` places after the cursor, wrapping round at the end.
    /// Meant for `0 <= k <= len()`.
    pub open spec fn slot(self, k: int) -> int {
        if self.cursor + k < self.len() {
            self.cursor + k
        } else {
            self.cursor + k - self.len()
        }
    }

    /// The least `j >= k` such that the backend at `slot(j)` is live, or `len()`
    /// where there is none below `len()`.
    pub open spec fn distance_from(self, k: int) -> int
        decreases self.len() - k,
    {
        if k >= self.len() {
            self.len()
        } else if self.healthy[self.slot(k)] {
            k
        } else {
            self.distance_from(k + 1)
        }
    }

    /// How many places after the cursor the first live backend stands, or `len()`
    /// where none is live.
    pub open spec fn distance(self) -> int {
        self.distance_from(0)
    }

    /// One selection: the backend chosen, if any is live, and the pool afterwards.
    /// Only the cursor moves, and only when a backend is chosen.
    pub open spec fn select(self) -> (Option<BackendAddress>, PoolView) {
        let k = self.distance();
        if k >= self.len() {
            (None, self)
        } else {
            (Some(self.backends[self.slot(k)]), PoolView { cursor: self.slot(k + 1), ..self })
        }
    }

    /// The pool after `count` selections in a row.
    pub open spec fn after(self, count: nat) -> PoolView
        decreases count,
    {
        if count == 0 {
            self
        } else {
            self.after((count - 1) as nat).select().1
        }
    }

    /// What the selection that follows `count` earlier ones returns.
    pub open spec fn pick(self, count: nat) -> Option<BackendAddress> {
        self.after(count).select().0
    }

    /// The pool with `backend` marked live or not. A backend that is not
    /// configured changes nothing.
    pub open spec fn with_health(self, backend: BackendAddress, healthy: bool) -> PoolView {
        PoolView {
            healthy: Seq::new(
                self.healthy.len(),
                |i: int|
                    if self.backends[i] == backend {
                        healthy
                    } else {
                        self.healthy[i]
                    },
            ),
            ..self
        }
    }

    /// The turn, counted from 0, at which a rotation over an all-live pool
    /// reaches position `i`.
    pub open spec fn turn_of(self, i: int) -> int {
        if i >= self.cursor {
            i - self.cursor
        } else {
            i - self.cursor + self.len()
        }
    }
}

/// The ascending `backends` with `address` put at its place, unless it is there.
spec fn placed(backends: Seq<BackendAddress>, address: BackendAddress) -> Seq<BackendAddress>
    decreases backends.len(),
{
    if backends.len() == 0 {
        seq![address]
    } else if backends.last().precedes(address) {
        backends.push(address)
    } else if backends.last() == address {
        backends
    } else {
        placed(backends.drop_last(), address).push(backends.last())
    }
}

proof fn lemma_placed(backends: Seq<BackendAddress>, address: BackendAddress)
    requires
        strictly_ascending(backends),
    ensures
        strictly_ascending(placed(backends, address)),
        forall|x: BackendAddress|
            #![trigger placed(backends, address).contains(x)]
            placed(backends, address).contains(x) <==> (backends.contains(x) || x == address),
    decreases backends.len(),
{
    let out = placed(backends, address);
    if backends.len() == 0 {
        assert(out[0] == address);
        assert forall|x: BackendAddress| #![trigger out.contains(x)] out.contains(x) implies x
            == address by {
            let i = choose|i: int| 0 <= i < out.len() && out[i] == x;
        }
    } else if backends.last().precedes(address) {
        assert forall|i: int, j: int| 0 <= i < j < out.len() implies (#[trigger] out[i]).precedes(
            #[trigger] out[j],
        ) by {
            if j < backends.len() {
                assert(backends[i].precedes(backends[j]));
            } else if i < backends.len() - 1 {
                assert(backends[i].precedes(backends[backends.len() - 1]));
            }
        }
        assert forall|x: BackendAddress|
            #![trigger out.contains(x)]
            out.contains(x) <==> (backends.contains(x) || x == address) by {
            if out.contains(x) {
                let i = choose|i: int| 0 <= i < out.len() && out[i] == x;
                if i < backends.len() {
                    assert(backends[i] == x);
                }
            }
            if backends.contains(x) {
                let i = choose|i: int| 0 <= i < backends.len() && backends[i] == x;
                assert(out[i] == x);
            }
            assert(out[backends.len() as int] == address);
        }
    } else if backends.last() == address {
        assert(backends[backends.len() - 1] == address);
    } else {
        let front = backends.drop_last();
        let last = backends.last();
        assert forall|i: int, j: int| 0 <= i < j < front.len() implies (#[trigger] front[i]).precedes(
            #[trigger] front[j],
        ) by {
            assert(backends[i].precedes(backends[j]));
        }
        lemma_placed(front, address);
        let inner = placed(front, address);
        assert forall|i: int, j: int| 0 <= i < j < out.len() implies (#[trigger] out[i]).precedes(
            #[trigger] out[j],
        ) by {
            if j < inner.len() {
                assert(inner[i].precedes(inner[j]));
            } else {
                assert(inner.contains(inner[i]));
                if front.contains(inner[i]) {
                    let k = choose|k: int| 0 <= k < front.len() && front[k] == inner[i];
                    assert(backends[k].precedes(backends[backends.len() - 1]));
                }
            }
        }
        assert forall|x: BackendAddress|
            #![trigger out.contains(x)]
            out.contains(x) <==> (backends.contains(x) || x == address) by {
            if out.contains(x) {
                let i = choose|i: int| 0 <= i < out.len() && out[i] == x;
                if i < inner.len() {
                    assert(inner.contains(inner[i]));
                    if front.contains(x) {
                        let k = choose|k: int| 0 <= k < front.len() && front[k] == x;
                        assert(backends[k] == x);
                    }
                } else {
                    assert(backends[backends.len() - 1] == x);
                }
            }
            if backends.contains(x) {
                let i = choose|i: int| 0 <= i < backends.len() && backends[i] == x;
                if i < front.len() {
                    assert(front[i] == x);
                    assert(inner.contains(x));
                    let k = choose|k: int| 0 <= k < inner.len() && inner[k] == x;
                    assert(out[k] == x);
                } else {
                    assert(out[inner.len() as int] == x);
                }
            }
            if x == address {
                assert(inner.contains(x));
                let k = choose|k: int| 0 <= k < inner.len() && inner[k] == x;
                assert(out[k] == x);
            }
        }
    }
}

/// Every sequence of addresses has an arrangement.
proof fn lemma_arrangement_exists(addresses: Seq<BackendAddress>) -> (backends: Seq<BackendAddress>)
    ensures
        is_arrangement(backends, addresses),
    decreases addresses.len(),
{
    if addresses.len() == 0 {
        let backends = Seq::<BackendAddress>::empty();
        assert forall|x: BackendAddress| addresses.contains(x) implies false by {
            let i = choose|i: int| 0 <= i < addresses.len() && addresses[i] == x;
        }
        backends
    } else {
        let front = addresses.drop_last();
        let inner = lemma_arrangement_exists(front);
        lemma_placed(inner, addresses.last());
        let backends = placed(inner, addresses.last());
        assert forall|x: BackendAddress|
            #![trigger backends.contains(x)]
            #![trigger addresses.contains(x)]
            backends.contains(x) <==> addresses.contains(x) by {
            if addresses.contains(x) {
                let i = choose|i: int| 0 <= i < addresses.len() && addresses[i] == x;
                if i < front.len() {
                    assert(front[i] == x);
                    assert(inner.contains(x));
                }
            }
            if backends.contains(x) && x != addresses.last() {
                assert(inner.contains(x));
                assert(front.contains(x));
                let i = choose|i: int| 0 <= i < front.len() && front[i] == x;
                assert(addresses[i] == x);
            }
            assert(addresses[addresses.len() - 1] == addresses.last());
        }
        backends
    }
}

/// `arranged(addresses)` is strictly ascending and has the members of
/// `addresses`, and it is the only sequence that is and has.
pub proof fn lemma_arranged(addresses: Seq<BackendAddress>)
    ensures
        is_arrangement(arranged(addresses), addresses),
        forall|backends: Seq<BackendAddress>| #[trigger]
            is_arrangement(backends, addresses) ==> backends == arranged(addresses),
{
    let witness = lemma_arrangement_exists(addresses);
    assert(is_arrangement(arranged(addresses), addresses));
    assert forall|backends: Seq<BackendAddress>| #[trigger]
        is_arrangement(backends, addresses) implies backends == arranged(addresses) by {
        let chosen = arranged(addresses);
        assert forall|x: BackendAddress|
            #![trigger backends.contains(x)]
            #![trigger chosen.contains(x)]
            backends.contains(x) <==> chosen.contains(x) by {
            assert(backends.contains(x) <==> addresses.contains(x));
            assert(chosen.contains(x) <==> addresses.contains(x));
        }
        lemma_ascending_is_canonical(backends, chosen);
    }
}

/// A pool of backends with their liveness and the rotation cursor.
pub struct BackendPool {
    backends: Vec<BackendAddress>,
    healthy: Vec<bool>,
    cursor: usize,
}

impl View for BackendPool {
    type V = PoolView;

    closed spec fn view(&self) -> PoolView {
        PoolView { backends: self.backends@, healthy: self.healthy@, cursor: self.cursor as int }
    }
}

/// Puts `address` at its place in the ascending `backends`, unless it is there.
fn insert_ascending(backends: &mut Vec<BackendAddress>, address: BackendAddress)
    requires
        strictly_ascending(old(backends)@),
    ensures
        strictly_ascending(final(backends)@),
        forall|x: BackendAddress|
            #![trigger final(backends)@.contains(x)]
            #![trigger old(backends)@.contains(x)]
            final(backends)@.contains(x) <==> (old(backends)@.contains(x) || x == address),
{
    let mut at: usize = 0;
    while at < backends.len() && backends[at].lt(&address)
        invariant
            *backends == *old(backends),
            at <= backends.len(),
            forall|i: int| 0 <= i < at ==> (#[trigger] backends@[i]).precedes(address),
        decreases backends.len() - at,
    {
        at += 1;
    }
    if at < backends.len() && backends[at] == address {
        assert(backends@[at as int] == address);
    } else {
        let ghost before = backends@;
        backends.insert(at, address);
        assert(strictly_ascending(backends@)) by {
            assert forall|i: int, j: int| 0 <= i < j < backends@.len() implies (
            #[trigger] backends@[i]).precedes(#[trigger] backends@[j]) by {
                if j < at {
                    assert(before[i].precedes(before[j]));
                } else if j == at {
                    assert(before[i].precedes(address));
                } else if i < at {
                    assert(before[i].precedes(before[j - 1]));
                } else if i == at {
                    if j - 1 > at {
                        assert(before[at as int].precedes(before[j - 1]));
                    }
                } else {
                    assert(before[i - 1].precedes(before[j - 1]));
                }
            }
        }
        assert forall|x: BackendAddress|
            #![trigger backends@.contains(x)]
            #![trigger before.contains(x)]
            backends@.contains(x) <==> (before.contains(x) || x == address) by {
            if backends@.contains(x) {
                let i = choose|i: int| 0 <= i < backends@.len() && backends@[i] == x;
                if i < at {
                    assert(before[i] == x);
                } else if i > at {
                    assert(before[i - 1] == x);
                }
            }
            if before.contains(x) {
                let i = choose|i: int| 0 <= i < before.len() && before[i] == x;
                if i < at {
                    assert(backends@[i] == x);
                } else {
                    assert(backends@[i + 1] == x);
                }
            }
            if x == address {
                assert(backends@[at as int] == x);
            }
        }
    }
}

impl BackendPool {
    /// The pool of the given addresses: each of them once, ascending, all taken to
    /// be live, the cursor on the first.
    pub fn from_addresses(addresses: Vec<BackendAddress>) -> (pool: BackendPool)
        ensures
            pool@ == PoolView::of(addresses@),
            pool@.wf(),
    {
        let mut backends: Vec<BackendAddress> = Vec::new();
        let mut healthy: Vec<bool> = Vec::new();
        let mut i: usize = 0;
        while i < addresses.len()
            invariant
                i <= addresses.len(),
                strictly_ascending(backends@),
                forall|x: BackendAddress|
                    #![trigger backends@.contains(x)]
                    #![trigger addresses@.subrange(0, i as int).contains(x)]
                    backends@.contains(x) <==> addresses@.subrange(0, i as int).contains(x),
            decreases addresses.len() - i,
        {
            let ghost seen = addresses@.subrange(0, i as int);
            let ghost held = backends@;
            insert_ascending(&mut backends, addresses[i]);
            proof {
                let seen_next = addresses@.subrange(0, i + 1);
                assert forall|x: BackendAddress|
                    #![trigger backends@.contains(x)]
                    #![trigger seen_next.contains(x)]
                    backends@.contains(x) <==> seen_next.contains(x) by {
                    if seen_next.contains(x) {
                        let j = choose|j: int| 0 <= j < seen_next.len() && seen_next[j] == x;
                        if j < i {
                            assert(seen[j] == x);
                        }
                    }
                    if held.contains(x) {
                        assert(seen.contains(x));
                        let j = choose|j: int| 0 <= j < seen.len() && seen[j] == x;
                        assert(seen_next[j] == x);
                    }
                    if x == addresses@[i as int] {
                        assert(seen_next[i as int] == x);
                    }
                }
            }
            i += 1;
        }
        assert(addresses@.subrange(0, i as int) =~= addresses@);
        let mut j: usize = 0;
        while j < backends.len()
            invariant
                j <= backends.len(),
                healthy@.len() == j,
                forall|k: int| 0 <= k < j ==> healthy@[k],
            decreases backends.len() - j,
        {
            healthy.push(true);
            j += 1;
        }
        proof {
            lemma_arranged(addresses@);
            assert(is_arrangement(backends@, addresses@));
            assert(healthy@ =~= PoolView::of(addresses@).healthy);
        }
        BackendPool { backends, healthy, cursor: 0 }
    }

    /// The configured backends, live or not, in rotation order.
    pub fn backends(&self) -> (all: &Vec<BackendAddress>)
        ensures
            all@ == self@.backends,
    {
        &self.backends
    }

    /// How many backends are configured.
    pub fn len(&self) -> (n: usize)
        ensures
            n == self@.len(),
    {
        self.backends.len()
    }

    /// Whether `backend` is configured and taken to be live.
    pub fn is_healthy(&self, backend: BackendAddress) -> (live: bool)
        requires
            self@.wf(),
        ensures
            live == self@.is_healthy(backend),
    {
        let mut i: usize = 0;
        while i < self.backends.len()
            invariant
                self@.wf(),
                i <= self.backends.len(),
                forall|k: int| 0 <= k < i ==> self.backends@[k] != backend,
            decreases self.backends.len() - i,
        {
            if self.backends[i] == backend {
                proof {
                    lemma_unique_position(self@, i as int, backend);
                }
                return self.healthy[i];
            }
            i += 1;
        }
        false
    }

    /// Marks `backend` live or not. Says whether it is configured; one that is not
    /// changes nothing.
    pub fn set_health(&mut self, backend: BackendAddress, healthy: bool) -> (known: bool)
        requires
            old(self)@.wf(),
        ensures
            final(self)@.wf(),
            final(self)@ == old(self)@.with_health(backend, healthy),
            known == old(self)@.contains(backend),
    {
        let mut i: usize = 0;
        while i < self.backends.len()
            invariant
                *self == *old(self),
                self@.wf(),
                i <= self.backends.len(),
                forall|k: int| 0 <= k < i ==> self.backends@[k] != backend,
            decreases self.backends.len() - i,
        {
            if self.backends[i] == backend {
                self.healthy.set(i, healthy);
                proof {
                    lemma_unique_position(old(self)@, i as int, backend);
                    assert(self@.healthy =~= old(self)@.with_health(backend, healthy).healthy);
                }
                return true;
            }
            i += 1;
        }
        proof {
            assert(self@.healthy =~= old(self)@.with_health(backend, healthy).healthy);
        }
        false
    }

    /// Chooses the next live backend in rotation, or `None` where none is live.
    pub fn select(&mut self) -> (picked: Option<BackendAddress>)
        requires
            old(self)@.wf(),
        ensures
            final(self)@.wf(),
            (picked, final(self)@) == old(self)@.select(),
            picked is None <==> !old(self)@.any_healthy(),
            picked matches Some(backend) ==> old(self)@.is_healthy(backend),
    {
        proof {
            lemma_select(old(self)@);
        }
        let n = self.backends.len();
        let mut k: usize = 0;
        let mut at: usize = self.cursor;
        while k < n
            invariant
                *self == *old(self),
                self@.wf(),
                n == self@.len(),
                k <= n,
                k < n ==> at == self@.slot(k as int),
                self@.distance_from(k as int) == self@.distance(),
            decreases n - k,
        {
            if self.healthy[at] {
                let chosen = self.backends[at];
                self.cursor = if at + 1 == n {
                    0
                } else {
                    at + 1
                };
                return Some(chosen);
            }
            k += 1;
            at = if at + 1 == n {
                0
            } else {
                at + 1
            };
        }
        None
    }
}

/// A pool as built is valid, holds exactly the addresses it was built from, and
/// takes each of them to be live.
pub proof fn lemma_pool_of(addresses: Seq<BackendAddress>)
    ensures
        PoolView::of(addresses).wf(),
        PoolView::of(addresses).all_healthy(),
        forall|x: BackendAddress|
            #![trigger PoolView::of(addresses).contains(x)]
            #![trigger addresses.contains(x)]
            PoolView::of(addresses).contains(x) <==> addresses.contains(x),
        forall|x: BackendAddress|
            #![trigger PoolView::of(addresses).is_healthy(x)]
            PoolView::of(addresses).is_healthy(x) <==> addresses.contains(x),
{
    lemma_arranged(addresses);
    let pool = PoolView::of(addresses);
    assert forall|x: BackendAddress|
        #![trigger pool.is_healthy(x)]
        pool.is_healthy(x) <==> addresses.contains(x) by {
        if addresses.contains(x) {
            assert(pool.backends.contains(x));
            let i = choose|i: int| 0 <= i < pool.backends.len() && pool.backends[i] == x;
            assert(pool.healthy[i]);
        }
        if pool.is_healthy(x) {
            let i = choose|i: int| 0 <= i < pool.len() && pool.backends[i] == x && pool.healthy[i];
            assert(pool.backends.contains(x));
        }
    }
}

/// In a pool, a backend stands at one position only.
pub proof fn lemma_unique_position(pool: PoolView, i: int, backend: BackendAddress)
    requires
        pool.wf(),
        0 <= i < pool.len(),
        pool.backends[i] == backend,
    ensures
        forall|j: int| 0 <= j < pool.len() && pool.backends[j] == backend ==> j == i,
        pool.is_healthy(backend) == pool.healthy[i],
        pool.contains(backend),
{
    assert forall|j: int| 0 <= j < pool.len() && pool.backends[j] == backend implies j == i by {
        if j < i {
            assert(pool.backends[j].precedes(pool.backends[i]));
        } else if i < j {
            assert(pool.backends[i].precedes(pool.backends[j]));
        }
    }
}

/// What `distance_from` finds: a number between `k` and `len()`; below `len()`
/// it names a live backend, and every place from `k` up to it is not live.
pub proof fn lemma_distance_from(pool: PoolView, k: int)
    requires
        pool.wf(),
        0 <= k <= pool.len(),
    ensures
        k <= pool.distance_from(k) <= pool.len(),
        pool.distance_from(k) < pool.len() ==> pool.healthy[pool.slot(pool.distance_from(k))],
        forall|j: int| k <= j < pool.distance_from(k) ==> !pool.healthy[#[trigger] pool.slot(j)],
    decreases pool.len() - k,
{
    if k < pool.len() && !pool.healthy[pool.slot(k)] {
        lemma_distance_from(pool, k + 1);
    }
}

/// A selection fails exactly when no backend is live, and then leaves the pool as
/// it was. One that succeeds returns a configured, live backend: the first such at
/// or after the cursor. It changes nothing but the cursor, and keeps the pool's
/// invariant.
pub proof fn lemma_select(pool: PoolView)
    requires
        pool.wf(),
    ensures
        pool.select().0 is None <==> !pool.any_healthy(),
        pool.select().0 is None ==> pool.select().1 == pool,
        pool.select().0 matches Some(b) ==> pool.is_healthy(b) && pool.contains(b),
        pool.select().1.wf(),
        pool.select().1.backends == pool.backends,
        pool.select().1.healthy == pool.healthy,
{
    lemma_distance_from(pool, 0);
    let k = pool.distance();
    if k < pool.len() {
        let at = pool.slot(k);
        assert(0 <= at < pool.len() && pool.healthy[at]);
        assert(pool.backends.contains(pool.backends[at]));
    } else {
        assert forall|i: int| 0 <= i < pool.len() implies !pool.healthy[i] by {
            let j = pool.turn_of(i);
            assert(pool.slot(j) == i);
        }
    }
}

/// A backend that is not live is never selected, however many selections are
/// made in a row, as long as it is not marked live again.
pub proof fn law_unhealthy_backend_is_never_selected(
    pool: PoolView,
    backend: BackendAddress,
    count: nat,
)
    requires
        pool.wf(),
        !pool.is_healthy(backend),
    ensures
        pool.pick(count) != Some(backend),
        pool.after(count).wf(),
        pool.after(count).backends == pool.backends,
        pool.after(count).healthy == pool.healthy,
    decreases count,
{
    if count > 0 {
        law_unhealthy_backend_is_never_selected(pool, backend, (count - 1) as nat);
        lemma_select(pool.after((count - 1) as nat));
    }
    let now = pool.after(count);
    lemma_select(now);
    if now.select().0 == Some(backend) {
        let i = choose|i: int| 0 <= i < now.len() && now.backends[i] == backend && now.healthy[i];
        assert(pool.backends[i] == backend && pool.healthy[i]);
    }
}

/// With every backend live, the selection that follows `count` earlier ones
/// returns the backend `count` places after the cursor, wrapping round; so the
/// rotation goes through the configured backends in their order.
pub proof fn law_rotation_order(pool: PoolView, count: nat)
    requires
        pool.wf(),
        pool.all_healthy(),
        count < pool.len(),
    ensures
        pool.pick(count) == Some(pool.backends[pool.slot(count as int)]),
        pool.after(count) == (PoolView { cursor: pool.slot(count as int), ..pool }),
        pool.after((count + 1) as nat) == (PoolView { cursor: pool.slot(count as int + 1), ..pool }),
    decreases count,
{
    if count > 0 {
        law_rotation_order(pool, (count - 1) as nat);
    }
    let now = pool.after(count);
    assert(now == (PoolView { cursor: pool.slot(count as int), ..pool }));
    assert(now.healthy[now.slot(0)]);
    assert(now.distance() == 0);
    assert(pool.after((count + 1) as nat) == now.select().1);
}

/// Round robin: with all `n` backends live, `n` selections in a row return each
/// backend exactly once, in rotation order, and leave the pool as it was, so the
/// next `n` repeat them.
pub proof fn law_round_robin(pool: PoolView)
    requires
        pool.wf(),
        pool.all_healthy(),
    ensures
        forall|i: int|
            0 <= i < pool.len() ==> {
                &&& 0 <= pool.turn_of(i) < pool.len()
                &&& #[trigger] pool.pick(pool.turn_of(i) as nat) == Some(pool.backends[i])
            },
        forall|i: int, turn: nat|
            0 <= i < pool.len() && turn < pool.len() && #[trigger] pool.pick(turn) == Some(
                #[trigger] pool.backends[i],
            ) ==> turn == pool.turn_of(i),
        pool.after(pool.len() as nat) == pool,
{
    assert forall|i: int| 0 <= i < pool.len() implies {
        &&& 0 <= pool.turn_of(i) < pool.len()
        &&& #[trigger] pool.pick(pool.turn_of(i) as nat) == Some(pool.backends[i])
    } by {
        law_rotation_order(pool, pool.turn_of(i) as nat);
    }
    assert forall|i: int, turn: nat|
        0 <= i < pool.len() && turn < pool.len() && #[trigger] pool.pick(turn) == Some(
            #[trigger] pool.backends[i],
        ) implies turn == pool.turn_of(i) by {
        law_rotation_order(pool, turn);
        lemma_unique_position(pool, i, pool.backends[i]);
    }
    if pool.len() > 0 {
        law_rotation_order(pool, (pool.len() - 1) as nat);
    }
}

/// Marking a backend changes its liveness and no other: a configured backend
/// that is marked down is not live until it is marked up, and then it is. The
/// pool stays valid, with the same backends and cursor.
pub proof fn law_marking_sets_liveness(
    pool: PoolView,
    backend: BackendAddress,
    healthy: bool,
    other: BackendAddress,
)
    requires
        pool.wf(),
    ensures
        pool.with_health(backend, healthy).wf(),
        pool.with_health(backend, healthy).backends == pool.backends,
        pool.with_health(backend, healthy).cursor == pool.cursor,
        pool.with_health(backend, healthy).is_healthy(backend) == (healthy && pool.contains(
            backend,
        )),
        other != backend ==> pool.with_health(backend, healthy).is_healthy(other)
            == pool.is_healthy(other),
{
    let marked = pool.with_health(backend, healthy);
    if pool.contains(backend) {
        let i = choose|i: int| 0 <= i < pool.backends.len() && pool.backends[i] == backend;
        lemma_unique_position(pool, i, backend);
        lemma_unique_position(marked, i, backend);
    } else {
        if marked.is_healthy(backend) {
            let i = choose|i: int|
                0 <= i < marked.len() && marked.backends[i] == backend && marked.healthy[i];
            assert(pool.backends.contains(backend));
        }
    }
    if other != backend {
        if pool.is_healthy(other) {
            let i = choose|i: int|
                0 <= i < pool.len() && pool.backends[i] == other && pool.healthy[i];
            assert(marked.backends[i] == other && marked.healthy[i]);
        }
        if marked.is_healthy(other) {
            let i = choose|i: int|
                0 <= i < marked.len() && marked.backends[i] == other && marked.healthy[i];
            assert(pool.backends[i] == other && pool.healthy[i]);
        }
    }
}

} // verus!
