//! The connection pool: reuse-or-establish, keyed by destination
//! authority.
//!
//! The pool caches idle connections per authority, serves a checkout by
//! reusing a fresh idle entry or admitting a new connect attempt, evicts
//! entries past the keep-alive or lifetime policy on every lookup, and
//! enforces an outstanding-connection limit per authority. Capacity
//! exhaustion is backpressure, not an error.

use vstd::prelude::*;
use crate::connect::{Key, KeyView};
use crate::poll::Poll;

verus! {

/// The application protocol negotiated for a connection.
#[derive(Clone, Copy, Debug, PartialEq, Eq, Structural)]
pub enum Protocol {
    Http1,
    Http2,
}

/// An established connection checked out of the pool. The caller owns it
/// exclusively; handing it back to `release` returns it to the pool or
/// retires it.
#[derive(Debug)]
pub struct Connection {
    /// The authority the connection was established for.
    pub authority: Key,
    /// The transport's token for the underlying stream.
    pub conn_id: u64,
    /// The protocol negotiated when the connection was established.
    pub protocol: Protocol,
    /// When the connection was established, in driver milliseconds.
    pub created: u64,
}

/// What a `Connection` denotes.
#[verifier::ext_equal]
pub struct ConnectionView {
    pub authority: KeyView,
    pub conn_id: u64,
    pub protocol: Protocol,
    pub created: u64,
}

impl View for Connection {
    type V = ConnectionView;

    open spec fn view(&self) -> ConnectionView {
        ConnectionView {
            authority: self.authority@,
            conn_id: self.conn_id,
            protocol: self.protocol,
            created: self.created,
        }
    }
}

/// One idle pooled connection.
#[derive(Clone, Copy, Debug, PartialEq, Eq, Structural)]
pub struct IdleConn {
    pub conn_id: u64,
    pub protocol: Protocol,
    /// When the connection was established, in driver milliseconds.
    pub created: u64,
    /// When the connection was last released, in driver milliseconds.
    pub idle_since: u64,
}

/// All pool state for one authority: how many connections are
/// outstanding (idle entries plus checked-out ones are both counted
/// against the limit) and the idle entries themselves, most recently
/// released last.
pub struct PoolSlot {
    pub key: Key,
    pub checked_out: u64,
    pub idle: Vec<IdleConn>,
}

/// What a `PoolSlot` denotes.
#[verifier::ext_equal]
pub struct PoolSlotView {
    pub key: KeyView,
    pub checked_out: u64,
    pub idle: Seq<IdleConn>,
}

impl View for PoolSlot {
    type V = PoolSlotView;

    open spec fn view(&self) -> PoolSlotView {
        PoolSlotView { key: self.key@, checked_out: self.checked_out, idle: self.idle@ }
    }
}

/// The whole pool, as specifications see it.
#[verifier::ext_equal]
pub struct PoolView {
    /// Max total age of a connection, in milliseconds.
    pub conn_lifetime: u64,
    /// Max idle period of a pooled connection, in milliseconds.
    pub conn_keep_alive: u64,
    /// Deadline granted to a graceful close, in milliseconds; `None` on
    /// the plain path, `Some(0)` disables it on the TLS path.
    pub disconnect_timeout: Option<u64>,
    /// Max outstanding connections per authority; 0 means unlimited.
    pub limit: usize,
    pub slots: Seq<PoolSlotView>,
}

/// The outcome of a checkout.
#[derive(Debug)]
pub enum Checkout {
    /// A fresh idle connection was reused; no network round trip.
    Reuse(Connection),
    /// Admission granted: the caller must establish a new connection,
    /// which the pool has counted as outstanding.
    Establish,
    /// The limit is reached and no idle entry is reusable: backpressure.
    Pending,
}

/// The outcome of a checkout, at the specification level.
#[derive(Clone, Copy, Debug, PartialEq, Eq, Structural)]
pub enum CheckoutStep {
    Reuse(IdleConn),
    Establish,
    Pending,
}

/// What to do with the transport stream after a release.
#[derive(Clone, Copy, Debug, PartialEq, Eq, Structural)]
pub enum ReleaseAction {
    /// The connection went back into the pool.
    Pooled,
    /// Close the stream now.
    Close,
    /// Close the stream gracefully, dropping it hard at the deadline.
    CloseWithDeadline(u64),
}

/// How an executable checkout result realizes a specification step:
/// same kind, and for a reuse the very connection the step names,
/// stamped with the authority asked for.
pub open spec fn spec_checkout_matches(step: CheckoutStep, r: Checkout, k: KeyView) -> bool {
    match step {
        CheckoutStep::Reuse(c) => r matches Checkout::Reuse(conn)
            && conn@.authority == k
            && conn@.conn_id == c.conn_id
            && conn@.protocol == c.protocol
            && conn@.created == c.created,
        CheckoutStep::Establish => r is Establish,
        CheckoutStep::Pending => r is Pending,
    }
}

/// The first slot holding `k`, or -1.
pub open spec fn spec_find(slots: Seq<PoolSlotView>, k: KeyView) -> int
    decreases slots.len(),
{
    if slots.len() == 0 {
        -1
    } else if slots[0].key == k {
        0
    } else {
        let rest = spec_find(slots.skip(1), k);
        if rest == -1 {
            -1
        } else {
            rest + 1
        }
    }
}

/// Whether an idle entry may still be handed out at `now`: it is within
/// both the keep-alive and the lifetime policy.
pub open spec fn spec_reusable(c: IdleConn, keep_alive: u64, lifetime: u64, now: u64) -> bool {
    &&& now - c.idle_since < keep_alive
    &&& now - c.created < lifetime
}

/// The idle entries that survive a lookup at `now`: exactly the reusable
/// ones, in order.
pub open spec fn spec_keep_fresh(idle: Seq<IdleConn>, keep_alive: u64, lifetime: u64, now: u64) -> Seq<IdleConn>
    decreases idle.len(),
{
    if idle.len() == 0 {
        Seq::empty()
    } else {
        let rest = spec_keep_fresh(idle.drop_last(), keep_alive, lifetime, now);
        if spec_reusable(idle.last(), keep_alive, lifetime, now) {
            rest.push(idle.last())
        } else {
            rest
        }
    }
}

/// Connections outstanding for `k`: idle plus checked out.
pub open spec fn spec_count(p: PoolView, k: KeyView) -> int {
    let i = spec_find(p.slots, k);
    if i < 0 {
        0
    } else {
        p.slots[i].checked_out + p.slots[i].idle.len()
    }
}

/// Connections checked out for `k`.
pub open spec fn spec_checked_out(p: PoolView, k: KeyView) -> int {
    let i = spec_find(p.slots, k);
    if i < 0 {
        0
    } else {
        p.slots[i].checked_out as int
    }
}

/// What a checkout of `k` at `now` does: evict every expired idle entry
/// for the key, then reuse the most recently released survivor, or admit
/// a new connect attempt while the limit allows, or report backpressure.
pub open spec fn spec_checkout(p: PoolView, k: KeyView, now: u64) -> (PoolView, CheckoutStep) {
    let i = spec_find(p.slots, k);
    if i < 0 {
        (
            PoolView {
                slots: p.slots.push(
                    PoolSlotView { key: k, checked_out: 1, idle: Seq::empty() }),
                ..p
            },
            CheckoutStep::Establish,
        )
    } else {
        let s = p.slots[i];
        let kept = spec_keep_fresh(s.idle, p.conn_keep_alive, p.conn_lifetime, now);
        if kept.len() > 0 {
            (
                PoolView {
                    slots: p.slots.update(i, PoolSlotView {
                        key: s.key,
                        checked_out: (s.checked_out + 1) as u64,
                        idle: kept.drop_last(),
                    }),
                    ..p
                },
                CheckoutStep::Reuse(kept.last()),
            )
        } else if (p.limit == 0 && s.checked_out < u64::MAX)
            || (p.limit > 0 && s.checked_out < p.limit) {
            (
                PoolView {
                    slots: p.slots.update(i, PoolSlotView {
                        key: s.key,
                        checked_out: (s.checked_out + 1) as u64,
                        idle: kept,
                    }),
                    ..p
                },
                CheckoutStep::Establish,
            )
        } else {
            (
                PoolView {
                    slots: p.slots.update(i, PoolSlotView {
                        key: s.key,
                        checked_out: s.checked_out,
                        idle: kept,
                    }),
                    ..p
                },
                CheckoutStep::Pending,
            )
        }
    }
}

/// What releasing a connection for `k` at `now` does: a healthy
/// connection still under its lifetime goes back into the pool with its
/// idle clock restarted; anything else is retired and merely decrements
/// the outstanding count.
pub open spec fn spec_release(
    p: PoolView,
    k: KeyView,
    conn_id: u64,
    protocol: Protocol,
    created: u64,
    now: u64,
    healthy: bool,
) -> (PoolView, ReleaseAction)
    recommends
        spec_find(p.slots, k) >= 0,
        p.slots[spec_find(p.slots, k)].checked_out > 0,
{
    let i = spec_find(p.slots, k);
    let s = p.slots[i];
    if healthy && now - created < p.conn_lifetime {
        (
            PoolView {
                slots: p.slots.update(i, PoolSlotView {
                    key: s.key,
                    checked_out: (s.checked_out - 1) as u64,
                    idle: s.idle.push(IdleConn { conn_id, protocol, created, idle_since: now }),
                }),
                ..p
            },
            ReleaseAction::Pooled,
        )
    } else {
        (
            PoolView {
                slots: p.slots.update(i, PoolSlotView {
                    key: s.key,
                    checked_out: (s.checked_out - 1) as u64,
                    idle: s.idle,
                }),
                ..p
            },
            match p.disconnect_timeout {
                Some(dt) => if dt > 0 {
                    ReleaseAction::CloseWithDeadline(
                        if now + dt > u64::MAX { u64::MAX } else { (now + dt) as u64 })
                } else {
                    ReleaseAction::Close
                },
                None => ReleaseAction::Close,
            },
        )
    }
}

/// What abandoning an admitted connect attempt for `k` does: the
/// outstanding count returns to the pool, nothing else changes.
pub open spec fn spec_abandon(p: PoolView, k: KeyView) -> PoolView
    recommends
        spec_find(p.slots, k) >= 0,
        p.slots[spec_find(p.slots, k)].checked_out > 0,
{
    let i = spec_find(p.slots, k);
    let s = p.slots[i];
    PoolView {
        slots: p.slots.update(i, PoolSlotView {
            key: s.key,
            checked_out: (s.checked_out - 1) as u64,
            idle: s.idle,
        }),
        ..p
    }
}

/// Whether a checkout of `k` at `now` would make progress: readiness in
/// the Service sense. Capacity exhaustion shows up here as `false`,
/// never as an error.
pub open spec fn spec_ready(p: PoolView, k: KeyView, now: u64) -> bool {
    !(spec_checkout(p, k, now).1 is Pending)
}

impl PoolView {
    /// The pool's invariant: authorities are keyed at most once, and no
    /// authority's outstanding count exceeds the limit (when one is set)
    /// or the counter's width.
    pub open spec fn wf(self) -> bool {
        &&& forall|i: int, j: int|
            0 <= i < j < self.slots.len() ==> self.slots[i].key != self.slots[j].key
        &&& forall|i: int| 0 <= i < self.slots.len() ==>
            (#[trigger] self.slots[i]).checked_out + self.slots[i].idle.len() <= u64::MAX
        &&& self.limit > 0 ==> forall|i: int| 0 <= i < self.slots.len() ==>
            (#[trigger] self.slots[i]).checked_out + self.slots[i].idle.len() <= self.limit
    }
}

/// The connection pool for one path (plain or TLS).
pub struct ConnectionPool {
    conn_lifetime: u64,
    conn_keep_alive: u64,
    disconnect_timeout: Option<u64>,
    limit: usize,
    slots: Vec<PoolSlot>,
}

impl View for ConnectionPool {
    type V = PoolView;

    closed spec fn view(&self) -> PoolView {
        PoolView {
            conn_lifetime: self.conn_lifetime,
            conn_keep_alive: self.conn_keep_alive,
            disconnect_timeout: self.disconnect_timeout,
            limit: self.limit,
            slots: Seq::new(self.slots@.len(), |i: int| self.slots@[i]@),
        }
    }
}

impl ConnectionPool {
    /// An empty pool with the given policy, all durations in
    /// milliseconds. A limit of 0 means unlimited.
    pub fn new(
        conn_lifetime: u64,
        conn_keep_alive: u64,
        disconnect_timeout: Option<u64>,
        limit: usize,
    ) -> (p: ConnectionPool)
        ensures
            p@.conn_lifetime == conn_lifetime,
            p@.conn_keep_alive == conn_keep_alive,
            p@.disconnect_timeout == disconnect_timeout,
            p@.limit == limit,
            p@.slots =~= Seq::<PoolSlotView>::empty(),
            p@.wf(),
    {
        ConnectionPool {
            conn_lifetime,
            conn_keep_alive,
            disconnect_timeout,
            limit,
            slots: Vec::new(),
        }
    }

    /// The first slot holding `key`, if any.
    fn find_slot(&self, key: &Key) -> (r: Option<usize>)
        ensures
            match r {
                Some(i) => spec_find(self@.slots, key@) == i && i < self@.slots.len(),
                None => spec_find(self@.slots, key@) == -1,
            },
    {
        let n = self.slots.len();
        let mut i: usize = 0;
        while i < n
            invariant
                n == self.slots.len(),
                i <= n,
                forall|j: int| 0 <= j < i ==> (#[trigger] self@.slots[j]).key != key@,
            decreases n - i,
        {
            if self.slots[i].key.same_authority(key) {
                proof {
                    lemma_find_at(self@.slots, key@, i as int);
                }
                return Some(i);
            }
            i = i + 1;
        }
        proof {
            lemma_find_none(self@.slots, key@);
        }
        None
    }
}

/// If every slot before `i` misses `k` and slot `i` holds it, the find
/// lands on `i`.
proof fn lemma_find_at(slots: Seq<PoolSlotView>, k: KeyView, i: int)
    requires
        0 <= i < slots.len(),
        slots[i].key == k,
        forall|j: int| 0 <= j < i ==> (#[trigger] slots[j]).key != k,
    ensures
        spec_find(slots, k) == i,
    decreases i,
{
    if i == 0 {
    } else {
        assert(slots.skip(1).len() == slots.len() - 1);
        assert(forall|j: int| 0 <= j < i - 1 ==> (#[trigger] slots.skip(1)[j]).key == slots[j + 1].key);
        lemma_find_at(slots.skip(1), k, i - 1);
    }
}

/// If no slot holds `k`, the find misses.
proof fn lemma_find_none(slots: Seq<PoolSlotView>, k: KeyView)
    requires
        forall|j: int| 0 <= j < slots.len() ==> (#[trigger] slots[j]).key != k,
    ensures
        spec_find(slots, k) == -1,
    decreases slots.len(),
{
    if slots.len() == 0 {
    } else {
        assert(forall|j: int| 0 <= j < slots.skip(1).len() ==> (#[trigger] slots.skip(1)[j]).key == slots[j + 1].key);
        lemma_find_none(slots.skip(1), k);
    }
}

/// Where the find lands, the key matches; everything before misses.
pub proof fn lemma_find_hit(slots: Seq<PoolSlotView>, k: KeyView)
    ensures
        spec_find(slots, k) >= 0 ==> {
            &&& spec_find(slots, k) < slots.len()
            &&& slots[spec_find(slots, k)].key == k
        },
        spec_find(slots, k) == -1 ==> forall|j: int| 0 <= j < slots.len() ==> (#[trigger] slots[j]).key != k,
        spec_find(slots, k) >= 0 || spec_find(slots, k) == -1,
    decreases slots.len(),
{
    if slots.len() == 0 {
    } else if slots[0].key == k {
    } else {
        lemma_find_hit(slots.skip(1), k);
        if spec_find(slots, k) == -1 {
            assert forall|j: int| 0 <= j < slots.len() implies (#[trigger] slots[j]).key != k by {
                if j > 0 {
                    assert(slots.skip(1)[j - 1] == slots[j]);
                }
            }
        } else {
            assert(slots[spec_find(slots, k)] == slots.skip(1)[spec_find(slots.skip(1), k)]);
        }
    }
}

/// The find only looks at keys: updating a slot without changing its key
/// moves no find.
pub proof fn lemma_find_update(slots: Seq<PoolSlotView>, k: KeyView, i: int, slot: PoolSlotView)
    requires
        0 <= i < slots.len(),
        slot.key == slots[i].key,
    ensures
        spec_find(slots.update(i, slot), k) == spec_find(slots, k),
    decreases slots.len(),
{
    let updated = slots.update(i, slot);
    if slots.len() == 0 {
    } else if i == 0 {
        if slots[0].key == k {
        } else {
            assert(updated.skip(1) =~= slots.skip(1));
        }
    } else {
        if slots[0].key == k {
        } else {
            assert(updated.skip(1) =~= slots.skip(1).update(i - 1, slot));
            lemma_find_update(slots.skip(1), k, i - 1, slot);
        }
    }
}

/// Every entry the eviction keeps is reusable, no more entries than
/// before survive, and something survives exactly when something was
/// reusable.
pub proof fn lemma_keep_fresh(idle: Seq<IdleConn>, keep_alive: u64, lifetime: u64, now: u64)
    ensures
        spec_keep_fresh(idle, keep_alive, lifetime, now).len() <= idle.len(),
        forall|j: int| 0 <= j < spec_keep_fresh(idle, keep_alive, lifetime, now).len()
            ==> spec_reusable(#[trigger] spec_keep_fresh(idle, keep_alive, lifetime, now)[j], keep_alive, lifetime, now),
        spec_keep_fresh(idle, keep_alive, lifetime, now).len() > 0
            <==> exists|j: int| 0 <= j < idle.len()
                && spec_reusable(#[trigger] idle[j], keep_alive, lifetime, now),
    decreases idle.len(),
{
    if idle.len() == 0 {
    } else {
        lemma_keep_fresh(idle.drop_last(), keep_alive, lifetime, now);
        let kept = spec_keep_fresh(idle, keep_alive, lifetime, now);
        let rest = spec_keep_fresh(idle.drop_last(), keep_alive, lifetime, now);
        if spec_reusable(idle.last(), keep_alive, lifetime, now) {
            assert(idle[idle.len() - 1] == idle.last());
        } else {
            if rest.len() > 0 {
                let j = choose|j: int| 0 <= j < idle.drop_last().len()
                    && spec_reusable(#[trigger] idle.drop_last()[j], keep_alive, lifetime, now);
                assert(idle[j] == idle.drop_last()[j]);
            }
            if kept.len() > 0 {
            } else {
                assert forall|j: int| 0 <= j < idle.len()
                    && spec_reusable(#[trigger] idle[j], keep_alive, lifetime, now) implies false by {
                    if j < idle.len() - 1 {
                        assert(idle.drop_last()[j] == idle[j]);
                    }
                }
            }
        }
    }
}

impl ConnectionPool {
    /// Whether an idle entry may still be handed out at `now`.
    fn is_reusable(&self, c: &IdleConn, now: u64) -> (r: bool)
        ensures
            r == spec_reusable(*c, self@.conn_keep_alive, self@.conn_lifetime, now),
    {
        let within_keep_alive = match now.checked_sub(c.idle_since) {
            Some(d) => d < self.conn_keep_alive,
            None => true,
        };
        let within_lifetime = match now.checked_sub(c.created) {
            Some(d) => d < self.conn_lifetime,
            None => true,
        };
        within_keep_alive && within_lifetime
    }

    /// Check a connection out of the pool for `key` at `now`.
    ///
    /// Expired idle entries for the key are discarded first; a surviving
    /// idle entry is reused, most recently released first; otherwise a
    /// new connect attempt is admitted while the outstanding count is
    /// under the limit; otherwise the caller gets backpressure.
    pub fn checkout(&mut self, key: &Key, now: u64) -> (r: Checkout)
        requires
            old(self)@.wf(),
        ensures
            final(self)@ =~~= spec_checkout(old(self)@, key@, now).0,
            final(self)@.wf(),
            spec_checkout_matches(spec_checkout(old(self)@, key@, now).1, r, key@),
    {
        proof {
            lemma_find_hit(self@.slots, key@);
        }
        match self.find_slot(key) {
            None => {
                self.slots.push(PoolSlot {
                    key: key.duplicate(),
                    checked_out: 1,
                    idle: Vec::new(),
                });
                proof {
                    assert(final(self)@.slots =~~= spec_checkout(old(self)@, key@, now).0.slots);
                    lemma_wf_after_push(old(self)@, key@, now);
                }
                Checkout::Establish
            }
            Some(i) => {
                proof {
                    lemma_keep_fresh(
                        old(self)@.slots[i as int].idle,
                        old(self)@.conn_keep_alive,
                        old(self)@.conn_lifetime,
                        now,
                    );
                }
                let ghost old_pool = self@;
                let ka = self.conn_keep_alive;
                let lt = self.conn_lifetime;
                let n = self.slots[i].idle.len();
                let mut kept: Vec<IdleConn> = Vec::new();
                let mut j: usize = 0;
                while j < n
                    invariant
                        i < self.slots.len(),
                        n == self.slots[i as int].idle@.len(),
                        j <= n,
                        ka == self@.conn_keep_alive,
                        lt == self@.conn_lifetime,
                        self@ == old_pool,
                        kept@ =~= spec_keep_fresh(
                            self.slots[i as int].idle@.take(j as int), ka, lt, now),
                    decreases n - j,
                {
                    let c = self.slots[i].idle[j];
                    proof {
                        assert(self.slots[i as int].idle@.take(j + 1).drop_last()
                            =~= self.slots[i as int].idle@.take(j as int));
                        assert(self.slots[i as int].idle@.take(j + 1).last() == c);
                    }
                    if self.is_reusable(&c, now) {
                        kept.push(c);
                    }
                    j = j + 1;
                }
                proof {
                    assert(self.slots[i as int].idle@.take(n as int) =~= self.slots[i as int].idle@);
                }
                let k2 = self.slots[i].key.duplicate();
                let co = self.slots[i].checked_out;
                let limit = self.limit;
                if kept.len() > 0 {
                    let c = match kept.pop() {
                        Some(c) => c,
                        None => {
                            proof {
                                assert(false);
                            }
                            IdleConn { conn_id: 0, protocol: Protocol::Http1, created: 0, idle_since: 0 }
                        }
                    };
                    self.slots[i] = PoolSlot { key: k2, checked_out: co + 1, idle: kept };
                    proof {
                        lemma_checkout_frame(old(self)@, key@, now, self@);
                    }
                    Checkout::Reuse(Connection {
                        authority: key.duplicate(),
                        conn_id: c.conn_id,
                        protocol: c.protocol,
                        created: c.created,
                    })
                } else if (limit == 0 && co < u64::MAX) || (limit > 0 && co < limit as u64) {
                    self.slots[i] = PoolSlot { key: k2, checked_out: co + 1, idle: kept };
                    proof {
                        lemma_checkout_frame(old(self)@, key@, now, self@);
                    }
                    Checkout::Establish
                } else {
                    self.slots[i] = PoolSlot { key: k2, checked_out: co, idle: kept };
                    proof {
                        lemma_checkout_frame(old(self)@, key@, now, self@);
                    }
                    Checkout::Pending
                }
            }
        }
    }
}

/// An owned copy of a list of idle entries.
fn copy_idle(v: &Vec<IdleConn>) -> (r: Vec<IdleConn>)
    ensures
        r@ =~= v@,
{
    let mut r: Vec<IdleConn> = Vec::new();
    let n = v.len();
    let mut i: usize = 0;
    while i < n
        invariant
            n == v.len(),
            i <= n,
            r@ =~= v@.take(i as int),
        decreases n - i,
    {
        r.push(v[i]);
        proof {
            assert(v@.take(i + 1) =~= v@.take(i as int).push(v@[i as int]));
        }
        i = i + 1;
    }
    proof {
        assert(v@.take(n as int) =~= v@);
    }
    r
}

impl ConnectionPool {
    /// Hand a checked-out connection back at `now`. A healthy connection
    /// still under its lifetime is pooled with its idle clock restarted;
    /// anything else is retired, and the returned action says how the
    /// caller is to close the stream.
    ///
    /// The connection must actually be checked out for its authority.
    pub fn release(&mut self, conn: Connection, now: u64, healthy: bool) -> (a: ReleaseAction)
        requires
            old(self)@.wf(),
            spec_find(old(self)@.slots, conn@.authority) >= 0,
            old(self)@.slots[spec_find(old(self)@.slots, conn@.authority)].checked_out > 0,
        ensures
            final(self)@ =~~= spec_release(
                old(self)@, conn@.authority, conn@.conn_id, conn@.protocol, conn@.created,
                now, healthy).0,
            a == spec_release(
                old(self)@, conn@.authority, conn@.conn_id, conn@.protocol, conn@.created,
                now, healthy).1,
            final(self)@.wf(),
    {
        proof {
            lemma_find_hit(self@.slots, conn@.authority);
        }
        let i = match self.find_slot(&conn.authority) {
            Some(i) => i,
            None => {
                proof {
                    assert(false);
                }
                0
            }
        };
        let k2 = self.slots[i].key.duplicate();
        let co = self.slots[i].checked_out;
        let reinsert = healthy && (match now.checked_sub(conn.created) {
            Some(d) => d < self.conn_lifetime,
            None => true,
        });
        if reinsert {
            let mut idle = copy_idle(&self.slots[i].idle);
            idle.push(IdleConn {
                conn_id: conn.conn_id,
                protocol: conn.protocol,
                created: conn.created,
                idle_since: now,
            });
            self.slots[i] = PoolSlot { key: k2, checked_out: co - 1, idle };
            proof {
                lemma_release_frame(old(self)@, conn@, now, healthy, self@);
            }
            ReleaseAction::Pooled
        } else {
            let idle = copy_idle(&self.slots[i].idle);
            self.slots[i] = PoolSlot { key: k2, checked_out: co - 1, idle };
            proof {
                lemma_release_frame(old(self)@, conn@, now, healthy, self@);
            }
            match self.disconnect_timeout {
                Some(dt) => {
                    if dt > 0 {
                        ReleaseAction::CloseWithDeadline(now.saturating_add(dt))
                    } else {
                        ReleaseAction::Close
                    }
                }
                None => ReleaseAction::Close,
            }
        }
    }

    /// Give back the admission a checkout granted: the connect attempt
    /// failed or its future was dropped before it resolved. The
    /// outstanding count returns to the pool, so an abandoned attempt
    /// leaks nothing.
    pub fn abandon(&mut self, key: &Key)
        requires
            old(self)@.wf(),
            spec_find(old(self)@.slots, key@) >= 0,
            old(self)@.slots[spec_find(old(self)@.slots, key@)].checked_out > 0,
        ensures
            final(self)@ =~~= spec_abandon(old(self)@, key@),
            final(self)@.wf(),
    {
        proof {
            lemma_find_hit(self@.slots, key@);
        }
        let i = match self.find_slot(key) {
            Some(i) => i,
            None => {
                proof {
                    assert(false);
                }
                0
            }
        };
        let k2 = self.slots[i].key.duplicate();
        let co = self.slots[i].checked_out;
        let idle = copy_idle(&self.slots[i].idle);
        self.slots[i] = PoolSlot { key: k2, checked_out: co - 1, idle };
        proof {
            lemma_abandon_frame(old(self)@, key@, self@);
        }
    }

    /// Whether a checked-out connection of this pool's for `key` exists
    /// in the books, so that `release` and `abandon` may be called.
    pub fn has_checked_out(&self, key: &Key) -> (r: bool)
        ensures
            r == (spec_find(self@.slots, key@) >= 0
                && self@.slots[spec_find(self@.slots, key@)].checked_out > 0),
    {
        match self.find_slot(key) {
            Some(i) => self.slots[i].checked_out > 0,
            None => false,
        }
    }

    /// Readiness for `key` at `now`, in the Service sense: pending
    /// exactly when the limit is reached and no idle entry could be
    /// reused — backpressure instead of an error.
    pub fn poll_ready(&self, key: &Key, now: u64) -> (r: Poll<()>)
        requires
            self@.wf(),
        ensures
            (r is Ready) == spec_ready(self@, key@, now),
    {
        proof {
            lemma_find_hit(self@.slots, key@);
        }
        match self.find_slot(key) {
            None => Poll::Ready(()),
            Some(i) => {
                proof {
                    lemma_keep_fresh(
                        self@.slots[i as int].idle,
                        self@.conn_keep_alive,
                        self@.conn_lifetime,
                        now,
                    );
                }
                let n = self.slots[i].idle.len();
                let mut j: usize = 0;
                let mut any_fresh = false;
                while j < n
                    invariant
                        i < self.slots.len(),
                        n == self.slots[i as int].idle@.len(),
                        j <= n,
                        any_fresh == (exists|m: int| 0 <= m < j
                            && spec_reusable(#[trigger] self.slots[i as int].idle@[m],
                                self@.conn_keep_alive, self@.conn_lifetime, now)),
                    decreases n - j,
                {
                    let c = self.slots[i].idle[j];
                    if self.is_reusable(&c, now) {
                        any_fresh = true;
                    }
                    j = j + 1;
                }
                if any_fresh {
                    Poll::Ready(())
                } else if (self.limit == 0 && self.slots[i].checked_out < u64::MAX)
                    || (self.limit > 0 && self.slots[i].checked_out < self.limit as u64) {
                    Poll::Ready(())
                } else {
                    Poll::Pending
                }
            }
        }
    }
}

/// A release updates only the found slot and preserves the invariant.
proof fn lemma_release_frame(p: PoolView, c: ConnectionView, now: u64, healthy: bool, q: PoolView)
    requires
        p.wf(),
        spec_find(p.slots, c.authority) >= 0,
        p.slots[spec_find(p.slots, c.authority)].checked_out > 0,
        q =~~= spec_release(p, c.authority, c.conn_id, c.protocol, c.created, now, healthy).0,
    ensures
        q.wf(),
{
    lemma_find_hit(p.slots, c.authority);
    let i = spec_find(p.slots, c.authority);
    assert forall|a: int, b: int| 0 <= a < b < q.slots.len() implies q.slots[a].key != q.slots[b].key by {
        assert(q.slots[a].key == p.slots[a].key);
        assert(q.slots[b].key == p.slots[b].key);
    }
    assert forall|a: int| 0 <= a < q.slots.len() implies
        (#[trigger] q.slots[a]).checked_out + q.slots[a].idle.len() <= u64::MAX by {
        if a != i {
            assert(q.slots[a] == p.slots[a]);
        }
    }
    if q.limit > 0 {
        assert forall|a: int| 0 <= a < q.slots.len() implies
            (#[trigger] q.slots[a]).checked_out + q.slots[a].idle.len() <= q.limit by {
            if a != i {
                assert(q.slots[a] == p.slots[a]);
            }
        }
    }
}

/// An abandon updates only the found slot and preserves the invariant.
proof fn lemma_abandon_frame(p: PoolView, k: KeyView, q: PoolView)
    requires
        p.wf(),
        spec_find(p.slots, k) >= 0,
        p.slots[spec_find(p.slots, k)].checked_out > 0,
        q =~~= spec_abandon(p, k),
    ensures
        q.wf(),
{
    lemma_find_hit(p.slots, k);
    let i = spec_find(p.slots, k);
    assert forall|a: int, b: int| 0 <= a < b < q.slots.len() implies q.slots[a].key != q.slots[b].key by {
        assert(q.slots[a].key == p.slots[a].key);
        assert(q.slots[b].key == p.slots[b].key);
    }
    assert forall|a: int| 0 <= a < q.slots.len() implies
        (#[trigger] q.slots[a]).checked_out + q.slots[a].idle.len() <= u64::MAX by {
        if a != i {
            assert(q.slots[a] == p.slots[a]);
        }
    }
    if q.limit > 0 {
        assert forall|a: int| 0 <= a < q.slots.len() implies
            (#[trigger] q.slots[a]).checked_out + q.slots[a].idle.len() <= q.limit by {
            if a != i {
                assert(q.slots[a] == p.slots[a]);
            }
        }
    }
}

/// A checkout that lands on no slot appends a fresh one; the invariant
/// survives.
proof fn lemma_wf_after_push(p: PoolView, k: KeyView, now: u64)
    requires
        p.wf(),
        spec_find(p.slots, k) == -1,
    ensures
        spec_checkout(p, k, now).0.wf(),
{
    lemma_find_hit(p.slots, k);
    let q = PoolView { slots: p.slots.push(PoolSlotView { key: k, checked_out: 1, idle: Seq::empty() }), ..p };
    assert forall|i: int, j: int| 0 <= i < j < q.slots.len() implies q.slots[i].key != q.slots[j].key by {
        if j < p.slots.len() {
        } else {
            assert(q.slots[j].key == k);
        }
    }
}

/// A checkout that lands on a slot updates only that slot and preserves
/// the invariant.
proof fn lemma_checkout_frame(p: PoolView, k: KeyView, now: u64, q: PoolView)
    requires
        p.wf(),
        spec_find(p.slots, k) >= 0,
        q =~~= spec_checkout(p, k, now).0,
    ensures
        q.wf(),
{
    lemma_find_hit(p.slots, k);
    let i = spec_find(p.slots, k);
    lemma_keep_fresh(p.slots[i].idle, p.conn_keep_alive, p.conn_lifetime, now);
    assert forall|a: int, b: int| 0 <= a < b < q.slots.len() implies q.slots[a].key != q.slots[b].key by {
        assert(q.slots[a].key == p.slots[a].key);
        assert(q.slots[b].key == p.slots[b].key);
    }
    assert forall|a: int| 0 <= a < q.slots.len() implies
        (#[trigger] q.slots[a]).checked_out + q.slots[a].idle.len() <= u64::MAX by {
        if a != i {
            assert(q.slots[a] == p.slots[a]);
        }
    }
    if q.limit > 0 {
        assert forall|a: int| 0 <= a < q.slots.len() implies
            (#[trigger] q.slots[a]).checked_out + q.slots[a].idle.len() <= q.limit by {
            if a != i {
                assert(q.slots[a] == p.slots[a]);
            }
        }
    }
}


/// Where the find lands after appending a slot: an existing hit stays
/// where it was; otherwise the new slot is found exactly when it carries
/// the key.
pub proof fn lemma_find_push(slots: Seq<PoolSlotView>, slot: PoolSlotView, k: KeyView)
    ensures
        spec_find(slots, k) >= 0 ==> spec_find(slots.push(slot), k) == spec_find(slots, k),
        spec_find(slots, k) == -1 && slot.key == k ==> spec_find(slots.push(slot), k) == slots.len(),
        spec_find(slots, k) == -1 && slot.key != k ==> spec_find(slots.push(slot), k) == -1,
    decreases slots.len(),
{
    let pushed = slots.push(slot);
    if slots.len() == 0 {
        assert(pushed[0] == slot);
        if slot.key == k {
            assert(spec_find(pushed, k) == 0);
        } else {
            assert(pushed.skip(1) =~= Seq::<PoolSlotView>::empty());
            assert(spec_find(pushed.skip(1), k) == -1);
            assert(spec_find(pushed, k) == -1);
        }
    } else {
        lemma_find_push(slots.skip(1), slot, k);
        lemma_find_hit(slots.skip(1), k);
        assert(pushed[0] == slots[0]);
        assert(pushed.skip(1) =~= slots.skip(1).push(slot));
        if slots[0].key == k {
            assert(spec_find(slots, k) == 0);
            assert(spec_find(pushed, k) == 0);
        } else {
            assert(slots.skip(1).len() == slots.len() - 1);
            assert(spec_find(slots, k) ==
                if spec_find(slots.skip(1), k) == -1 { -1 } else { spec_find(slots.skip(1), k) + 1 });
            assert(spec_find(pushed.skip(1), k) == spec_find(slots.skip(1).push(slot), k));
            assert(spec_find(pushed, k) ==
                if spec_find(pushed.skip(1), k) == -1 { -1 } else { spec_find(pushed.skip(1), k) + 1 });
            if spec_find(slots, k) == -1 && slot.key == k {
                assert(spec_find(slots.skip(1), k) == -1);
                assert(spec_find(slots.skip(1).push(slot), k) == slots.skip(1).len());
                assert(spec_find(pushed, k) == slots.len());
            }
            if spec_find(slots, k) == -1 && slot.key != k {
                assert(spec_find(slots.skip(1), k) == -1);
                assert(spec_find(slots.skip(1).push(slot), k) == -1);
                assert(spec_find(pushed, k) == -1);
            }
        }
    }
}

/// Reuse: a healthy connection released within its lifetime and asked
/// for again at the same authority within the keep-alive window is
/// reused — no new connection is opened, and it is this very connection
/// that comes back.
pub proof fn lemma_reuse(p: PoolView, c: ConnectionView, t_rel: u64, t_req: u64)
    requires
        p.wf(),
        spec_find(p.slots, c.authority) >= 0,
        p.slots[spec_find(p.slots, c.authority)].checked_out > 0,
        t_rel - c.created < p.conn_lifetime,
        t_rel <= t_req,
        t_req - t_rel < p.conn_keep_alive,
        t_req - c.created < p.conn_lifetime,
    ensures
        ({
            let p1 = spec_release(p, c.authority, c.conn_id, c.protocol, c.created, t_rel, true).0;
            spec_checkout(p1, c.authority, t_req).1 == CheckoutStep::Reuse(
                IdleConn { conn_id: c.conn_id, protocol: c.protocol, created: c.created, idle_since: t_rel })
        }),
{
    lemma_find_hit(p.slots, c.authority);
    let i = spec_find(p.slots, c.authority);
    let e = IdleConn { conn_id: c.conn_id, protocol: c.protocol, created: c.created, idle_since: t_rel };
    let p1 = spec_release(p, c.authority, c.conn_id, c.protocol, c.created, t_rel, true).0;
    lemma_find_update(p.slots, c.authority, i, p1.slots[i]);
    assert(spec_find(p1.slots, c.authority) == i);
    let idle1 = p1.slots[i].idle;
    assert(idle1.last() == e);
    assert(spec_reusable(e, p.conn_keep_alive, p.conn_lifetime, t_req));
    let kept = spec_keep_fresh(idle1, p1.conn_keep_alive, p1.conn_lifetime, t_req);
    assert(kept.last() == e);
}

/// No expired entry is ever handed out: whatever a checkout offers for
/// reuse was within both the keep-alive and the lifetime policy at the
/// time of the checkout.
pub proof fn lemma_reuse_is_fresh(p: PoolView, k: KeyView, now: u64)
    ensures
        spec_checkout(p, k, now).1 matches CheckoutStep::Reuse(c)
            ==> spec_reusable(c, p.conn_keep_alive, p.conn_lifetime, now),
{
    lemma_find_hit(p.slots, k);
    let i = spec_find(p.slots, k);
    if i >= 0 {
        lemma_keep_fresh(p.slots[i].idle, p.conn_keep_alive, p.conn_lifetime, now);
        let kept = spec_keep_fresh(p.slots[i].idle, p.conn_keep_alive, p.conn_lifetime, now);
        if kept.len() > 0 {
            assert(kept.last() == kept[kept.len() - 1]);
        }
    }
}

/// Keep-alive eviction: when every idle entry for the authority has
/// outlived the keep-alive window, none is returned; they are all
/// discarded and, admission permitting, a new connection is established
/// instead.
pub proof fn lemma_keep_alive_eviction(p: PoolView, k: KeyView, now: u64)
    requires
        p.wf(),
        spec_find(p.slots, k) >= 0,
        forall|j: int| 0 <= j < p.slots[spec_find(p.slots, k)].idle.len()
            ==> now - (#[trigger] p.slots[spec_find(p.slots, k)].idle[j]).idle_since >= p.conn_keep_alive,
        (p.limit == 0 && p.slots[spec_find(p.slots, k)].checked_out < u64::MAX)
            || (p.limit > 0 && p.slots[spec_find(p.slots, k)].checked_out < p.limit),
    ensures
        spec_checkout(p, k, now).1 is Establish,
        spec_checkout(p, k, now).0.slots[spec_find(p.slots, k)].idle.len() == 0,
{
    lemma_find_hit(p.slots, k);
    let i = spec_find(p.slots, k);
    lemma_keep_fresh(p.slots[i].idle, p.conn_keep_alive, p.conn_lifetime, now);
}

/// Lifetime eviction: a connection older than the lifetime, however
/// recently it was used, is discarded on its next checkout; admission
/// permitting, a new connection is established instead.
pub proof fn lemma_lifetime_eviction(p: PoolView, k: KeyView, now: u64)
    requires
        p.wf(),
        spec_find(p.slots, k) >= 0,
        forall|j: int| 0 <= j < p.slots[spec_find(p.slots, k)].idle.len()
            ==> now - (#[trigger] p.slots[spec_find(p.slots, k)].idle[j]).created >= p.conn_lifetime,
        (p.limit == 0 && p.slots[spec_find(p.slots, k)].checked_out < u64::MAX)
            || (p.limit > 0 && p.slots[spec_find(p.slots, k)].checked_out < p.limit),
    ensures
        spec_checkout(p, k, now).1 is Establish,
        spec_checkout(p, k, now).0.slots[spec_find(p.slots, k)].idle.len() == 0,
{
    lemma_find_hit(p.slots, k);
    let i = spec_find(p.slots, k);
    lemma_keep_fresh(p.slots[i].idle, p.conn_keep_alive, p.conn_lifetime, now);
}

/// Limit enforcement, backpressure half: with a limit set and every
/// permitted connection of an authority checked out, the next checkout
/// for it is pending — and stays so for any instant, since nothing is
/// idle that could expire into capacity.
pub proof fn lemma_limit_backpressure(p: PoolView, k: KeyView, now: u64)
    requires
        p.wf(),
        p.limit > 0,
        spec_find(p.slots, k) >= 0,
        p.slots[spec_find(p.slots, k)].checked_out == p.limit,
    ensures
        spec_checkout(p, k, now).1 is Pending,
        !spec_ready(p, k, now),
{
    lemma_find_hit(p.slots, k);
    let i = spec_find(p.slots, k);
    assert(p.slots[i].checked_out + p.slots[i].idle.len() <= p.limit);
    assert(p.slots[i].idle.len() == 0);
    lemma_keep_fresh(p.slots[i].idle, p.conn_keep_alive, p.conn_lifetime, now);
}

/// Limit enforcement, progress half: as soon as one of the checked-out
/// connections is released — pooled or retired — the authority is ready
/// again and the next checkout makes progress.
pub proof fn lemma_release_unblocks(p: PoolView, c: ConnectionView, t_rel: u64, t_req: u64, healthy: bool)
    requires
        p.wf(),
        p.limit > 0,
        spec_find(p.slots, c.authority) >= 0,
        p.slots[spec_find(p.slots, c.authority)].checked_out == p.limit,
    ensures
        ({
            let p1 = spec_release(p, c.authority, c.conn_id, c.protocol, c.created, t_rel, healthy).0;
            &&& !(spec_checkout(p1, c.authority, t_req).1 is Pending)
            &&& spec_ready(p1, c.authority, t_req)
        }),
{
    lemma_find_hit(p.slots, c.authority);
    let i = spec_find(p.slots, c.authority);
    assert(p.slots[i].checked_out + p.slots[i].idle.len() <= p.limit);
    assert(p.slots[i].idle.len() == 0);
    let p1 = spec_release(p, c.authority, c.conn_id, c.protocol, c.created, t_rel, healthy).0;
    lemma_find_update(p.slots, c.authority, i, p1.slots[i]);
    assert(spec_find(p1.slots, c.authority) == i);
    lemma_keep_fresh(p1.slots[i].idle, p1.conn_keep_alive, p1.conn_lifetime, t_req);
    assert(p1.slots[i].checked_out < p.limit);
}

/// The pool's admission invariant, as the data model states it: with a
/// limit set, the connections outstanding for an authority — idle plus
/// checked out — never exceed it.
pub proof fn lemma_limit_invariant(p: PoolView, k: KeyView)
    requires
        p.wf(),
        p.limit > 0,
    ensures
        spec_count(p, k) <= p.limit,
{
    lemma_find_hit(p.slots, k);
}

/// An abandoned connect attempt leaks nothing: handing the admission
/// back leaves the authority's checked-out count exactly where it was
/// before the checkout.
pub proof fn lemma_abandon_restores(p: PoolView, k: KeyView, now: u64)
    requires
        p.wf(),
        spec_checkout(p, k, now).1 is Establish,
    ensures
        ({
            let p1 = spec_checkout(p, k, now).0;
            spec_checked_out(spec_abandon(p1, k), k) == spec_checked_out(p, k)
        }),
{
    lemma_find_hit(p.slots, k);
    let i = spec_find(p.slots, k);
    let p1 = spec_checkout(p, k, now).0;
    if i < 0 {
        lemma_find_push(p.slots, PoolSlotView { key: k, checked_out: 1, idle: Seq::empty() }, k);
        assert(spec_find(p1.slots, k) == p.slots.len());
        let p2 = spec_abandon(p1, k);
        lemma_find_update(p1.slots, k, p.slots.len() as int, p2.slots[p.slots.len() as int]);
    } else {
        lemma_find_update(p.slots, k, i, p1.slots[i]);
        assert(spec_find(p1.slots, k) == i);
        let p2 = spec_abandon(p1, k);
        lemma_find_update(p1.slots, k, i, p2.slots[i]);
    }
}

} // verus!
