//! A hashed timer wheel.
//!
//! Time is cut into ticks. Each timer hangs in the slot of the tick on which it is due,
//! and the wheel turns from tick to tick as it is polled.
use crate::builder::Builder;
use crate::store::{
    slab_get, slab_insert, slab_len, slab_set, slab_try_remove, slab_with_capacity,
};
use slab::Slab;
use vstd::prelude::*;

verus! {

/// A timer of a [`Wheel`]: where it is stored, and the number under which it was given out.
/// A place is used again, a number is not.
#[derive(Clone, Copy, Debug, PartialEq, Eq, Structural)]
pub struct Token {
    pub key: usize,
    pub serial: u64,
}

/// A timer that is armed: the tick on which it is due and the id that it reports.
pub struct Timer {
    pub due: nat,
    pub id: u64,
}

/// What a [`Wheel`] is: its timers under their tokens (`None` where the timer is
/// reserved and not armed), the number that the next timer gets, the tick that it has
/// turned to, the length of a tick in nanoseconds, and how many timers it takes.
#[verifier::ext_equal]
pub struct WheelView {
    pub timers: Map<Token, Option<Timer>>,
    pub serial: u64,
    pub tick: nat,
    pub tick_nanos: nat,
    pub capacity: nat,
}

/// The first tick that is not before the time `at`.
pub open spec fn tick_at(at: nat, tick_nanos: nat) -> nat {
    if at % tick_nanos == 0 {
        at / tick_nanos
    } else {
        at / tick_nanos + 1
    }
}

impl WheelView {
    /// There is no timer to be had: the wheel holds as many as it takes, or has no number
    /// left.
    pub open spec fn full(self) -> bool {
        self.timers.dom().len() >= self.capacity || self.serial == u64::MAX
    }

    /// The timer `token` is armed.
    pub open spec fn armed(self, token: Token) -> bool {
        self.timers.contains_key(token) && self.timers[token] is Some
    }

    /// The timer that is armed under `token`.
    pub open spec fn timer(self, token: Token) -> Timer {
        self.timers[token]->0
    }

    /// The tick on which a timer for the time `at` is due when it is armed now.
    pub open spec fn due(self, at: nat) -> nat {
        let t = tick_at(at, self.tick_nanos);
        if t >= self.tick {
            t
        } else {
            self.tick
        }
    }

    /// The timer `token` is armed and due at the time `now`.
    pub open spec fn expired(self, token: Token, now: nat) -> bool {
        self.armed(token) && self.timer(token).due <= now / self.tick_nanos
    }

    /// No timer is due at the time `now`.
    pub open spec fn none_due(self, now: nat) -> bool {
        forall|token: Token| !#[trigger] self.expired(token, now)
    }

    /// No timer that is armed is due before `token`.
    pub open spec fn earliest(self, token: Token) -> bool {
        forall|other: Token| #[trigger]
            self.armed(other) ==> self.timer(token).due <= self.timer(other).due
    }

    /// One timer of the wheel has reported: it is the wheel's no more, and the wheel has
    /// turned to the tick on which it was due.
    pub open spec fn reported(self, token: Token) -> WheelView {
        WheelView { timers: self.timers.remove(token), tick: self.timer(token).due, ..self }
    }

    /// Nothing is due at the time `now`: the wheel has turned to its tick.
    pub open spec fn turned(self, now: nat) -> WheelView {
        let t = now / self.tick_nanos;
        WheelView {
            tick: if t >= self.tick {
                t
            } else {
                self.tick
            },
            ..self
        }
    }
}

/// A hashed timer wheel.
pub struct Wheel {
    tick_nanos: u128,
    tick: u128,
    capacity: usize,
    serial: u64,
    entries: Slab<(u64, bool, u128, u64)>,
    slots: Vec<Vec<usize>>,
}

/// What an entry of the storage says.
spec fn entry_timer(e: (u64, bool, u128, u64)) -> Option<Timer> {
    if e.1 {
        Some(Timer { due: e.2 as nat, id: e.3 })
    } else {
        None
    }
}

impl View for Wheel {
    type V = WheelView;

    closed spec fn view(&self) -> WheelView {
        WheelView {
            timers: Map::new(
                |t: Token| self.held().contains_key(t.key) && self.held()[t.key].0 == t.serial,
                |t: Token| entry_timer(self.held()[t.key]),
            ),
            serial: self.serial,
            tick: self.tick as nat,
            tick_nanos: self.tick_nanos as nat,
            capacity: self.capacity as nat,
        }
    }
}

impl Wheel {
    /// The entries of the storage.
    spec fn held(self) -> Map<usize, (u64, bool, u128, u64)> {
        crate::store::slab_timers(self.entries)
    }

    /// The slot of a tick.
    spec fn slot_of(self, tick: int) -> int {
        tick % (self.slots@.len() as int)
    }

    /// The timer under `key` hangs in the slot `s`.
    spec fn hangs(self, s: int, key: usize) -> bool {
        self.slots@[s]@.contains(key)
    }

    /// Every armed timer hangs in the slot of its tick, once, and nothing else hangs
    /// anywhere; no armed timer is due before the tick that the wheel has turned to; and
    /// every number that was given out is below the next one.
    pub closed spec fn wf(&self) -> bool {
        let e = self.held();
        &&& e.dom().finite()
        &&& self.tick_nanos > 0
        &&& self.slots@.len() > 0
        &&& forall|k: usize| #[trigger] e.contains_key(k) ==> e[k].0 < self.serial
        &&& forall|k: usize| #[trigger]
            e.contains_key(k) && e[k].1 ==> self.tick <= e[k].2 && self.hangs(
                self.slot_of(e[k].2 as int),
                k,
            )
        &&& forall|s: int, k: usize|
            0 <= s < self.slots@.len() && #[trigger] self.hangs(s, k) ==> e.contains_key(k)
                && e[k].1 && self.slot_of(e[k].2 as int) == s
        &&& forall|s: int| 0 <= s < self.slots@.len() ==> (#[trigger] self.slots@[s])@.no_duplicates()
    }

    /// The token of the timer under `key`.
    spec fn token_of(self, key: usize) -> Token {
        Token { key, serial: self.held()[key].0 }
    }

    /// A wheel holds finitely many timers, each under a number below the next one, and none
    /// that is due before the tick that it has turned to.
    pub(crate) proof fn lemma_finite(&self)
        requires
            self.wf(),
        ensures
            self@.timers.dom().finite(),
            forall|t: Token| #[trigger] self@.timers.contains_key(t) ==> t.serial < self@.serial,
            forall|t: Token| #[trigger] self@.armed(t) ==> self@.timer(t).due >= self@.tick,
    {
        self.lemma_len();
        assert forall|t: Token| #[trigger] self@.armed(t) implies self@.timer(t).due
            >= self@.tick by {
            assert(self.held().contains_key(t.key));
        }
    }

    /// There are as many timers as entries.
    proof fn lemma_len(&self)
        requires
            self.wf(),
        ensures
            self@.timers.dom().finite(),
            self@.timers.dom().len() == self.held().dom().len(),
    {
        let f = |k: usize| self.token_of(k);
        let keys = self.held().dom();
        assert(self@.timers.dom() =~= keys.map(f)) by {
            assert forall|t: Token| self@.timers.dom().contains(t) implies keys.map(f).contains(t) by {
                assert(keys.contains(t.key) && f(t.key) == t);
            }
        }
        assert(vstd::relations::injective_on(f, keys));
        vstd::set_lib::lemma_map_size(keys, keys.map(f), f);
    }

    /// A wheel without timers, set up as `builder` says.
    pub fn new(builder: &Builder) -> (w: Wheel)
        requires
            builder@.tick_nanos() > 0,
            builder@.slots() > 0,
            builder@.initial() * 64 <= isize::MAX,
        ensures
            w.wf(),
            w@ == (WheelView {
                timers: Map::empty(),
                serial: 0,
                tick: 0,
                tick_nanos: builder@.tick_nanos(),
                capacity: builder@.max() as nat,
            }),
    {
        let n: usize = builder.get_num_slots();
        let mut slots: Vec<Vec<usize>> = Vec::new();
        let mut i: usize = 0;
        while i < n
            invariant
                i <= n,
                slots@.len() == i,
                forall|s: int| 0 <= s < i ==> (#[trigger] slots@[s])@ == Seq::<usize>::empty(),
            decreases n - i,
        {
            slots.push(Vec::new());
            i = i + 1;
        }
        let w = Wheel {
            tick_nanos: builder.get_tick_duration().as_nanos(),
            tick: 0,
            capacity: builder.get_max_capacity(),
            serial: 0,
            entries: slab_with_capacity(builder.get_initial_capacity()),
            slots,
        };
        assert(w@.timers =~= Map::empty());
        w
    }

    /// Reserve a timer, under a number that no timer had before. There is none to be had
    /// where the wheel holds as many timers as it takes, or has given out all numbers.
    pub fn reserve(&mut self) -> (token: Option<Token>)
        requires
            old(self).wf(),
        ensures
            final(self).wf(),
            token is None <==> old(self)@.full(),
            token is None ==> final(self)@ == old(self)@,
            token matches Some(t) ==> {
                &&& t.serial == old(self)@.serial
                &&& !old(self)@.timers.contains_key(t)
                &&& final(self)@ == (WheelView {
                    timers: old(self)@.timers.insert(t, None),
                    serial: (old(self)@.serial + 1) as u64,
                    ..old(self)@
                })
            },
    {
        proof {
            self.lemma_len();
        }
        if slab_len(&self.entries) >= self.capacity || self.serial == u64::MAX {
            return None;
        }
        let serial: u64 = self.serial;
        self.serial = serial + 1;
        let key: usize = slab_insert(&mut self.entries, (serial, false, 0, 0));
        assert(self@.timers =~= old(self)@.timers.insert(Token { key, serial }, None));
        assert forall|k: usize| #[trigger] self.held().contains_key(k) implies self.held()[k].0
            < self.serial by {
            if k != key {
                assert(old(self).held().contains_key(k));
            }
        }
        assert forall|s: int, k: usize|
            0 <= s < self.slots@.len() && #[trigger] self.hangs(s, k) implies self.held().contains_key(k) && self.held()[k].1 && self.slot_of(
            self.held()[k].2 as int,
        ) == s by {
            assert(old(self).hangs(s, k));
        }
        assert forall|k: usize| #[trigger]
            self.held().contains_key(k) && self.held()[k].1 implies self.tick <= self.held()[k].2 && self.hangs(
            self.slot_of(self.held()[k].2 as int),
            k,
        ) by {
            assert(old(self).held().contains_key(k));
        }
        Some(Token { key, serial })
    }

    /// Arm a timer for the time `at`, in nanoseconds; a timer that is armed is armed
    /// anew. When it fires, it reports `id`.
    pub fn set_timeout(&mut self, token: Token, at: u128, id: u64)
        requires
            old(self).wf(),
            old(self)@.timers.contains_key(token),
        ensures
            final(self).wf(),
            final(self)@ == (WheelView {
                timers: old(self)@.timers.insert(
                    token,
                    Some(Timer { due: old(self)@.due(at as nat), id }),
                ),
                ..old(self)@
            }),
    {
        let key: usize = token.key;
        let n: u128 = self.slots.len() as u128;
        match slab_get(&self.entries, key) {
            Some(e) => {
                if e.1 {
                    let s: usize = (e.2 % n) as usize;
                    assert(self.held().contains_key(key));
                    assert(self.hangs(self.slot_of(e.2 as int), key));
                    take_out(&mut self.slots[s], key);
                }
            },
            None => {},
        }
        let ghost bare = *self;
        assert forall|s: int, k: usize|
            0 <= s < self.slots@.len() implies #[trigger] self.hangs(s, k) == (old(self).hangs(s, k)
            && k != key) by {
            assert(old(self).hangs(s, key) ==> old(self).held().contains_key(key)
                && old(self).held()[key].1 && s == old(self).slot_of(
                old(self).held()[key].2 as int,
            ));
            assert(self.slots@[s]@.contains(k) == self.hangs(s, k));
            assert(old(self).slots@[s]@.contains(k) == old(self).hangs(s, k));
        }
        let mut due: u128 = at / self.tick_nanos;
        if at % self.tick_nanos != 0 {
            assert(due < u128::MAX) by (nonlinear_arith)
                requires
                    due == at / self.tick_nanos,
                    at % self.tick_nanos != 0,
                    self.tick_nanos > 0,
            ;
            due = due + 1;
        }
        if due < self.tick {
            due = self.tick;
        }
        slab_set(&mut self.entries, key, (token.serial, true, due, id));
        let s: usize = (due % n) as usize;
        assert(!bare.hangs(s as int, key));
        let ghost before = self.slots@[s as int]@;
        self.slots[s].push(key);
        assert(self@.timers =~= old(self)@.timers.insert(
            token,
            Some(Timer { due: old(self)@.due(at as nat), id }),
        ));
        assert forall|t: int, k: usize| 0 <= t < self.slots@.len() implies #[trigger] self.hangs(t, k)
            == (bare.hangs(t, k) || (t == s && k == key)) by {
            if t == s {
                lemma_push_contains(before, key, k);
            }
        }
        assert forall|k: usize| #[trigger]
            self.held().contains_key(k) && self.held()[k].1 implies self.tick <= self.held()[k].2
            && self.hangs(self.slot_of(self.held()[k].2 as int), k) by {
            if k != key {
                assert(old(self).held().contains_key(k));
                assert(bare.hangs(self.slot_of(self.held()[k].2 as int), k));
            }
        }
    }

    /// Cancel a timer. Where there is none under the token, nothing changes: its place may
    /// be that of another timer by now.
    pub fn cancel(&mut self, token: Token)
        requires
            old(self).wf(),
        ensures
            final(self).wf(),
            final(self)@ == (WheelView {
                timers: old(self)@.timers.remove(token),
                ..old(self)@
            }),
    {
        let key: usize = token.key;
        let n: u128 = self.slots.len() as u128;
        let found = slab_get(&self.entries, key);
        let mine: bool = match found {
            Some(e) => e.0 == token.serial,
            None => false,
        };
        if !mine {
            assert(self@.timers =~= old(self)@.timers.remove(token));
            return;
        }
        let removed = slab_try_remove(&mut self.entries, key);
        if let Some(e) = removed {
            if e.1 {
                let s: usize = (e.2 % n) as usize;
                assert(old(self).held().contains_key(key));
                assert(old(self).hangs(old(self).slot_of(e.2 as int), key));
                take_out(&mut self.slots[s], key);
            }
        }
        assert(self@.timers =~= old(self)@.timers.remove(token));
        assert forall|s: int, k: usize|
            0 <= s < self.slots@.len() implies #[trigger] self.hangs(s, k) == (old(self).hangs(s, k)
            && k != key) by {
            assert(old(self).hangs(s, key) ==> old(self).held().contains_key(key)
                && old(self).held()[key].1 && s == old(self).slot_of(
                old(self).held()[key].2 as int,
            ));
            assert(self.slots@[s]@.contains(k) == self.hangs(s, k));
            assert(old(self).slots@[s]@.contains(k) == old(self).hangs(s, k));
        }
        assert forall|k: usize| #[trigger]
            self.held().contains_key(k) && self.held()[k].1 implies self.tick <= self.held()[k].2
            && self.hangs(self.slot_of(self.held()[k].2 as int), k) by {
            assert(old(self).held().contains_key(k));
            assert(old(self).hangs(self.slot_of(self.held()[k].2 as int), k));
        }
    }

    /// A timer that is due on the tick that the wheel has turned to, if there is one.
    fn due_now(&self) -> (found: Option<(Token, u64)>)
        requires
            self.wf(),
        ensures
            match found {
                Some((token, id)) => self@.armed(token) && self@.timer(token) == (Timer {
                    due: self.tick as nat,
                    id,
                }),
                None => forall|t: Token| #[trigger] self@.armed(t) ==> self@.timer(t).due > self.tick,
            },
    {
        let s: usize = (self.tick % (self.slots.len() as u128)) as usize;
        let slot: &Vec<usize> = &self.slots[s];
        let mut i: usize = 0;
        while i < slot.len()
            invariant
                self.wf(),
                s == self.slot_of(self.tick as int),
                s < self.slots@.len(),
                slot@ == self.slots@[s as int]@,
                i <= slot@.len(),
                forall|j: int| 0 <= j < i ==> self.held()[#[trigger] slot@[j]].2 != self.tick,
            decreases slot@.len() - i,
        {
            let key: usize = slot[i];
            assert(self.hangs(s as int, key));
            match slab_get(&self.entries, key) {
                Some(e) => {
                    if e.2 == self.tick {
                        return Some((Token { key, serial: e.0 }, e.3));
                    }
                },
                None => {},
            }
            i = i + 1;
        }
        assert forall|t: Token| #[trigger] self@.armed(t) implies self@.timer(t).due > self.tick by {
            let k = t.key;
            assert(self.held().contains_key(k));
            if self.held()[k].2 == self.tick {
                assert(self.hangs(s as int, k));
                let j = choose|j: int| 0 <= j < slot@.len() && slot@[j] == k;
            }
        }
        None
    }

    /// Turn the wheel towards the time `now`, in nanoseconds, up to the first timer that
    /// is due: that timer fires, is the wheel's no more, and its token and id are returned. Of
    /// timers due on the same tick, which fires first is left open.
    ///
    /// `None` says that no timer is due.
    pub fn poll(&mut self, now: u128) -> (fired: Option<(Token, u64)>)
        requires
            old(self).wf(),
        ensures
            final(self).wf(),
            match fired {
                Some((token, id)) => {
                    &&& old(self)@.expired(token, now as nat)
                    &&& old(self)@.earliest(token)
                    &&& id == old(self)@.timer(token).id
                    &&& final(self)@ == old(self)@.reported(token)
                },
                None => final(self)@ == old(self)@.turned(now as nat) && old(self)@.none_due(
                    now as nat,
                ),
            },
    {
        let goal: u128 = now / self.tick_nanos;
        loop
            invariant
                self.wf(),
                goal == now / self.tick_nanos,
                self@ == (WheelView { tick: self.tick as nat, ..old(self)@ }),
                self.tick_nanos == old(self).tick_nanos,
                self.tick == old(self).tick || old(self).tick < self.tick <= goal,
            decreases goal - self.tick,
        {
            let found = self.due_now();
            if self.tick > goal {
                assert forall|t: Token| !#[trigger] old(self)@.expired(t, now as nat) by {
                    if old(self)@.expired(t, now as nat) {
                        assert(self@.armed(t));
                        assert(self.held().contains_key(t.key));
                    }
                }
                return None;
            }
            if let Some((token, id)) = found {
                assert(old(self)@.expired(token, now as nat));
                assert forall|other: Token| #[trigger] old(self)@.armed(other) implies old(
                    self,
                )@.timer(token).due <= old(self)@.timer(other).due by {
                    assert(self@.armed(other));
                    assert(self.held().contains_key(other.key));
                }
                assert(old(self)@.earliest(token));
                self.cancel(token);
                assert(self@ == old(self)@.reported(token));
                return Some((token, id));
            }
            if self.tick == goal {
                assert forall|t: Token| !#[trigger] old(self)@.expired(t, now as nat) by {
                    if old(self)@.expired(t, now as nat) {
                        assert(self@.armed(t));
                    }
                }
                return None;
            }
            let ghost before = *self;
            self.tick = self.tick + 1;
            assert forall|k: usize| #[trigger]
                self.held().contains_key(k) && self.held()[k].1 implies self.tick <= self.held()[k].2
                && self.hangs(self.slot_of(self.held()[k].2 as int), k) by {
                assert(before@.armed(before.token_of(k)));
                assert(before.hangs(before.slot_of(before.held()[k].2 as int), k));
            }
            assert forall|s: int, k: usize|
                0 <= s < self.slots@.len() && #[trigger] self.hangs(s, k) implies self.held().contains_key(
            k) && self.held()[k].1 && self.slot_of(self.held()[k].2 as int) == s by {
                assert(before.hangs(s, k));
            }
        }
    }
}

/// Takes `key` out of a slot.
fn take_out(slot: &mut Vec<usize>, key: usize)
    requires
        old(slot)@.no_duplicates(),
        old(slot)@.contains(key),
    ensures
        final(slot)@.no_duplicates(),
        forall|k: usize| #[trigger]
            final(slot)@.contains(k) <==> old(slot)@.contains(k) && k != key,
{
    let mut i: usize = 0;
    while slot[i] != key
        invariant
            slot@ == old(slot)@,
            i < slot.len(),
            slot@.contains(key),
            forall|j: int| 0 <= j < i ==> slot@[j] != key,
        decreases slot@.len() - i,
    {
        proof {
            let j = choose|j: int| 0 <= j < slot@.len() && slot@[j] == key;
            assert(j > i);
        }
        i = i + 1;
    }
    proof {
        lemma_remove_contains(slot@, i as int);
    }
    slot.remove(i);
}

proof fn lemma_remove_contains(s: Seq<usize>, i: int)
    requires
        s.no_duplicates(),
        0 <= i < s.len(),
    ensures
        s.remove(i).no_duplicates(),
        forall|k: usize| #[trigger] s.remove(i).contains(k) <==> s.contains(k) && k != s[i],
{
    assert forall|k: usize| s.contains(k) && k != s[i] implies #[trigger] s.remove(i).contains(k) by {
        let j = choose|j: int| 0 <= j < s.len() && s[j] == k;
        if j < i {
            assert(s.remove(i)[j] == k);
        } else {
            assert(s.remove(i)[j - 1] == k);
        }
    }
}

proof fn lemma_push_contains(s: Seq<usize>, v: usize, k: usize)
    ensures
        s.push(v).contains(k) <==> s.contains(k) || k == v,
{
    if s.contains(k) {
        let j = choose|j: int| 0 <= j < s.len() && s[j] == k;
        assert(s.push(v)[j] == k);
    }
    assert(s.push(v)[s.len() as int] == v);
}

} // verus!
