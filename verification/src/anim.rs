//! Motion: which values are on their way from one to another, which screen is
//! giving way to which, and whether anything still moves.
//!
//! Screens are built anew for every frame, so what moves is remembered here
//! under a name of the caller's choosing. Times are in milliseconds. What lies
//! between two values is worked out by the caller, from how far the move is.

use vstd::prelude::*;

#[allow(unused_imports)]
use crate::readout::equal;
use crate::style::Rgba;
#[allow(unused_imports)]
use crate::text::deep;
use crate::text::{owned, same};
use crate::ytdlp::Single;

verus! {

/// How long every move takes.
pub const DURATION: u64 = 300;

/// How long a value that follows live data takes to catch up. A readout that
/// took as long as a surface settling into place would never arrive before the
/// next number came in.
pub const FOLLOW: u64 = 120;

/// How long after it was last drawn an endless motion no longer counts.
pub const CYCLE_IDLE: u64 = 50;

// ---------------------------------------------------------------------------
// Values by name
// ---------------------------------------------------------------------------

/// A value under a name.
#[derive(Debug)]
pub struct Keyed<E> {
    pub key: String,
    pub value: E,
}

/// The value of a `Keyed`.
#[verifier::ext_equal]
pub struct KeyedView<E> {
    pub key: Seq<char>,
    pub value: E,
}

impl<E> View for Keyed<E> {
    type V = KeyedView<E>;

    open spec fn view(&self) -> KeyedView<E> {
        KeyedView { key: self.key@, value: self.value }
    }
}

/// Where a name stands; the number of names where it is not there.
pub open spec fn place<E>(t: Seq<KeyedView<E>>, key: Seq<char>) -> int
    decreases t.len(),
{
    if t.len() == 0 || t[0].key == key {
        0
    } else {
        1 + place(t.skip(1), key)
    }
}

/// The value under a name.
pub open spec fn at<E>(t: Seq<KeyedView<E>>, key: Seq<char>) -> Option<E> {
    if place(t, key) < t.len() {
        Some(t[place(t, key)].value)
    } else {
        None
    }
}

/// The table with a value put under a name.
pub open spec fn put<E>(t: Seq<KeyedView<E>>, key: Seq<char>, value: E) -> Seq<KeyedView<E>> {
    if place(t, key) < t.len() {
        t.update(place(t, key), KeyedView { key, value })
    } else {
        t.push(KeyedView { key, value })
    }
}

pub proof fn lemma_place<E>(t: Seq<KeyedView<E>>, key: Seq<char>)
    ensures
        0 <= place(t, key) <= t.len(),
        place(t, key) < t.len() ==> t[place(t, key)].key == key,
        forall|i: int| 0 <= i < place(t, key) ==> (#[trigger] t[i]).key != key,
    decreases t.len(),
{
    if t.len() > 0 && t[0].key != key {
        lemma_place(t.skip(1), key);
        assert forall|i: int| 0 <= i < place(t, key) implies (#[trigger] t[i]).key != key by {
            if i > 0 {
                assert(t[i] == t.skip(1)[i - 1]);
            }
        }
        if place(t, key) < t.len() {
            assert(t[place(t, key)] == t.skip(1)[place(t.skip(1), key)]);
        }
    }
}

proof fn lemma_place_at<E>(t: Seq<KeyedView<E>>, key: Seq<char>, n: int)
    requires
        0 <= n <= t.len(),
        n < t.len() ==> t[n].key == key,
        forall|i: int| 0 <= i < n ==> (#[trigger] t[i]).key != key,
    ensures
        place(t, key) == n,
{
    lemma_place(t, key);
    if place(t, key) < n {
        assert(t[place(t, key)].key == key);
    }
}

/// What was put under a name is found there, and nothing else changes.
pub proof fn lemma_put<E>(t: Seq<KeyedView<E>>, key: Seq<char>, value: E, other: Seq<char>)
    ensures
        at(put(t, key, value), key) == Some(value),
        other != key ==> at(put(t, key, value), other) == at(t, other),
{
    lemma_place(t, key);
    lemma_place(t, other);
    let after = put(t, key, value);
    lemma_place_at(after, key, place(t, key));
    if other != key {
        let n = place(t, other);
        if n < t.len() {
            assert(after[n] == t[n]);
            assert forall|i: int| 0 <= i < n implies (#[trigger] after[i]).key != other by {
                assert(t[i].key != other);
            }
            lemma_place_at(after, other, n);
        } else {
            assert forall|i: int| 0 <= i < after.len() implies (#[trigger] after[i]).key
                != other by {
                if i < t.len() {
                    assert(t[i].key != other);
                }
            }
            lemma_place_at(after, other, after.len() as int);
        }
    }
}

/// A table of values by name.
#[derive(Debug)]
pub struct Table<E> {
    pub entries: Vec<Keyed<E>>,
}

impl<E> View for Table<E> {
    type V = Seq<KeyedView<E>>;

    open spec fn view(&self) -> Seq<KeyedView<E>> {
        deep(self.entries@)
    }
}

impl<E: Copy> Table<E> {
    pub fn new() -> (r: Table<E>)
        ensures
            r@ == Seq::<KeyedView<E>>::empty(),
    {
        let r: Table<E> = Table { entries: Vec::new() };
        assert(r@ =~= Seq::<KeyedView<E>>::empty());
        r
    }

    fn find(&self, key: &str) -> (r: usize)
        ensures
            r == place(self@, key@),
            r <= self.entries@.len(),
    {
        let ghost t = self@;
        let mut i: usize = 0;
        while i < self.entries.len()
            invariant
                i <= self.entries@.len(),
                t == deep(self.entries@),
                t == self@,
                forall|k: int| 0 <= k < i ==> (#[trigger] t[k]).key != key@,
            decreases self.entries@.len() - i,
        {
            assert(t[i as int] == self.entries@[i as int]@);
            if same(self.entries[i].key.as_str(), key) {
                proof {
                    lemma_place_at(t, key@, i as int);
                }
                return i;
            }
            i = i + 1;
        }
        proof {
            lemma_place_at(t, key@, i as int);
        }
        i
    }

    /// The value under a name.
    pub fn get(&self, key: &str) -> (r: Option<E>)
        ensures
            r == at(self@, key@),
    {
        let i: usize = self.find(key);
        if i < self.entries.len() {
            assert(self@[i as int] == self.entries@[i as int]@);
            Some(self.entries[i].value)
        } else {
            None
        }
    }

    /// Puts a value under a name.
    pub fn set(&mut self, key: &str, value: E)
        ensures
            final(self)@ == put(old(self)@, key@, value),
    {
        proof {
            lemma_place(self@, key@);
        }
        let ghost before = self@;
        let i: usize = self.find(key);
        let entry: Keyed<E> = Keyed { key: owned(key), value };
        if i < self.entries.len() {
            self.entries.set(i, entry);
            assert(self@ =~= put(before, key@, value));
        } else {
            self.entries.push(entry);
            assert(self@ =~= put(before, key@, value));
        }
    }
}

// ---------------------------------------------------------------------------
// Moves between two values
// ---------------------------------------------------------------------------

/// Which curve a move follows. What settles into place overshoots and comes
/// back; what follows live data must not, or it looks like noise in the data.
#[derive(Debug, Clone, Copy, PartialEq, Eq, Structural)]
pub enum Curve {
    Back,
    Out,
}

/// A value that can move.
pub trait Movable: Copy {
    spec fn is_same(self, other: Self) -> bool;

    fn same_as(&self, other: &Self) -> (r: bool)
        ensures
            r == self.is_same(*other),
    ;
}

impl Movable for Single {
    open spec fn is_same(self, other: Single) -> bool {
        equal(self, other)
    }

    fn same_as(&self, other: &Single) -> (r: bool) {
        self.is_equal(*other)
    }
}

impl Movable for Rgba {
    open spec fn is_same(self, other: Rgba) -> bool {
        equal(self.r, other.r) && equal(self.g, other.g) && equal(self.b, other.b) && equal(
            self.a,
            other.a,
        )
    }

    fn same_as(&self, other: &Rgba) -> (r: bool) {
        self.r.is_equal(other.r) && self.g.is_equal(other.g) && self.b.is_equal(other.b)
            && self.a.is_equal(other.a)
    }
}

/// A move from one value to another.
#[derive(Debug, Copy, PartialEq, Eq)]
pub struct Tween<T> {
    pub from: T,
    pub to: T,
    /// When the move began; none where there was nothing to move from.
    pub started: Option<u64>,
    pub duration: u64,
    pub curve: Curve,
}

impl<T: Copy> Clone for Tween<T> {
    fn clone(&self) -> (r: Tween<T>)
        ensures
            r == *self,
    {
        *self
    }
}

/// How long a move that began at some time has been going on, up to its end.
pub open spec fn elapsed_of(started: Option<u64>, duration: u64, now: u64) -> u64 {
    match started {
        None => duration,
        Some(s) => if now < s {
            0
        } else if now - s > duration {
            duration
        } else {
            (now - s) as u64
        },
    }
}

/// Whether a move has not come to its end yet.
pub open spec fn is_moving<T>(t: Tween<T>, now: u64) -> bool {
    elapsed_of(t.started, t.duration, now) < t.duration
}

/// The move under a name once a target was asked for. `current` is the value
/// that the move so far has reached.
pub open spec fn retargeted<T: Movable>(
    before: Option<Tween<T>>,
    target: T,
    current: T,
    now: u64,
    duration: u64,
    curve: Curve,
) -> Tween<T> {
    match before {
        None => Tween { from: target, to: target, started: None, duration, curve },
        Some(t) => if t.to.is_same(target) {
            t
        } else {
            Tween { from: current, to: target, started: Some(now), duration, curve }
        },
    }
}

fn elapsed(started: Option<u64>, duration: u64, now: u64) -> (r: u64)
    ensures
        r == elapsed_of(started, duration, now),
{
    match started {
        None => duration,
        Some(s) => if now < s {
            0
        } else if now - s > duration {
            duration
        } else {
            now - s
        },
    }
}

/// How far a move is.
#[derive(Debug, Copy, PartialEq, Eq)]
pub struct Sample<T> {
    pub from: T,
    pub to: T,
    pub elapsed: u64,
    pub duration: u64,
    pub curve: Curve,
}

impl<T: Copy> Clone for Sample<T> {
    fn clone(&self) -> (r: Sample<T>)
        ensures
            r == *self,
    {
        *self
    }
}

/// How far a move is at some time.
pub open spec fn sample_of<T>(t: Tween<T>, now: u64) -> Sample<T> {
    Sample {
        from: t.from,
        to: t.to,
        elapsed: elapsed_of(t.started, t.duration, now),
        duration: t.duration,
        curve: t.curve,
    }
}

impl<T: Movable> Table<Tween<T>> {
    /// How far the move under a name is.
    pub fn sample(&self, key: &str, now: u64) -> (r: Option<Sample<T>>)
        ensures
            r == (match at(self@, key@) {
                Some(t) => Some(sample_of(t, now)),
                None => None,
            }),
    {
        match self.get(key) {
            Some(t) => Some(
                Sample {
                    from: t.from,
                    to: t.to,
                    elapsed: elapsed(t.started, t.duration, now),
                    duration: t.duration,
                    curve: t.curve,
                },
            ),
            None => None,
        }
    }

    /// Asks the value under a name to move to a target. A name that is new is
    /// there at once; a move that is redirected goes on from where it is.
    pub fn aim(
        &mut self,
        key: &str,
        target: T,
        current: T,
        now: u64,
        duration: u64,
        curve: Curve,
    ) -> (r: Sample<T>)
        ensures
            final(self)@ == put(
                old(self)@,
                key@,
                retargeted(at(old(self)@, key@), target, current, now, duration, curve),
            ),
            r == sample_of(
                retargeted(at(old(self)@, key@), target, current, now, duration, curve),
                now,
            ),
    {
        let next: Tween<T> = match self.get(key) {
            None => Tween { from: target, to: target, started: None, duration, curve },
            Some(t) => if t.to.same_as(&target) {
                t
            } else {
                Tween { from: current, to: target, started: Some(now), duration, curve }
            },
        };
        self.set(key, next);
        Sample {
            from: next.from,
            to: next.to,
            elapsed: elapsed(next.started, next.duration, now),
            duration: next.duration,
            curve: next.curve,
        }
    }

    fn any_moving(&self, now: u64) -> (r: bool)
        ensures
            r == some_moving(self@, now),
    {
        let mut i: usize = 0;
        while i < self.entries.len()
            invariant
                i <= self.entries@.len(),
                forall|k: int| 0 <= k < i ==> !is_moving((#[trigger] self@[k]).value, now),
            decreases self.entries@.len() - i,
        {
            assert(self@[i as int] == self.entries@[i as int]@);
            let t: Tween<T> = self.entries[i].value;
            if elapsed(t.started, t.duration, now) < t.duration {
                assert(is_moving(self@[i as int].value, now));
                return true;
            }
            i = i + 1;
        }
        false
    }
}

/// Whether any of the values has not arrived yet.
pub open spec fn some_moving<T>(t: Seq<KeyedView<Tween<T>>>, now: u64) -> bool {
    exists|i: int| 0 <= i < t.len() && is_moving((#[trigger] t[i]).value, now)
}

// ---------------------------------------------------------------------------
// One screen giving way to another
// ---------------------------------------------------------------------------

/// What shows in some place, and what it took over from.
#[derive(Debug, Clone, Copy, PartialEq, Eq, Structural)]
pub struct Entrance {
    pub identity: u64,
    /// What showed before, for as long as the swap plays.
    pub previous: Option<u64>,
    /// When the swap began; none where there was nothing before.
    pub started: Option<u64>,
}

/// What shows in some place once something was asked to. Whatever showed then
/// is what it takes over from, even in the middle of another swap.
pub open spec fn entered(before: Option<Entrance>, identity: u64, now: u64) -> Entrance {
    match before {
        None => Entrance { identity, previous: None, started: None },
        Some(e) => {
            let swapped = if e.identity == identity {
                e
            } else {
                Entrance { identity, previous: Some(e.identity), started: Some(now) }
            };
            if elapsed_of(swapped.started, DURATION, now) >= DURATION {
                Entrance { previous: None, ..swapped }
            } else {
                swapped
            }
        },
    }
}

/// Whether any swap still plays.
pub open spec fn some_entering(t: Seq<KeyedView<Entrance>>, now: u64) -> bool {
    exists|i: int|
        0 <= i < t.len() && elapsed_of((#[trigger] t[i]).value.started, DURATION, now) < DURATION
}

impl Table<Entrance> {
    /// Says what shows in some place. Gives back what it takes over from, while
    /// the swap plays, and how long it has played, up to `DURATION`.
    pub fn transition(&mut self, key: &str, identity: u64, now: u64) -> (r: (Option<u64>, u64))
        ensures
            final(self)@ == put(
                old(self)@,
                key@,
                entered(at(old(self)@, key@), identity, now),
            ),
            r.0 == entered(at(old(self)@, key@), identity, now).previous,
            r.1 == elapsed_of(
                entered(at(old(self)@, key@), identity, now).started,
                DURATION,
                now,
            ),
    {
        let next: Entrance = match self.get(key) {
            None => Entrance { identity, previous: None, started: None },
            Some(e) => {
                let mut swapped: Entrance = if e.identity == identity {
                    e
                } else {
                    Entrance { identity, previous: Some(e.identity), started: Some(now) }
                };
                if elapsed(swapped.started, DURATION, now) >= DURATION {
                    swapped.previous = None;
                }
                swapped
            },
        };
        self.set(key, next);
        (next.previous, elapsed(next.started, DURATION, now))
    }

    fn any_entering(&self, now: u64) -> (r: bool)
        ensures
            r == some_entering(self@, now),
    {
        let mut i: usize = 0;
        while i < self.entries.len()
            invariant
                i <= self.entries@.len(),
                forall|k: int|
                    0 <= k < i ==> elapsed_of((#[trigger] self@[k]).value.started, DURATION, now)
                        >= DURATION,
            decreases self.entries@.len() - i,
        {
            assert(self@[i as int] == self.entries@[i as int]@);
            let e: Entrance = self.entries[i].value;
            if elapsed(e.started, DURATION, now) < DURATION {
                assert(elapsed_of(self@[i as int].value.started, DURATION, now) < DURATION);
                return true;
            }
            i = i + 1;
        }
        false
    }
}

// ---------------------------------------------------------------------------
// Endless motion
// ---------------------------------------------------------------------------

/// The clock of an endless motion. Being drawn is what keeps it going.
#[derive(Debug, Clone, Copy, PartialEq, Eq, Structural)]
pub struct Cycle {
    pub started: u64,
    pub last_seen: u64,
}

/// How long ago something was, at some time.
pub open spec fn ago(then: u64, now: u64) -> u64 {
    if now < then {
        0
    } else {
        (now - then) as u64
    }
}

/// The clock under a name once it was drawn.
pub open spec fn cycled(before: Option<Cycle>, now: u64) -> Cycle {
    match before {
        None => Cycle { started: now, last_seen: now },
        Some(c) => Cycle { last_seen: now, ..c },
    }
}

/// Whether any endless motion was drawn just now.
pub open spec fn some_cycling(t: Seq<KeyedView<Cycle>>, now: u64) -> bool {
    exists|i: int| 0 <= i < t.len() && ago((#[trigger] t[i]).value.last_seen, now) < CYCLE_IDLE
}

fn since(then: u64, now: u64) -> (r: u64)
    ensures
        r == ago(then, now),
{
    if now < then {
        0
    } else {
        now - then
    }
}

impl Table<Cycle> {
    /// Draws an endless motion. Gives back how far into its period it is.
    pub fn cycle(&mut self, key: &str, period: u64, now: u64) -> (r: u64)
        requires
            period > 0,
        ensures
            final(self)@ == put(old(self)@, key@, cycled(at(old(self)@, key@), now)),
            r == ago(cycled(at(old(self)@, key@), now).started, now) % period,
            r < period,
    {
        let next: Cycle = match self.get(key) {
            None => Cycle { started: now, last_seen: now },
            Some(c) => Cycle { started: c.started, last_seen: now },
        };
        self.set(key, next);
        since(next.started, now) % period
    }

    fn any_cycling(&self, now: u64) -> (r: bool)
        ensures
            r == some_cycling(self@, now),
    {
        let mut i: usize = 0;
        while i < self.entries.len()
            invariant
                i <= self.entries@.len(),
                forall|k: int|
                    0 <= k < i ==> ago((#[trigger] self@[k]).value.last_seen, now) >= CYCLE_IDLE,
            decreases self.entries@.len() - i,
        {
            assert(self@[i as int] == self.entries@[i as int]@);
            if since(self.entries[i].value.last_seen, now) < CYCLE_IDLE {
                assert(ago(self@[i as int].value.last_seen, now) < CYCLE_IDLE);
                return true;
            }
            i = i + 1;
        }
        false
    }
}

// ---------------------------------------------------------------------------
// Everything that moves
// ---------------------------------------------------------------------------

/// Everything that moves.
#[derive(Debug)]
pub struct Animator {
    pub numbers: Table<Tween<Single>>,
    pub colors: Table<Tween<Rgba>>,
    pub entrances: Table<Entrance>,
    pub cycles: Table<Cycle>,
}

/// Whether anything still moves.
pub open spec fn animating(a: Animator, now: u64) -> bool {
    ||| some_moving(a.numbers@, now)
    ||| some_moving(a.colors@, now)
    ||| some_entering(a.entrances@, now)
    ||| some_cycling(a.cycles@, now)
}

impl Animator {
    /// Nothing moves.
    pub fn new() -> (r: Animator)
        ensures
            r.numbers@.len() == 0,
            r.colors@.len() == 0,
            r.entrances@.len() == 0,
            r.cycles@.len() == 0,
    {
        Animator {
            numbers: Table::new(),
            colors: Table::new(),
            entrances: Table::new(),
            cycles: Table::new(),
        }
    }

    /// Decides whether anything still moves: for as long as it does, frames are
    /// drawn without waiting for an event.
    pub fn is_animating(&self, now: u64) -> (r: bool)
        ensures
            r == animating(*self, now),
    {
        self.numbers.any_moving(now) || self.colors.any_moving(now) || self.entrances.any_entering(
            now,
        ) || self.cycles.any_cycling(now)
    }
}

// ---------------------------------------------------------------------------
// Laws
// ---------------------------------------------------------------------------

/// A value under a new name is where it was asked to be, with no move to play;
/// asked for the same target again, nothing begins anew; asked for another, it
/// sets out from where it is.
pub proof fn lemma_moves<T: Movable>(
    before: Option<Tween<T>>,
    target: T,
    current: T,
    now: u64,
    duration: u64,
    curve: Curve,
)
    ensures
        before is None ==> {
            let t = retargeted(before, target, current, now, duration, curve);
            !is_moving(t, now) && t.from == target && t.to == target
        },
        before matches Some(t) ==> (t.to.is_same(target) ==> retargeted(
            before,
            target,
            current,
            now,
            duration,
            curve,
        ) == t),
        before matches Some(t) ==> (!t.to.is_same(target) ==> {
            let next = retargeted(before, target, current, now, duration, curve);
            next.from == current && next.to == target && elapsed_of(
                next.started,
                next.duration,
                now,
            ) == 0
        }),
{
}

/// Every move comes to its end after its time, and stays there.
pub proof fn lemma_moves_end<T>(t: Tween<T>, now: u64)
    requires
        t.started matches Some(s) ==> s + t.duration <= now,
    ensures
        !is_moving(t, now),
{
}

/// A swap keeps what it takes over from until it has played out, and then no
/// longer. What shows for the first time takes over from nothing.
pub proof fn lemma_swaps(before: Option<Entrance>, identity: u64, now: u64, later: u64)
    ensures
        before is None ==> entered(before, identity, now).previous is None && elapsed_of(
            entered(before, identity, now).started,
            DURATION,
            now,
        ) == DURATION,
        before matches Some(e) ==> (e.identity != identity ==> {
            let next = entered(before, identity, now);
            &&& next.previous == Some(e.identity)
            &&& elapsed_of(next.started, DURATION, now) == 0
            &&& (now <= later < now + DURATION ==> entered(Some(next), identity, later).previous
                == Some(e.identity))
            &&& (now + DURATION <= later ==> entered(
                Some(next),
                identity,
                later,
            ).previous is None)
        }),
{
}

/// An endless motion counts while it is drawn, and no longer once it has not
/// been for a moment.
pub proof fn lemma_cycles_run_while_drawn(before: Option<Cycle>, now: u64, later: u64)
    requires
        now <= later,
    ensures
        ago(cycled(before, now).last_seen, later) < CYCLE_IDLE <==> later < now + CYCLE_IDLE,
{
}

/// A move takes 300 ms, one that follows live data 120, and an endless one counts for 50
/// after it was drawn.
pub proof fn lemma_times_of_the_moves()
    ensures
        DURATION == 300 && FOLLOW == 120 && CYCLE_IDLE == 50,
{
}

/// A move has gone on since it began, from nothing at its beginning to its whole time at
/// its end; one that never began is at its end.
pub proof fn lemma_time_of_a_move(started: u64, duration: u64, now: u64)
    ensures
        elapsed_of(None, duration, now) == duration,
        now <= started ==> elapsed_of(Some(started), duration, now) == 0,
        started <= now <= started + duration ==> elapsed_of(Some(started), duration, now) == now
            - started,
        started + duration <= now ==> elapsed_of(Some(started), duration, now) == duration,
{
}

/// A value under a new name is there at once; one that is asked for another target sets
/// out for it now, from where it is, with the time and the curve asked for. How far it is
/// is told with both its ends.
pub proof fn lemma_move_goes_to_its_target<T: Movable>(
    before: Option<Tween<T>>,
    target: T,
    current: T,
    now: u64,
    duration: u64,
    curve: Curve,
)
    ensures
        ({
            let t = retargeted(before, target, current, now, duration, curve);
            let s = sample_of(t, now);
            &&& before is None ==> t.from == target && t.to == target && t.started is None
                && t.duration == duration && t.curve == curve
            &&& before is Some && before->0.to.is_same(target) ==> t == before->0
            &&& before is Some && !before->0.to.is_same(target) ==> t.from == current && t.to
                == target && t.started == Some(now) && t.duration == duration && t.curve == curve
            &&& s.from == t.from && s.to == t.to && s.duration == t.duration && s.curve == t.curve
            &&& s.elapsed == elapsed_of(t.started, t.duration, now)
            &&& is_moving(t, now) <==> elapsed_of(t.started, t.duration, now) < t.duration
        }),
{
}

/// Two numbers are the same target where they are equal, two colours where every part is.
pub proof fn lemma_same_targets(a: Single, b: Single, c: Rgba, d: Rgba)
    ensures
        a.is_same(b) <==> equal(a, b),
        c.is_same(d) <==> equal(c.r, d.r) && equal(c.g, d.g) && equal(c.b, d.b) && equal(c.a, d.a),
{
}

/// An endless motion keeps its beginning and is seen anew each time it is drawn.
pub proof fn lemma_clock_of_an_endless_motion(before: Option<Cycle>, then: u64, now: u64)
    ensures
        before is None ==> cycled(before, now) == (Cycle { started: now, last_seen: now }),
        before is Some ==> cycled(before, now) == (Cycle {
            started: before->0.started,
            last_seen: now,
        }),
        then <= now ==> ago(then, now) == now - then,
        now <= then ==> ago(then, now) == 0,
{
}

/// Something moves exactly where a number or a colour is on its way, a swap plays, or an
/// endless motion was just drawn.
pub proof fn lemma_anything_that_moves_counts(a: Animator, now: u64, i: int)
    ensures
        0 <= i < a.numbers@.len() && is_moving(a.numbers@[i].value, now) ==> animating(a, now),
        0 <= i < a.colors@.len() && is_moving(a.colors@[i].value, now) ==> animating(a, now),
        0 <= i < a.entrances@.len() && elapsed_of(a.entrances@[i].value.started, 300, now) < 300
            ==> animating(a, now),
        0 <= i < a.cycles@.len() && ago(a.cycles@[i].value.last_seen, now) < 50 ==> animating(
            a,
            now,
        ),
        a.numbers@.len() == 0 && a.colors@.len() == 0 && a.entrances@.len() == 0 && a.cycles@.len()
            == 0 ==> !animating(a, now),
{
}

/// What shows keeps showing without beginning anew, and another takes over from it now.
pub proof fn lemma_swap_begins_now(e: Entrance, identity: u64, now: u64)
    ensures
        ({
            let t = entered(Some(e), identity, now);
            &&& t.identity == identity
            &&& e.identity != identity ==> t.started == Some(now) && t.previous == Some(e.identity)
            &&& e.identity == identity ==> t.started == e.started
            &&& e.identity == identity && elapsed_of(e.started, 300, now) < 300 ==> t == e
        }),
        entered(None, identity, now) == (Entrance { identity, previous: None, started: None }),
{
}

} // verus!
