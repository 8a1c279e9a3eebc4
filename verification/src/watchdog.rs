//! The watchdog of an isolate: which deadlines are armed, and what its thread
//! does at a given time. Requests nest, so there may be several deadlines; the
//! earliest is the one that counts.
use vstd::prelude::*;

verus! {

/// The deadline of one request.
#[derive(Debug, Clone, Copy)]
pub struct Frame {
    pub generation: u64,
    /// In nanoseconds, on the clock that `now` is read from.
    pub deadline: u128,
}

/// What the watchdog's thread does next.
#[derive(Debug, Clone, Copy, PartialEq, Eq, Structural)]
pub enum Tick {
    /// End.
    Exit,
    /// Sleep until woken.
    Sleep,
    /// Sleep for so many nanoseconds, or until woken.
    SleepFor(u128),
    /// Terminate the engine.
    Terminate,
}

/// The armed deadlines.
pub struct Watchdog {
    frames: Vec<Frame>,
    next_generation: u64,
    fired: Vec<u64>,
    shutdown: bool,
}

/// The mathematical value of the watchdog.
#[verifier::ext_equal]
pub ghost struct Dog {
    /// The armed deadlines, oldest first.
    pub frames: Seq<Frame>,
    /// The generation given last.
    pub last: u64,
    /// The generations whose deadlines have passed, each until its request has
    /// been told.
    pub fired: Set<u64>,
    pub shutdown: bool,
}

impl View for Watchdog {
    type V = Dog;

    closed spec fn view(&self) -> Dog {
        Dog {
            frames: self.frames@,
            last: self.next_generation,
            fired: self.fired@.to_set(),
            shutdown: self.shutdown,
        }
    }
}

/// What always holds: generations count up, and a deadline that has passed is
/// no longer armed.
pub open spec fn dog_wf(d: Dog) -> bool {
    &&& forall|i: int| 0 <= i < d.frames.len() ==> (#[trigger] d.frames[i]).generation <= d.last
    &&& forall|i: int, j: int|
        0 <= i < j < d.frames.len() ==> (#[trigger] d.frames[i]).generation < (
        #[trigger] d.frames[j]).generation
    &&& forall|g: u64| #[trigger] d.fired.contains(g) ==> g <= d.last
    &&& forall|i: int|
        0 <= i < d.frames.len() ==> !d.fired.contains((#[trigger] d.frames[i]).generation)
}

/// A watchdog with nothing armed.
pub open spec fn new_dog() -> Dog {
    Dog { frames: Seq::empty(), last: 0, fired: Set::empty(), shutdown: false }
}

/// The deadline of a request that is armed now.
pub open spec fn deadline(now: u64, timeout_ms: u64) -> u128 {
    (now + timeout_ms * 1_000_000) as u128
}

/// The watchdog once a request with a timeout is armed.
pub open spec fn armed(d: Dog, now: u64, timeout_ms: u64) -> Dog {
    if timeout_ms == 0 {
        d
    } else {
        let generation = (d.last + 1) as u64;
        Dog {
            frames: d.frames.push(Frame { generation, deadline: deadline(now, timeout_ms) }),
            last: generation,
            ..d
        }
    }
}

/// All frames but those of a generation.
pub open spec fn frames_without(frames: Seq<Frame>, generation: u64) -> Seq<Frame>
    decreases frames.len(),
{
    if frames.len() == 0 {
        Seq::empty()
    } else {
        let before = frames_without(frames.drop_last(), generation);
        if frames.last().generation != generation {
            before.push(frames.last())
        } else {
            before
        }
    }
}

/// The watchdog once a request is disarmed.
pub open spec fn disarmed(d: Dog, generation: Option<u64>) -> Dog {
    match generation {
        None => d,
        Some(g) => Dog {
            frames: frames_without(d.frames, g),
            fired: d.fired.remove(g),
            ..d
        },
    }
}

/// Whether a request that is disarmed is told that its deadline has passed.
pub open spec fn told(d: Dog, generation: Option<u64>) -> bool {
    match generation {
        None => false,
        Some(g) => d.fired.contains(g),
    }
}

/// The position of the earliest deadline, the oldest of several.
pub open spec fn earliest(frames: Seq<Frame>) -> int
    decreases frames.len(),
{
    if frames.len() <= 1 {
        0
    } else {
        let before = earliest(frames.drop_last());
        if frames.last().deadline < frames[before].deadline {
            frames.len() - 1
        } else {
            before
        }
    }
}

/// What the thread does at a time, and the watchdog afterwards.
pub open spec fn ticked(d: Dog, now: u64) -> (Dog, Tick) {
    if d.shutdown {
        (d, Tick::Exit)
    } else if d.frames.len() == 0 {
        (d, Tick::Sleep)
    } else {
        let f = d.frames[earliest(d.frames)];
        if now >= f.deadline {
            (
                Dog {
                    frames: frames_without(d.frames, f.generation),
                    fired: d.fired.insert(f.generation),
                    ..d
                },
                Tick::Terminate,
            )
        } else {
            (d, Tick::SleepFor((f.deadline - now) as u128))
        }
    }
}

proof fn lemma_earliest(frames: Seq<Frame>)
    requires
        frames.len() > 0,
    ensures
        0 <= earliest(frames) < frames.len(),
        forall|i: int|
            0 <= i < frames.len() ==> frames[earliest(frames)].deadline <= (
            #[trigger] frames[i]).deadline,
        forall|i: int|
            0 <= i < earliest(frames) ==> frames[earliest(frames)].deadline < (
            #[trigger] frames[i]).deadline,
    decreases frames.len(),
{
    if frames.len() > 1 {
        let rest = frames.drop_last();
        lemma_earliest(rest);
        assert(frames[earliest(rest)] == rest[earliest(rest)]);
        assert forall|i: int| 0 <= i < frames.len() implies frames[earliest(frames)].deadline <= (
        #[trigger] frames[i]).deadline by {
            if i < rest.len() {
                assert(rest[i] == frames[i]);
            }
        }
        assert forall|i: int| 0 <= i < earliest(frames) implies frames[earliest(frames)].deadline
            < (#[trigger] frames[i]).deadline by {
            assert(rest[i] == frames[i]);
        }
    }
}

proof fn lemma_frames_without(frames: Seq<Frame>, generation: u64)
    ensures
        forall|f: Frame| #[trigger]
            frames_without(frames, generation).contains(f) <==> frames.contains(f) && f.generation
                != generation,
        dog_ordered(frames) ==> dog_ordered(frames_without(frames, generation)),
        frames_without(frames, generation).len() <= frames.len(),
    decreases frames.len(),
{
    let all = frames_without(frames, generation);
    if frames.len() > 0 {
        let rest = frames.drop_last();
        lemma_frames_without(rest, generation);
        let before = frames_without(rest, generation);
        assert(frames =~= rest.push(frames.last()));
        assert forall|f: Frame| #[trigger] all.contains(f) <==> frames.contains(f) && f.generation
            != generation by {
            if all.contains(f) {
                let i = choose|i: int| 0 <= i < all.len() && all[i] == f;
                if i < before.len() {
                    assert(before[i] == f);
                    assert(before.contains(f));
                    let j = choose|j: int| 0 <= j < rest.len() && rest[j] == f;
                    assert(frames[j] == f);
                } else {
                    assert(frames[frames.len() - 1] == f);
                }
            }
            if frames.contains(f) && f.generation != generation {
                let j = choose|j: int| 0 <= j < frames.len() && frames[j] == f;
                if j < rest.len() {
                    assert(rest[j] == f);
                    assert(before.contains(f));
                    let i = choose|i: int| 0 <= i < before.len() && before[i] == f;
                    assert(all[i] == f);
                } else {
                    assert(all[all.len() - 1] == f);
                }
            }
        }
        if dog_ordered(frames) {
            assert(dog_ordered(rest)) by {
                assert forall|i: int, j: int| 0 <= i < j < rest.len() implies (
                #[trigger] rest[i]).generation < (#[trigger] rest[j]).generation by {
                    assert(frames[i] == rest[i] && frames[j] == rest[j]);
                }
            }
            assert forall|i: int, j: int| 0 <= i < j < all.len() implies (
            #[trigger] all[i]).generation < (#[trigger] all[j]).generation by {
                assert(all[i] == before[i]);
                if j < before.len() {
                    assert(all[j] == before[j]);
                } else {
                    assert(before.contains(before[i]));
                    let k = choose|k: int| 0 <= k < rest.len() && rest[k] == before[i];
                    assert(frames[k] == before[i]);
                    assert(frames[k].generation < frames[frames.len() - 1].generation);
                }
            }
        }
    }
}

/// Whether generations count up along the frames.
pub open spec fn dog_ordered(frames: Seq<Frame>) -> bool {
    forall|i: int, j: int|
        0 <= i < j < frames.len() ==> (#[trigger] frames[i]).generation < (
        #[trigger] frames[j]).generation
}

proof fn lemma_without_keeps(d: Dog, generation: u64)
    requires
        dog_wf(d),
    ensures
        dog_wf(Dog { frames: frames_without(d.frames, generation), ..d }),
{
    lemma_frames_without(d.frames, generation);
    let k = frames_without(d.frames, generation);
    assert forall|i: int| 0 <= i < k.len() implies (#[trigger] k[i]).generation <= d.last by {
        assert(k.contains(k[i]));
        let j = choose|j: int| 0 <= j < d.frames.len() && d.frames[j] == k[i];
        assert(d.frames[j].generation <= d.last);
    }
    assert forall|i: int| 0 <= i < k.len() implies !d.fired.contains(
        (#[trigger] k[i]).generation,
    ) by {
        assert(k.contains(k[i]));
        let j = choose|j: int| 0 <= j < d.frames.len() && d.frames[j] == k[i];
        assert(!d.fired.contains(d.frames[j].generation));
    }
}

proof fn lemma_push_contains(s: Seq<u64>, x: u64)
    ensures
        forall|y: u64| #[trigger] s.push(x).contains(y) <==> s.contains(y) || y == x,
{
    assert forall|y: u64| #[trigger] s.push(x).contains(y) <==> s.contains(y) || y == x by {
        if s.contains(y) {
            let i = choose|i: int| 0 <= i < s.len() && s[i] == y;
            assert(s.push(x)[i] == y);
        }
        assert(s.push(x)[s.len() as int] == x);
    }
}

/// Removing a generation that is not there changes nothing.
proof fn lemma_without_absent(frames: Seq<Frame>, generation: u64)
    requires
        forall|i: int| 0 <= i < frames.len() ==> (#[trigger] frames[i]).generation != generation,
    ensures
        frames_without(frames, generation) == frames,
    decreases frames.len(),
{
    if frames.len() > 0 {
        let rest = frames.drop_last();
        assert forall|i: int| 0 <= i < rest.len() implies (#[trigger] rest[i]).generation
            != generation by {
            assert(frames[i] == rest[i]);
        }
        lemma_without_absent(rest, generation);
        assert(frames =~= rest.push(frames.last()));
    } else {
        assert(frames =~= Seq::empty());
    }
}

impl Watchdog {
    /// A watchdog with nothing armed.
    pub fn new() -> (r: Watchdog)
        ensures
            dog_wf(r@),
            r@ == new_dog(),
    {
        let r = Watchdog {
            frames: Vec::new(),
            next_generation: 0,
            fired: Vec::new(),
            shutdown: false,
        };
        assert(r@.fired =~= Set::empty());
        r
    }

    /// Whether there is a number left for one more request.
    pub fn can_arm(&self) -> (r: bool)
        ensures
            r == (self@.last < u64::MAX),
    {
        self.next_generation < u64::MAX
    }

    /// Arms the deadline of a request and gives the token to disarm it with;
    /// `None` where it has no timeout.
    pub fn arm(&mut self, now: u64, timeout_ms: u64) -> (r: Option<u64>)
        requires
            dog_wf(old(self)@),
            old(self)@.last < u64::MAX,
        ensures
            dog_wf(final(self)@),
            final(self)@ == armed(old(self)@, now, timeout_ms),
            r == token(old(self)@, timeout_ms),
    {
        if timeout_ms == 0 {
            return None;
        }
        self.next_generation = self.next_generation + 1;
        let generation: u64 = self.next_generation;
        let deadline: u128 = now as u128 + timeout_ms as u128 * 1_000_000;
        self.frames.push(Frame { generation, deadline });
        proof {
            let d = old(self)@;
            assert(self@ == armed(d, now, timeout_ms));
            assert forall|i: int| 0 <= i < self@.frames.len() implies !self@.fired.contains(
                (#[trigger] self@.frames[i]).generation,
            ) by {
                if i < d.frames.len() {
                    assert(self@.frames[i] == d.frames[i]);
                }
            }
        }
        Some(generation)
    }

    fn remove(&mut self, generation: u64)
        requires
            dog_wf(old(self)@),
        ensures
            dog_wf(final(self)@),
            final(self)@ == (Dog {
                frames: frames_without(old(self)@.frames, generation),
                ..old(self)@
            }),
    {
        let ghost all = self.frames@;
        proof {
            lemma_without_keeps(self@, generation);
        }
        let mut kept: Vec<Frame> = Vec::new();
        let mut i: usize = 0;
        assert(all.take(0) =~= Seq::empty());
        while i < self.frames.len()
            invariant
                self.frames@ == all,
                i <= all.len(),
                kept@ == frames_without(all.take(i as int), generation),
            decreases self.frames.len() - i,
        {
            assert(all.take(i + 1).drop_last() =~= all.take(i as int));
            let f: Frame = self.frames[i];
            if f.generation != generation {
                kept.push(f);
            }
            i = i + 1;
        }
        assert(all.take(i as int) =~= all);
        self.frames = kept;
    }

    /// Disarms the deadline of a request and tells whether it passed.
    pub fn disarm(&mut self, generation: Option<u64>) -> (fired: bool)
        requires
            dog_wf(old(self)@),
        ensures
            dog_wf(final(self)@),
            final(self)@ == disarmed(old(self)@, generation),
            fired == told(old(self)@, generation),
    {
        match generation {
            None => false,
            Some(g) => {
                self.remove(g);
                let ghost removed = self@;
                let ghost all = self.fired@;
                let mut fired: bool = false;
                let mut kept: Vec<u64> = Vec::new();
                let mut i: usize = 0;
                while i < self.fired.len()
                    invariant
                        self.fired@ == all,
                        i <= all.len(),
                        fired == all.take(i as int).contains(g),
                        forall|x: u64| #[trigger]
                            kept@.contains(x) <==> all.take(i as int).contains(x) && x != g,
                    decreases self.fired.len() - i,
                {
                    let f: u64 = self.fired[i];
                    let ghost before = kept@;
                    let ghost t = all.take(i as int);
                    assert(all.take(i + 1) =~= t.push(f));
                    proof {
                        lemma_push_contains(t, f);
                        lemma_push_contains(before, f);
                    }
                    if f == g {
                        fired = true;
                    } else {
                        kept.push(f);
                    }
                    i = i + 1;
                }
                assert(all.take(i as int) =~= all);
                self.fired = kept;
                assert(self@.frames == removed.frames);
                assert(self@.fired =~= removed.fired.remove(g));
                fired
            },
        }
    }

    /// What the watchdog's thread does at a time.
    pub fn tick(&mut self, now: u64) -> (r: Tick)
        requires
            dog_wf(old(self)@),
        ensures
            dog_wf(final(self)@),
            (final(self)@, r) == ticked(old(self)@, now),
    {
        if self.shutdown {
            return Tick::Exit;
        }
        if self.frames.len() == 0 {
            return Tick::Sleep;
        }
        let ghost all = self.frames@;
        let mut best: usize = 0;
        let mut i: usize = 1;
        assert(all.take(1).len() == 1);
        while i < self.frames.len()
            invariant
                self.frames@ == all,
                1 <= i <= all.len(),
                best == earliest(all.take(i as int)),
                best < i,
            decreases self.frames.len() - i,
        {
            let ghost t = all.take(i + 1);
            assert(t.drop_last() =~= all.take(i as int));
            if self.frames[i].deadline < self.frames[best].deadline {
                best = i;
            }
            i = i + 1;
        }
        assert(all.take(i as int) =~= all);
        let f: Frame = self.frames[best];
        if now as u128 >= f.deadline {
            self.remove(f.generation);
            let ghost removed = self@;
            let ghost passed = self.fired@;
            self.fired.push(f.generation);
            proof {
                lemma_push_contains(passed, f.generation);
                assert(self@.frames == removed.frames);
                assert(self@.fired =~= removed.fired.insert(f.generation));
                lemma_frames_without(all, f.generation);
                assert forall|k: int| 0 <= k < self@.frames.len() implies !self@.fired.contains(
                    (#[trigger] self@.frames[k]).generation,
                ) by {
                    assert(self@.frames.contains(self@.frames[k]));
                }
            }
            Tick::Terminate
        } else {
            Tick::SleepFor(f.deadline - now as u128)
        }
    }

    /// Ends the watchdog's thread at its next tick.
    pub fn shut_down(&mut self)
        requires
            dog_wf(old(self)@),
        ensures
            dog_wf(final(self)@),
            final(self)@ == (Dog { shutdown: true, ..old(self)@ }),
    {
        self.shutdown = true;
    }
}

/// The token that a request is disarmed with.
pub open spec fn token(d: Dog, timeout_ms: u64) -> Option<u64> {
    if timeout_ms == 0 {
        None
    } else {
        Some((d.last + 1) as u64)
    }
}

/// Arming and disarming a nested request leaves the deadlines around it as they
/// were, passed or not, and a request that is disarmed before its deadline is
/// told so.
pub proof fn law_nested_deadline_leaves_outer(d: Dog, now: u64, timeout_ms: u64)
    requires
        dog_wf(d),
        d.last < u64::MAX,
    ensures
        ({
            let a = armed(d, now, timeout_ms);
            let b = disarmed(a, token(d, timeout_ms));
            &&& b.frames == d.frames
            &&& b.fired == d.fired
            &&& b.shutdown == d.shutdown
            &&& !told(a, token(d, timeout_ms))
        }),
{
    if timeout_ms > 0 {
        let a = armed(d, now, timeout_ms);
        assert(a.frames.drop_last() =~= d.frames);
        assert forall|i: int| 0 <= i < d.frames.len() implies (#[trigger] d.frames[i]).generation
            != a.last by {
            assert(d.frames[i].generation <= d.last);
        }
        lemma_without_absent(d.frames, a.last);
        assert(!d.fired.contains(a.last));
        assert(d.fired.remove(a.last) =~= d.fired);
    }
}

/// Something that happens to the watchdog.
pub ghost enum Move {
    Arm { now: u64, timeout_ms: u64 },
    Disarm(Option<u64>),
    Tick(u64),
    ShutDown,
}

/// The watchdog after one move.
pub open spec fn moved(d: Dog, m: Move) -> Dog {
    match m {
        Move::Arm { now, timeout_ms } => if d.last < u64::MAX {
            armed(d, now, timeout_ms)
        } else {
            d
        },
        Move::Disarm(g) => disarmed(d, g),
        Move::Tick(now) => ticked(d, now).0,
        Move::ShutDown => Dog { shutdown: true, ..d },
    }
}

/// The watchdog after some moves.
pub open spec fn after(d: Dog, moves: Seq<Move>) -> Dog
    decreases moves.len(),
{
    if moves.len() == 0 {
        d
    } else {
        moved(after(d, moves.drop_last()), moves.last())
    }
}

/// A deadline that the engine was terminated on is told when its request is
/// disarmed, whatever happens before that: requests that come and go, and other
/// deadlines that pass.
pub proof fn law_passed_deadline_is_told(d: Dog, now: u64, moves: Seq<Move>)
    requires
        dog_wf(d),
        ticked(d, now).1 == Tick::Terminate,
        forall|i: int|
            0 <= i < moves.len() ==> #[trigger] moves[i] != Move::Disarm(
                Some(d.frames[earliest(d.frames)].generation),
            ),
    ensures
        told(after(ticked(d, now).0, moves), Some(d.frames[earliest(d.frames)].generation)),
    decreases moves.len(),
{
    if moves.len() > 0 {
        let rest = moves.drop_last();
        assert forall|i: int| 0 <= i < rest.len() implies #[trigger] rest[i] != Move::Disarm(
            Some(d.frames[earliest(d.frames)].generation),
        ) by {
            assert(moves[i] == rest[i]);
        }
        law_passed_deadline_is_told(d, now, rest);
        assert(moves[moves.len() - 1] == moves.last());
    }
}

/// Whether the `i`-th of some moves terminates the engine on the deadline of a
/// generation.
pub open spec fn terminates_on(d: Dog, moves: Seq<Move>, i: int, generation: u64) -> bool {
    let before = after(d, moves.take(i));
    &&& moves[i] matches Move::Tick(now)
    &&& ticked(before, now).1 == Tick::Terminate
    &&& before.frames[earliest(before.frames)].generation == generation
}

/// A request is told that its deadline passed only where the engine was
/// terminated on that deadline.
pub proof fn law_told_only_if_terminated_on(d: Dog, moves: Seq<Move>, generation: u64)
    requires
        dog_wf(d),
        !told(d, Some(generation)),
        told(after(d, moves), Some(generation)),
    ensures
        exists|i: int| 0 <= i < moves.len() && #[trigger] terminates_on(d, moves, i, generation),
    decreases moves.len(),
{
    let rest = moves.drop_last();
    if told(after(d, rest), Some(generation)) {
        law_told_only_if_terminated_on(d, rest, generation);
        let i = choose|i: int|
            0 <= i < rest.len() && #[trigger] terminates_on(d, rest, i, generation);
        assert(rest.take(i) =~= moves.take(i));
        assert(terminates_on(d, moves, i, generation));
    } else {
        let i = moves.len() - 1;
        assert(rest =~= moves.take(i));
        assert(moves[i] == moves.last());
        assert(terminates_on(d, moves, i, generation));
    }
}

/// Whether some moves are those of requests nested in one whose generation is
/// `outer`: they disarm only what was armed after it, and no deadline passes.
pub open spec fn inside(d: Dog, moves: Seq<Move>, outer: u64) -> bool
    decreases moves.len(),
{
    moves.len() > 0 ==> {
        &&& inside(d, moves.drop_last(), outer)
        &&& match moves.last() {
            Move::Disarm(Some(g)) => g > outer,
            Move::Tick(now) => ticked(after(d, moves.drop_last()), now).1 != Tick::Terminate,
            _ => true,
        }
    }
}

proof fn lemma_without_concat(a: Seq<Frame>, b: Seq<Frame>, generation: u64)
    ensures
        frames_without(a + b, generation) == frames_without(a, generation) + frames_without(
            b,
            generation,
        ),
    decreases b.len(),
{
    if b.len() == 0 {
        assert(a + b =~= a);
        assert(frames_without(a, generation) + frames_without(b, generation) =~= frames_without(
            a,
            generation,
        ));
    } else {
        assert((a + b).drop_last() =~= a + b.drop_last());
        lemma_without_concat(a, b.drop_last(), generation);
        assert(frames_without(a + b, generation) =~= frames_without(a, generation)
            + frames_without(b, generation));
    }
}

/// The frames that were there stay in front, with those armed since behind them.
proof fn lemma_inside(d: Dog, moves: Seq<Move>) -> (later: Seq<Frame>)
    requires
        dog_wf(d),
        inside(d, moves, d.last),
    ensures
        ({
            let e = after(d, moves);
            &&& e.frames == d.frames + later
            &&& forall|i: int| 0 <= i < later.len() ==> (#[trigger] later[i]).generation > d.last
            &&& e.fired == d.fired
            &&& e.last >= d.last
        }),
    decreases moves.len(),
{
    if moves.len() == 0 {
        assert(d.frames + Seq::<Frame>::empty() =~= d.frames);
        Seq::empty()
    } else {
        let rest = moves.drop_last();
        let later = lemma_inside(d, rest);
        let e = after(d, rest);
        match moves.last() {
            Move::Arm { now, timeout_ms } => {
                if timeout_ms == 0 || e.last == u64::MAX {
                    later
                } else {
                    let f = Frame {
                        generation: (e.last + 1) as u64,
                        deadline: deadline(now, timeout_ms),
                    };
                    assert((d.frames + later).push(f) =~= d.frames + later.push(f));
                    later.push(f)
                }
            },
            Move::Disarm(Some(g)) => {
                lemma_without_concat(d.frames, later, g);
                assert forall|i: int| 0 <= i < d.frames.len() implies (
                #[trigger] d.frames[i]).generation != g by {
                    assert(d.frames[i].generation <= d.last);
                }
                lemma_without_absent(d.frames, g);
                lemma_frames_without(later, g);
                let kept = frames_without(later, g);
                assert forall|i: int| 0 <= i < kept.len() implies (
                #[trigger] kept[i]).generation > d.last by {
                    assert(kept.contains(kept[i]));
                    let j = choose|j: int| 0 <= j < later.len() && later[j] == kept[i];
                    assert(later[j].generation > d.last);
                }
                assert(!d.fired.contains(g));
                assert(d.fired.remove(g) =~= d.fired);
                kept
            },
            _ => later,
        }
    }
}

/// A request around others keeps its deadline and is told nothing, whatever
/// requests are armed and disarmed inside it: once all of those are disarmed, and
/// as long as no deadline has passed, disarming it gives back the deadlines that
/// were armed before it, as they were.
pub proof fn law_nested_deadlines_leave_outer(
    d: Dog,
    now: u64,
    timeout_ms: u64,
    moves: Seq<Move>,
)
    requires
        dog_wf(d),
        d.last < u64::MAX,
        ({
            let a = armed(d, now, timeout_ms);
            let e = after(a, moves);
            &&& inside(a, moves, a.last)
            &&& forall|i: int|
                0 <= i < e.frames.len() ==> (#[trigger] e.frames[i]).generation <= a.last
        }),
    ensures
        ({
            let a = armed(d, now, timeout_ms);
            let e = after(a, moves);
            let g = token(d, timeout_ms);
            &&& e.frames == a.frames
            &&& !told(e, g)
            &&& disarmed(e, g).frames == d.frames
            &&& disarmed(e, g).fired == d.fired
        }),
{
    let a = armed(d, now, timeout_ms);
    lemma_armed_wf(d, now, timeout_ms);
    let later = lemma_inside(a, moves);
    let e = after(a, moves);
    if later.len() > 0 {
        assert(e.frames[a.frames.len() as int] == later[0]);
    }
    assert(e.frames =~= a.frames);
    law_nested_deadline_leaves_outer(d, now, timeout_ms);
}

proof fn lemma_armed_wf(d: Dog, now: u64, timeout_ms: u64)
    requires
        dog_wf(d),
        d.last < u64::MAX,
    ensures
        dog_wf(armed(d, now, timeout_ms)),
{
    let a = armed(d, now, timeout_ms);
    assert forall|i: int| 0 <= i < a.frames.len() implies !a.fired.contains(
        (#[trigger] a.frames[i]).generation,
    ) by {
        if i < d.frames.len() {
            assert(a.frames[i] == d.frames[i]);
        }
    }
}

/// The engine is terminated only when a deadline has passed, and on the
/// earliest one; that deadline is then gone, so it terminates once, and the
/// others stay armed.
pub proof fn law_terminates_once_on_earliest(d: Dog, now: u64, f: Frame)
    requires
        dog_wf(d),
        ticked(d, now).1 == Tick::Terminate,
    ensures
        ({
            let hit = d.frames[earliest(d.frames)];
            let after = ticked(d, now).0;
            &&& d.frames.contains(hit)
            &&& hit.deadline <= now
            &&& d.frames.contains(f) ==> hit.deadline <= f.deadline
            &&& after.fired == d.fired.insert(hit.generation)
            &&& after.frames.contains(f) <==> d.frames.contains(f) && f.generation
                != hit.generation
        }),
{
    lemma_earliest(d.frames);
    let hit = d.frames[earliest(d.frames)];
    lemma_frames_without(d.frames, hit.generation);
    if d.frames.contains(f) {
        let i = choose|i: int| 0 <= i < d.frames.len() && d.frames[i] == f;
        assert(hit.deadline <= d.frames[i].deadline);
    }
}

/// A request is told that its deadline passed at most once: disarming it takes
/// both its deadline and the mark away.
pub proof fn law_deadline_is_seen_once(d: Dog, generation: u64)
    requires
        dog_wf(d),
    ensures
        !told(disarmed(d, Some(generation)), Some(generation)),
        forall|f: Frame| #[trigger]
            disarmed(d, Some(generation)).frames.contains(f) ==> f.generation != generation,
{
    lemma_frames_without(d.frames, generation);
}

/// While no deadline has passed and the watchdog is not shut down, it sleeps, at
/// most until the earliest deadline.
pub proof fn law_sleeps_until_earliest(d: Dog, now: u64)
    requires
        dog_wf(d),
        !d.shutdown,
        forall|i: int| 0 <= i < d.frames.len() ==> now < (#[trigger] d.frames[i]).deadline,
    ensures
        ticked(d, now).0 == d,
        d.frames.len() == 0 ==> ticked(d, now).1 == Tick::Sleep,
        d.frames.len() > 0 ==> (ticked(d, now).1 matches Tick::SleepFor(ns) && ns + now
            == d.frames[earliest(d.frames)].deadline),
{
    if d.frames.len() > 0 {
        lemma_earliest(d.frames);
    }
}

/// Once a deadline has passed, the engine is terminated the next time the watchdog
/// looks, unless it is shut down; a watchdog that is shut down does nothing more.
pub proof fn law_passed_deadline_terminates(d: Dog, now: u64, f: Frame)
    requires
        dog_wf(d),
    ensures
        !d.shutdown && d.frames.contains(f) && f.deadline <= now ==> ticked(d, now).1
            == Tick::Terminate,
        d.shutdown ==> ticked(d, now) == (d, Tick::Exit),
        ticked(d, now).1 == Tick::Exit ==> d.shutdown,
{
    if d.frames.contains(f) {
        let i = choose|i: int| 0 <= i < d.frames.len() && d.frames[i] == f;
        lemma_earliest(d.frames);
        assert(d.frames[earliest(d.frames)].deadline <= d.frames[i].deadline);
    }
}

/// A request with a timeout of so many milliseconds, alone on the watchdog, is
/// terminated from exactly that time after it was armed, and is then the one that is
/// told; one without a timeout never is.
pub proof fn law_deadline_is_its_timeout(d: Dog, now: u64, timeout_ms: u64, later: u64)
    requires
        dog_wf(d),
        d.frames.len() == 0,
        !d.shutdown,
        d.last < u64::MAX,
    ensures
        ({
            let a = armed(d, now, timeout_ms);
            let (after, tick) = ticked(a, later);
            &&& timeout_ms > 0 ==> (tick == Tick::Terminate <==> later >= now + timeout_ms
                * 1_000_000)
            &&& timeout_ms > 0 && tick == Tick::Terminate ==> told(after, token(d, timeout_ms))
            &&& timeout_ms == 0 ==> a == d && tick == Tick::Sleep && token(d, timeout_ms) is None
            &&& !told(d, None)
        }),
{
    if timeout_ms > 0 {
        let a = armed(d, now, timeout_ms);
        assert(0 <= timeout_ms * 1_000_000 <= 0xffff_ffff_ffff_ffff * 1_000_000);
        assert(a.frames.len() == 1);
        assert(a.frames[0].deadline == now + timeout_ms * 1_000_000);
    }
}

/// Disarming a request takes away its own deadline and mark, and leaves those of
/// every other request; a request without a deadline takes away nothing.
pub proof fn law_disarming_is_exact(d: Dog, generation: u64, f: Frame, other: u64)
    requires
        f.generation != generation,
        other != generation,
    ensures
        ({
            let e = disarmed(d, Some(generation));
            &&& e.frames.contains(f) <==> d.frames.contains(f)
            &&& told(e, Some(other)) == told(d, Some(other))
            &&& (e.last, e.shutdown) == (d.last, d.shutdown)
        }),
        disarmed(d, None) == d,
        told(d, Some(generation)) <==> d.fired.contains(generation),
{
    lemma_frames_without(d.frames, generation);
}

/// Tokens tell requests apart: each that is armed has one that no request had
/// before. Its deadline is its own, whatever else is armed, and changes nothing of the
/// others.
pub proof fn law_tokens_are_given_once(d: Dog, now: u64, timeout_ms: u64, next_ms: u64)
    requires
        dog_wf(d),
        d.last < u64::MAX - 1,
        timeout_ms > 0,
        next_ms > 0,
    ensures
        ({
            let a = armed(d, now, timeout_ms);
            &&& token(d, timeout_ms) is Some
            &&& token(a, next_ms) is Some
            &&& token(a, next_ms)->0 > token(d, timeout_ms)->0 > d.last
            &&& a.frames == d.frames.push(a.frames.last())
            &&& a.frames.last().generation == token(d, timeout_ms)->0
            &&& a.frames.last().deadline == now + timeout_ms * 1_000_000
            &&& !d.fired.contains(token(d, timeout_ms)->0)
            &&& (a.fired, a.shutdown) == (d.fired, d.shutdown)
        }),
{
}

/// A new watchdog sleeps, whatever the time, and tells no request anything.
pub proof fn law_new_watchdog_sleeps(now: u64, generation: u64)
    ensures
        dog_wf(new_dog()),
        ticked(new_dog(), now) == (new_dog(), Tick::Sleep),
        !told(new_dog(), Some(generation)),
        new_dog().last < u64::MAX,
{
}

} // verus!
