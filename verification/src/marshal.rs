//! Walking an engine's object graph into a `JsVal`.
//!
//! The engine is not asked directly: the walk is a machine that says what it
//! needs to know next (`Ask`) and is told (`Answer`). Every container met for
//! the first time gets the next id and is opened; one met again becomes a
//! reference to that id, so sharing and cycles survive; one that lies too deep
//! is summarised as text and never gets an id.
use crate::value::{
    entry_keys, entry_vals, law_list_views, law_map_view, law_obj_view, pair_vals, vals, JsVal, Kind,
    Val,
};
use std::collections::HashMap;
use vstd::prelude::*;

verus! {

broadcast use vstd::std_specs::hash::group_hash_axioms;

/// Nesting beyond this many containers is cut off.
pub const MAX_MARSHAL_DEPTH: usize = 256;

/// How the walk recognises an object that it has met before.
#[derive(Debug, Clone, Copy, PartialEq, Eq, Structural)]
pub enum Tracking {
    /// Keys are identity hashes, which can collide: candidates have to be compared.
    ByHash,
    /// Keys are exact identities.
    Exact,
    /// Identity is not tracked.
    Off,
}

/// What the walk needs to know next.
#[derive(Debug)]
pub enum Ask {
    /// What is the value behind this handle?
    Look(u64),
    /// Which of the candidates, if any, is the very object behind this handle?
    Match { handle: u64, candidates: Vec<u64> },
    /// What does this object read as, as text?
    Describe(u64),
    /// Which bytes does this buffer hold?
    Copy(u64),
    /// How many children does this container have?
    Open(u64),
    /// Which is this child of the container?
    Child { handle: u64, index: usize },
    /// Nothing: this is the value.
    Done(JsVal),
}

/// What the walk is told.
#[derive(Debug)]
pub enum Answer {
    /// To `Look`: a value without identity.
    Leaf(JsVal),
    /// To `Look`: a binary buffer, with its identity key.
    Buffer(u64),
    /// To `Look`: a container, with its identity key.
    Container { kind: Kind, key: u64 },
    /// To `Match`: the position of the candidate that is the same object.
    Matched(Option<usize>),
    /// To `Describe`.
    Text(String),
    /// To `Copy`.
    Copied(Vec<u8>),
    /// To `Open`: the number of children, or `None` if it cannot be opened.
    Opened(Option<usize>),
    /// To `Child`: the child's key (of an object) and its handle.
    Child { key: String, handle: u64 },
    /// To `Child` of an object: there is no such key; it is passed over.
    NoChild,
}

/// The children of an open container so far.
enum Parts {
    List(Vec<JsVal>),
    Entries { done: Vec<(String, JsVal)>, key: Option<String> },
    Pairs { done: Vec<(JsVal, JsVal)>, key: Option<JsVal> },
}

/// A container that has been opened and is not complete yet.
struct Frame {
    kind: Kind,
    id: u32,
    handle: u64,
    limit: usize,
    next: usize,
    parts: Parts,
}

/// What the last question was about.
enum Phase {
    Look(u64),
    Match { handle: u64, key: u64, kind: Option<Kind>, candidates: Vec<(u64, u32)> },
    Describe(u64),
    Copy(Option<u32>),
    Open { handle: u64, kind: Kind, key: u64 },
    Child,
    Done,
}

/// The walk itself.
pub struct Marshaller {
    tracking: Tracking,
    max_depth: usize,
    stack: Vec<Frame>,
    seen: HashMap<u64, Vec<(u64, u32)>>,
    next_id: u32,
    phase: Phase,
}

/// The mathematical value of an open container.
#[verifier::ext_equal]
pub ghost struct Open {
    pub kind: Kind,
    pub id: u32,
    pub handle: u64,
    pub limit: nat,
    pub next: nat,
    pub keys: Seq<Seq<char>>,
    pub items: Seq<Val>,
}

/// The mathematical value of the question's subject.
#[verifier::ext_equal]
pub ghost enum Stage {
    Look(u64),
    Match { handle: u64, key: u64, kind: Option<Kind>, candidates: Seq<(u64, u32)> },
    Describe(u64),
    Copy(Option<u32>),
    Open { handle: u64, kind: Kind, key: u64 },
    Child,
    Done,
}

/// Which objects have been met: per identity key, handles and the ids they got.
#[verifier::ext_equal]
pub ghost struct Met {
    pub seen: Map<u64, Seq<(u64, u32)>>,
    pub next: u32,
}

/// The mathematical value of a walk.
#[verifier::ext_equal]
pub ghost struct Walk {
    pub tracking: Tracking,
    pub max_depth: nat,
    pub stack: Seq<Open>,
    pub met: Met,
    pub stage: Stage,
}

/// The mathematical value of a question.
#[verifier::ext_equal]
pub ghost enum Question {
    Look(u64),
    Match { handle: u64, candidates: Seq<u64> },
    Describe(u64),
    Copy(u64),
    Open(u64),
    Child { handle: u64, index: nat },
    Done(Val),
}

/// The mathematical value of an answer.
#[verifier::ext_equal]
pub ghost enum Reply {
    Leaf(Val),
    Buffer(u64),
    Container { kind: Kind, key: u64 },
    Matched(Option<nat>),
    Text(Seq<char>),
    Copied(Seq<u8>),
    Opened(Option<nat>),
    Child { key: Seq<char>, handle: u64 },
    NoChild,
}

impl View for Ask {
    type V = Question;

    open spec fn view(&self) -> Question {
        match self {
            Ask::Look(h) => Question::Look(*h),
            Ask::Match { handle, candidates } => Question::Match {
                handle: *handle,
                candidates: candidates@,
            },
            Ask::Describe(h) => Question::Describe(*h),
            Ask::Copy(h) => Question::Copy(*h),
            Ask::Open(h) => Question::Open(*h),
            Ask::Child { handle, index } => Question::Child {
                handle: *handle,
                index: *index as nat,
            },
            Ask::Done(v) => Question::Done(v@),
        }
    }
}

/// An optional position as a natural number.
pub open spec fn opt_nat(o: Option<usize>) -> Option<nat> {
    match o {
        Some(n) => Some(n as nat),
        None => None,
    }
}

impl View for Answer {
    type V = Reply;

    open spec fn view(&self) -> Reply {
        match self {
            Answer::Leaf(v) => Reply::Leaf(v@),
            Answer::Buffer(k) => Reply::Buffer(*k),
            Answer::Container { kind, key } => Reply::Container { kind: *kind, key: *key },
            Answer::Matched(o) => Reply::Matched(opt_nat(*o)),
            Answer::Text(s) => Reply::Text(s@),
            Answer::Copied(b) => Reply::Copied(b@),
            Answer::Opened(o) => Reply::Opened(opt_nat(*o)),
            Answer::Child { key, handle } => Reply::Child { key: key@, handle: *handle },
            Answer::NoChild => Reply::NoChild,
        }
    }
}

impl Parts {
    spec fn keys(self) -> Seq<Seq<char>> {
        match self {
            Parts::Entries { done, key } => {
                let k = entry_keys(done@);
                match key {
                    Some(s) => k.push(s@),
                    None => k,
                }
            },
            _ => Seq::empty(),
        }
    }

    spec fn items(self) -> Seq<Val> {
        match self {
            Parts::List(items) => vals(items@),
            Parts::Entries { done, .. } => entry_vals(done@),
            Parts::Pairs { done, key } => {
                let k = pair_vals(done@);
                match key {
                    Some(v) => k.push(v@),
                    None => k,
                }
            },
        }
    }
}

impl Frame {
    spec fn view(self) -> Open {
        Open {
            kind: self.kind,
            id: self.id,
            handle: self.handle,
            limit: self.limit as nat,
            next: self.next as nat,
            keys: self.parts.keys(),
            items: self.parts.items(),
        }
    }

    /// Whether the parts are those of the kind, and, of a map, as many as were
    /// asked for; `waiting` if the last child's value is still to come.
    spec fn wf(self, waiting: bool) -> bool {
        &&& self.next <= self.limit
        &&& waiting ==> self.next > 0
        &&& match self.parts {
            Parts::List(_) => self.kind == Kind::Array || self.kind == Kind::JsSet,
            Parts::Entries { key, .. } => self.kind == Kind::Obj && (key is Some <==> waiting),
            Parts::Pairs { done, key } => {
                &&& self.kind == Kind::JsMap
                &&& self.limit % 2 == 0
                &&& 2 * done@.len() + (if key is Some { 1int } else { 0 }) + (if waiting {
                    1int
                } else {
                    0
                }) == self.next
            },
        }
    }
}

impl Phase {
    spec fn view(self) -> Stage {
        match self {
            Phase::Look(h) => Stage::Look(h),
            Phase::Match { handle, key, kind, candidates } => Stage::Match {
                handle,
                key,
                kind,
                candidates: candidates@,
            },
            Phase::Describe(h) => Stage::Describe(h),
            Phase::Copy(id) => Stage::Copy(id),
            Phase::Open { handle, kind, key } => Stage::Open { handle, kind, key },
            Phase::Child => Stage::Child,
            Phase::Done => Stage::Done,
        }
    }
}

impl View for Marshaller {
    type V = Walk;

    closed spec fn view(&self) -> Walk {
        Walk {
            tracking: self.tracking,
            max_depth: self.max_depth as nat,
            stack: self.stack@.map_values(|f: Frame| f.view()),
            met: Met { seen: self.seen@.map_values(|v: Vec<(u64, u32)>| v@), next: self.next_id },
            stage: self.phase.view(),
        }
    }
}

/// A container's value, once all its children are there.
pub open spec fn node(f: Open) -> Val {
    Val::Node { kind: f.kind, id: f.id, keys: f.keys, items: f.items }
}

/// The question about the next child of the innermost open container.
pub open spec fn child_question(stack: Seq<Open>) -> Question {
    Question::Child { handle: stack.last().handle, index: stack.last().next }
}

/// Hands a value to the innermost open container, and every container that is
/// thereby complete to the one around it.
pub open spec fn settle(stack: Seq<Open>, v: Val) -> (Seq<Open>, Stage, Question) {
    if stack.len() == 0 {
        (stack, Stage::Done, Question::Done(v))
    } else {
        let top = Open { items: stack.last().items.push(v), ..stack.last() };
        proceed(stack.drop_last(), top)
    }
}

/// Goes on with the innermost open container: its next child, or its completion.
pub open spec fn proceed(below: Seq<Open>, top: Open) -> (Seq<Open>, Stage, Question)
    decreases below.len(),
{
    if top.next < top.limit {
        (below.push(top), Stage::Child, child_question(below.push(top)))
    } else if below.len() == 0 {
        (below, Stage::Done, Question::Done(node(top)))
    } else {
        let outer = Open { items: below.last().items.push(node(top)), ..below.last() };
        proceed(below.drop_last(), outer)
    }
}

/// Registers an object under its key with the next id.
pub open spec fn register(tracking: Tracking, met: Met, key: u64, handle: u64) -> Met {
    if tracking == Tracking::Off {
        met
    } else {
        Met {
            seen: met.seen.insert(key, candidates(met, key).push((handle, met.next))),
            next: if met.next == u32::MAX {
                0
            } else {
                (met.next + 1) as u32
            },
        }
    }
}

/// The id that the next registered object gets.
pub open spec fn fresh_id(tracking: Tracking, met: Met) -> Option<u32> {
    if tracking == Tracking::Off {
        None
    } else {
        Some(met.next)
    }
}

/// The id a container gets, zero where identity is not tracked.
pub open spec fn container_id(tracking: Tracking, met: Met) -> u32 {
    match fresh_id(tracking, met) {
        Some(i) => i,
        None => 0,
    }
}

/// The objects met under an identity key, in the order they were met.
pub open spec fn candidates(met: Met, key: u64) -> Seq<(u64, u32)> {
    if met.seen.contains_key(key) {
        met.seen[key]
    } else {
        Seq::empty()
    }
}

/// How many children of a container are read: a map's come in pairs.
pub open spec fn child_limit(kind: Kind, n: nat) -> nat {
    if kind == Kind::JsMap {
        (n / 2) * 2
    } else {
        n
    }
}

/// The walk after an object turned out not to have been met before.
pub open spec fn enter(w: Walk, handle: u64, key: u64, kind: Option<Kind>) -> (Walk, Question) {
    match kind {
        None => (
            Walk {
                met: register(w.tracking, w.met, key, handle),
                stage: Stage::Copy(fresh_id(w.tracking, w.met)),
                ..w
            },
            Question::Copy(handle),
        ),
        Some(k) => if w.stack.len() >= w.max_depth {
            (Walk { stage: Stage::Describe(handle), ..w }, Question::Describe(handle))
        } else {
            (Walk { stage: Stage::Open { handle, kind: k, key }, ..w }, Question::Open(handle))
        },
    }
}

/// The walk after an object was looked at.
pub open spec fn meet(w: Walk, handle: u64, key: u64, kind: Option<Kind>) -> (Walk, Question) {
    let c = candidates(w.met, key);
    if w.tracking == Tracking::Off || c.len() == 0 {
        enter(w, handle, key, kind)
    } else if w.tracking == Tracking::Exact {
        give(w, Val::Ref(c[0].1))
    } else {
        (
            Walk { stage: Stage::Match { handle, key, kind, candidates: c }, ..w },
            Question::Match { handle, candidates: c.map_values(|p: (u64, u32)| p.0) },
        )
    }
}

/// The walk after a value is complete.
pub open spec fn give(w: Walk, v: Val) -> (Walk, Question) {
    let (stack, stage, q) = settle(w.stack, v);
    (Walk { stack, stage, ..w }, q)
}

/// The walk after its innermost container went on.
pub open spec fn advance(w: Walk, top: Open) -> (Walk, Question) {
    let (stack, stage, q) = proceed(w.stack.drop_last(), top);
    (Walk { stack, stage, ..w }, q)
}

/// Whether an answer is one to the question that was asked.
pub open spec fn fits(w: Walk, r: Reply) -> bool {
    match w.stage {
        Stage::Look(_) => r is Leaf || r is Buffer || r is Container,
        Stage::Match { .. } => r is Matched,
        Stage::Describe(_) => r is Text,
        Stage::Copy(_) => r is Copied,
        Stage::Open { .. } => r is Opened,
        Stage::Child => r is Child || (r is NoChild && w.stack.last().kind == Kind::Obj),
        Stage::Done => false,
    }
}

/// One step of the walk.
pub open spec fn step(w: Walk, r: Reply) -> (Walk, Question)
    recommends
        fits(w, r),
{
    match (w.stage, r) {
        (Stage::Look(_), Reply::Leaf(v)) => give(w, v),
        (Stage::Look(h), Reply::Buffer(key)) => meet(w, h, key, None),
        (Stage::Look(h), Reply::Container { kind, key }) => meet(w, h, key, Some(kind)),
        (Stage::Match { handle, key, kind, candidates }, Reply::Matched(m)) => match m {
            Some(i) => if i < candidates.len() {
                give(w, Val::Ref(candidates[i as int].1))
            } else {
                enter(w, handle, key, kind)
            },
            None => enter(w, handle, key, kind),
        },
        (Stage::Describe(_), Reply::Text(s)) => give(w, Val::Str(s)),
        (Stage::Copy(id), Reply::Copied(bytes)) => give(w, Val::Bytes { id, bytes }),
        (Stage::Open { handle, kind, key }, Reply::Opened(n)) => match n {
            None => (Walk { stage: Stage::Describe(handle), ..w }, Question::Describe(handle)),
            Some(n) => {
                let met = register(w.tracking, w.met, key, handle);
                let f = Open {
                    kind,
                    id: container_id(w.tracking, w.met),
                    handle,
                    limit: child_limit(kind, n),
                    next: 0,
                    keys: Seq::empty(),
                    items: Seq::empty(),
                };
                let (stack, stage, q) = proceed(w.stack, f);
                (Walk { met, stack, stage, ..w }, q)
            },
        },
        (Stage::Child, Reply::NoChild) => {
            let f = w.stack.last();
            advance(w, Open { next: f.next + 1, ..f })
        },
        (Stage::Child, Reply::Child { key, handle }) => {
            let f = w.stack.last();
            let f = Open {
                next: f.next + 1,
                keys: if f.kind == Kind::Obj {
                    f.keys.push(key)
                } else {
                    f.keys
                },
                ..f
            };
            (
                Walk { stack: w.stack.drop_last().push(f), stage: Stage::Look(handle), ..w },
                Question::Look(handle),
            )
        },
        _ => (w, Question::Done(Val::Undefined)),
    }
}

/// The walk at its beginning.
pub open spec fn begin(tracking: Tracking, max_depth: nat, root: u64) -> Walk {
    Walk {
        tracking,
        max_depth,
        stack: Seq::empty(),
        met: Met { seen: Map::empty(), next: 0 },
        stage: Stage::Look(root),
    }
}

impl Marshaller {
    /// Whether a value is still to come for the innermost open container.
    spec fn waiting(self) -> bool {
        !(self.phase is Child) && !(self.phase is Done)
    }

    /// The representation's invariant.
    pub closed spec fn wf(self) -> bool {
        &&& forall|i: int|
            0 <= i < self.stack@.len() ==> (#[trigger] self.stack@[i]).wf(
                i < self.stack@.len() - 1 || self.waiting(),
            )
        &&& self.phase is Child ==> self.stack@.len() > 0 && self.stack@.last().next
            < self.stack@.last().limit
        &&& self.phase is Done ==> self.stack@.len() == 0
    }

    /// A walk from `root`, and its first question.
    pub fn start(tracking: Tracking, max_depth: usize, root: u64) -> (r: (Marshaller, Ask))
        ensures
            r.0.wf(),
            r.0@ == begin(tracking, max_depth as nat, root),
            r.1@ == Question::Look(root),
    {
        let m = Marshaller {
            tracking,
            max_depth,
            stack: Vec::new(),
            seen: HashMap::new(),
            next_id: 0,
            phase: Phase::Look(root),
        };
        proof {
            assert(m@.stack =~= Seq::<Open>::empty());
            assert(m@.met.seen =~= Map::<u64, Seq<(u64, u32)>>::empty());
        }
        (m, Ask::Look(root))
    }
}

impl Frame {
    /// Takes the value that the frame was waiting for.
    fn take_value(&mut self, v: JsVal)
        requires
            old(self).wf(true),
        ensures
            final(self).wf(false),
            final(self).view() == (Open { items: old(self).view().items.push(v@), ..old(self).view() }),
    {
        match &mut self.parts {
            Parts::List(items) => {
                items.push(v);
            },
            Parts::Entries { done, key } => {
                match key.take() {
                    Some(k) => done.push((k, v)),
                    None => {},
                }
            },
            Parts::Pairs { done, key } => {
                match key.take() {
                    Some(k) => done.push((k, v)),
                    None => {
                        *key = Some(v);
                    },
                }
            },
        }
        proof {
            assert(self.parts.keys() =~= old(self).parts.keys());
            assert(self.parts.items() =~= old(self).parts.items().push(v@));
        }
    }

    /// The value of a complete container.
    fn close(self) -> (r: JsVal)
        requires
            self.wf(false),
            self.next >= self.limit,
        ensures
            r@ == node(self.view()),
    {
        let id: u32 = self.id;
        match self.parts {
            Parts::List(items) => {
                proof {
                    law_list_views(id, items);
                }
                if self.kind == Kind::Array {
                    JsVal::Array { id, items }
                } else {
                    JsVal::JsSet { id, items }
                }
            },
            Parts::Entries { done, key } => {
                proof {
                    law_obj_view(id, done);
                }
                JsVal::Obj { id, entries: done }
            },
            Parts::Pairs { done, key } => {
                proof {
                    law_map_view(id, done);
                    assert(key is None);
                }
                JsVal::JsMap { id, pairs: done }
            },
        }
    }
}

impl Marshaller {
    /// Whether every open container but the innermost waits for a value, and
    /// the innermost does so just as `top` says.
    spec fn frames_wf(self, top: bool) -> bool {
        forall|i: int|
            0 <= i < self.stack@.len() ==> (#[trigger] self.stack@[i]).wf(
                i < self.stack@.len() - 1 || top,
            )
    }

    /// What a step over the open containers leaves alone.
    spec fn same_but_stack(self, other: Marshaller) -> bool {
        &&& self.tracking == other.tracking
        &&& self.max_depth == other.max_depth
        &&& self.seen == other.seen
        &&& self.next_id == other.next_id
    }

    /// Goes on with the innermost open container.
    fn go_on(&mut self) -> (ask: Ask)
        requires
            old(self).stack@.len() > 0,
            old(self).frames_wf(false),
        ensures
            final(self).wf(),
            final(self).same_but_stack(*old(self)),
            (final(self)@.stack, final(self)@.stage, ask@) == proceed(
                old(self)@.stack.drop_last(),
                old(self)@.stack.last(),
            ),
    {
        loop
            invariant
                self.stack@.len() > 0,
                self.frames_wf(false),
                self.same_but_stack(*old(self)),
                proceed(self@.stack.drop_last(), self@.stack.last()) == proceed(
                    old(self)@.stack.drop_last(),
                    old(self)@.stack.last(),
                ),
            decreases self.stack@.len(),
        {
            let n: usize = self.stack.len();
            let ghost before = self@.stack;
            if self.stack[n - 1].next < self.stack[n - 1].limit {
                self.phase = Phase::Child;
                let handle: u64 = self.stack[n - 1].handle;
                let index: usize = self.stack[n - 1].next;
                proof {
                    assert(self@.stack =~= before);
                    assert(before.drop_last().push(before.last()) =~= before);
                }
                return Ask::Child { handle, index };
            }
            let ghost frames = self.stack@;
            match self.stack.pop() {
                None => {
                    assert(false);
                },
                Some(f) => {
                    let v = f.close();
                    assert(v@ == node(before.last()));
                    match self.stack.pop() {
                        None => {
                            self.phase = Phase::Done;
                            assert(self@.stack =~= before.drop_last());
                            return Ask::Done(v);
                        },
                        Some(mut g) => {
                            assert(g == frames[n - 2]);
                            g.take_value(v);
                            self.stack.push(g);
                            proof {
                                assert(self@.stack.drop_last() =~= before.drop_last().drop_last());
                                assert(before.drop_last().last() == frames[n - 2].view());
                                assert forall|i: int| 0 <= i < self.stack@.len() implies (
                                #[trigger] self.stack@[i]).wf(i < self.stack@.len() - 1) by {
                                    if i < n - 2 {
                                        assert(self.stack@[i] == frames[i]);
                                    }
                                }
                            }
                        },
                    }
                },
            }
        }
    }

    /// Hands a complete value to the innermost open container.
    fn settle(&mut self, v: JsVal) -> (ask: Ask)
        requires
            old(self).frames_wf(true),
        ensures
            final(self).wf(),
            (final(self)@, ask@) == give(old(self)@, v@),
    {
        let ghost before = self@;
        let ghost frames = self.stack@;
        match self.stack.pop() {
            None => {
                self.phase = Phase::Done;
                assert(self@.stack =~= before.stack);
                Ask::Done(v)
            },
            Some(mut f) => {
                assert(f == frames.last());
                f.take_value(v);
                self.stack.push(f);
                proof {
                    assert(self@.stack.drop_last() =~= before.stack.drop_last());
                    assert forall|i: int| 0 <= i < self.stack@.len() implies (
                    #[trigger] self.stack@[i]).wf(i < self.stack@.len() - 1) by {
                        if i < frames.len() - 1 {
                            assert(self.stack@[i] == frames[i]);
                        }
                    }
                }
                self.go_on()
            },
        }
    }

    /// The objects met under `key`.
    fn candidates(&self, key: u64) -> (r: Vec<(u64, u32)>)
        ensures
            r@ == candidates(self@.met, key),
    {
        match self.seen.get(&key) {
            Some(v) => {
                let mut out: Vec<(u64, u32)> = Vec::new();
                let mut i: usize = 0;
                while i < v.len()
                    invariant
                        i <= v@.len(),
                        out@ == v@.take(i as int),
                    decreases v@.len() - i,
                {
                    out.push((v[i].0, v[i].1));
                    assert(v@.take(i + 1) =~= v@.take(i as int).push(v@[i as int]));
                    i = i + 1;
                }
                assert(v@.take(v@.len() as int) =~= v@);
                out
            },
            None => Vec::new(),
        }
    }

    /// Registers an object with the next id.
    fn register(&mut self, key: u64, handle: u64) -> (id: Option<u32>)
        ensures
            final(self)@ == (Walk {
                met: register(old(self)@.tracking, old(self)@.met, key, handle),
                ..old(self)@
            }),
            id == fresh_id(old(self)@.tracking, old(self)@.met),
            final(self).stack == old(self).stack,
            final(self).phase == old(self).phase,
    {
        if self.tracking == Tracking::Off {
            return None;
        }
        let id: u32 = self.next_id;
        self.next_id = id.wrapping_add(1);
        let ghost before = self.seen@.map_values(|v: Vec<(u64, u32)>| v@);
        let mut bucket: Vec<(u64, u32)> = match self.seen.remove(&key) {
            Some(v) => v,
            None => Vec::new(),
        };
        bucket.push((handle, id));
        self.seen.insert(key, bucket);
        proof {
            assert(self@.met.seen =~= register(
                old(self)@.tracking,
                old(self)@.met,
                key,
                handle,
            ).seen);
        }
        Some(id)
    }

    /// Takes in an object that was not met before.
    fn enter(&mut self, handle: u64, key: u64, kind: Option<Kind>) -> (ask: Ask)
        requires
            old(self).frames_wf(true),
        ensures
            final(self).wf(),
            (final(self)@, ask@) == enter(old(self)@, handle, key, kind),
    {
        match kind {
            None => {
                let id = self.register(key, handle);
                self.phase = Phase::Copy(id);
                Ask::Copy(handle)
            },
            Some(k) => {
                if self.stack.len() >= self.max_depth {
                    self.phase = Phase::Describe(handle);
                    Ask::Describe(handle)
                } else {
                    self.phase = Phase::Open { handle, kind: k, key };
                    Ask::Open(handle)
                }
            },
        }
    }

    /// Takes in an object that was looked at.
    fn meet(&mut self, handle: u64, key: u64, kind: Option<Kind>) -> (ask: Ask)
        requires
            old(self).frames_wf(true),
        ensures
            final(self).wf(),
            (final(self)@, ask@) == meet(old(self)@, handle, key, kind),
    {
        let c = self.candidates(key);
        if self.tracking == Tracking::Off || c.len() == 0 {
            self.enter(handle, key, kind)
        } else if self.tracking == Tracking::Exact {
            self.settle(JsVal::Ref(c[0].1))
        } else {
            let mut handles: Vec<u64> = Vec::new();
            let mut i: usize = 0;
            while i < c.len()
                invariant
                    i <= c@.len(),
                    handles@.len() == i,
                    forall|k: int| 0 <= k < i ==> handles@[k] == c@[k].0,
                decreases c@.len() - i,
            {
                handles.push(c[i].0);
                i = i + 1;
            }
            assert(handles@ =~= c@.map_values(|p: (u64, u32)| p.0));
            self.phase = Phase::Match { handle, key, kind, candidates: c };
            Ask::Match { handle, candidates: handles }
        }
    }

    /// Takes the answer to the last question and asks the next.
    pub fn step(&mut self, answer: Answer) -> (ask: Ask)
        requires
            old(self).wf(),
            fits(old(self)@, answer@),
        ensures
            final(self).wf(),
            (final(self)@, ask@) == step(old(self)@, answer@),
    {
        let mut phase = Phase::Done;
        std::mem::swap(&mut phase, &mut self.phase);
        match phase {
            Phase::Look(h) => match answer {
                Answer::Leaf(v) => self.settle(v),
                Answer::Buffer(key) => self.meet(h, key, None),
                Answer::Container { kind, key } => self.meet(h, key, Some(kind)),
                _ => Ask::Done(JsVal::Undefined),
            },
            Phase::Match { handle, key, kind, candidates } => match answer {
                Answer::Matched(m) => match m {
                    Some(i) => if i < candidates.len() {
                        self.settle(JsVal::Ref(candidates[i].1))
                    } else {
                        self.enter(handle, key, kind)
                    },
                    None => self.enter(handle, key, kind),
                },
                _ => Ask::Done(JsVal::Undefined),
            },
            Phase::Describe(_) => match answer {
                Answer::Text(s) => self.settle(JsVal::Str(s)),
                _ => Ask::Done(JsVal::Undefined),
            },
            Phase::Copy(id) => match answer {
                Answer::Copied(bytes) => self.settle(JsVal::Bytes { id, bytes }),
                _ => Ask::Done(JsVal::Undefined),
            },
            Phase::Open { handle, kind, key } => match answer {
                Answer::Opened(None) => {
                    self.phase = Phase::Describe(handle);
                    Ask::Describe(handle)
                },
                Answer::Opened(Some(n)) => self.open(handle, kind, key, n),
                _ => Ask::Done(JsVal::Undefined),
            },
            Phase::Child => match answer {
                Answer::NoChild => self.pass_over(),
                Answer::Child { key, handle } => self.descend(key, handle),
                _ => Ask::Done(JsVal::Undefined),
            },
            Phase::Done => Ask::Done(JsVal::Undefined),
        }
    }

    /// Opens a container with `n` children.
    fn open(&mut self, handle: u64, kind: Kind, key: u64, n: usize) -> (ask: Ask)
        requires
            old(self).frames_wf(true),
        ensures
            final(self).wf(),
            (final(self)@, ask@) == step(
                Walk { stage: Stage::Open { handle, kind, key }, ..old(self)@ },
                Reply::Opened(Some(n as nat)),
            ),
    {
        let ghost before = self@;
        let ghost frames = self.stack@;
        let id: u32 = match self.register(key, handle) {
            Some(i) => i,
            None => 0,
        };
        let limit: usize = if kind == Kind::JsMap { (n / 2) * 2 } else { n };
        let parts = match kind {
            Kind::Array => Parts::List(Vec::new()),
            Kind::JsSet => Parts::List(Vec::new()),
            Kind::Obj => Parts::Entries { done: Vec::new(), key: None },
            Kind::JsMap => Parts::Pairs { done: Vec::new(), key: None },
        };
        let f = Frame { kind, id, handle, limit, next: 0, parts };
        proof {
            assert(f.parts.keys() =~= Seq::<Seq<char>>::empty());
            assert(f.parts.items() =~= Seq::<Val>::empty());
        }
        self.stack.push(f);
        proof {
            assert(self@.stack.drop_last() =~= before.stack);
            assert forall|i: int| 0 <= i < self.stack@.len() implies (#[trigger] self.stack@[i]).wf(
                i < self.stack@.len() - 1,
            ) by {
                if i < frames.len() {
                    assert(self.stack@[i] == frames[i]);
                }
            }
        }
        self.go_on()
    }

    /// Passes over a child that is not there.
    fn pass_over(&mut self) -> (ask: Ask)
        requires
            old(self).frames_wf(false),
            old(self).stack@.len() > 0,
            old(self).stack@.last().next < old(self).stack@.last().limit,
            old(self).stack@.last().kind == Kind::Obj,
        ensures
            final(self).wf(),
            (final(self)@, ask@) == step(
                Walk { stage: Stage::Child, ..old(self)@ },
                Reply::NoChild,
            ),
    {
        let ghost before = self@;
        let ghost frames = self.stack@;
        match self.stack.pop() {
            None => Ask::Done(JsVal::Undefined),
            Some(mut f) => {
                assert(f == frames.last());
                f.next = f.next + 1;
                self.stack.push(f);
                proof {
                    assert(self@.stack.drop_last() =~= before.stack.drop_last());
                    assert forall|i: int| 0 <= i < self.stack@.len() implies (
                    #[trigger] self.stack@[i]).wf(i < self.stack@.len() - 1) by {
                        if i < frames.len() - 1 {
                            assert(self.stack@[i] == frames[i]);
                        }
                    }
                }
                self.go_on()
            },
        }
    }

    /// Goes down to a child.
    fn descend(&mut self, key: String, handle: u64) -> (ask: Ask)
        requires
            old(self).frames_wf(false),
            old(self).stack@.len() > 0,
            old(self).stack@.last().next < old(self).stack@.last().limit,
        ensures
            final(self).wf(),
            (final(self)@, ask@) == step(
                Walk { stage: Stage::Child, ..old(self)@ },
                Reply::Child { key: key@, handle },
            ),
    {
        let ghost before = self@;
        let ghost frames = self.stack@;
        match self.stack.pop() {
            None => Ask::Done(JsVal::Undefined),
            Some(mut f) => {
                assert(f == frames.last());
                f.next = f.next + 1;
                let ghost mid = f;
                match &mut f.parts {
                    Parts::Entries { done, key: slot } => {
                        *slot = Some(key);
                    },
                    _ => {},
                }
                proof {
                    assert(f.parts.items() =~= mid.parts.items());
                    assert(f.parts.keys() =~= if f.kind == Kind::Obj {
                        mid.parts.keys().push(key@)
                    } else {
                        mid.parts.keys()
                    });
                }
                self.stack.push(f);
                self.phase = Phase::Look(handle);
                proof {
                    assert(self@.stack =~= before.stack.drop_last().push(f.view()));
                    assert forall|i: int| 0 <= i < self.stack@.len() implies (
                    #[trigger] self.stack@[i]).wf(true) by {
                        if i < frames.len() - 1 {
                            assert(self.stack@[i] == frames[i]);
                        }
                    }
                }
                Ask::Look(handle)
            },
        }
    }
}

} // verus!
