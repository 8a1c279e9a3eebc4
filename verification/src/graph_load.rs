//! One load of a module graph, as a machine: from the entry, level by level,
//! until nothing new is met, and then to linking and evaluation.
use crate::failures::runtime_error;
use crate::loader::{unit_of, EdgeView, Graph, Registry, UnitView};
use crate::text::views;
use crate::value::{Fault, VmError};
use vstd::prelude::*;

verus! {

broadcast use vstd::string::group_string_axioms;

/// What is to be done next.
#[derive(Debug)]
pub enum LoadAction {
    /// Fetch the sources of URLs, in one batch.
    Fetch(Vec<String>),
    /// Compile a source under its URL, and tell what it imports.
    Compile { url: String, source: String },
    /// Resolve imports, each a specifier and the URL it is from, in one batch.
    Resolve(Vec<(String, String)>),
    /// Link and evaluate the entry, and run the microtasks.
    Link(String),
    /// The URLs that were compiled, in order, or why the load failed.
    Done(Result<Vec<String>, VmError>),
}

/// What linking and evaluating the entry came to.
#[derive(Debug)]
pub enum Entry {
    NotLinked,
    NotEvaluated,
    /// The value of the evaluation is no promise.
    Plain,
    Fulfilled,
    Pending,
    /// The reason of the rejection.
    Rejected(String),
}

/// What compiling a source came to.
#[derive(Debug)]
pub enum UnitCompiled<H> {
    TooLarge,
    Failed,
    Done { hash: i32, handle: H, imports: Vec<String> },
}

/// The answer to an action.
#[derive(Debug)]
pub enum LoadEvent<H> {
    /// The sources that were found; `None` where fetching failed as a whole.
    Fetched(Option<Vec<Option<String>>>),
    Compiled(UnitCompiled<H>),
    /// The URLs that imports lead to; `None` where resolving failed as a whole.
    Resolved(Option<Vec<Option<String>>>),
    Linked(Entry),
}

enum LoadStage {
    Fetching,
    Compiling,
    Resolving,
    Linking,
    Done,
}

/// Where a load stands.
pub ghost enum LoadStep {
    Fetching,
    Compiling,
    Resolving,
    Linking,
    Done,
}

/// One load of a module graph. A strict load fails where a source is missing or
/// an import leads nowhere; another one leaves that to linking.
pub struct GraphLoad {
    entry: String,
    strict: bool,
    to_fetch: Vec<String>,
    seen: Vec<String>,
    new_urls: Vec<String>,
    fetched: Vec<Option<String>>,
    next: usize,
    level: Vec<(String, String)>,
    stage: LoadStage,
}

/// The mathematical value of a `GraphLoad`.
#[verifier::ext_equal]
pub ghost struct Load {
    pub entry: Seq<char>,
    pub strict: bool,
    /// The level at hand.
    pub to_fetch: Seq<Seq<char>>,
    /// Every URL that was on some level of this load.
    pub seen: Seq<Seq<char>>,
    /// The URLs that were compiled.
    pub new_urls: Seq<Seq<char>>,
    /// The sources of the level at hand.
    pub fetched: Seq<Option<Seq<char>>>,
    /// How many of them were looked at.
    pub next: nat,
    /// The imports met on this level.
    pub level: Seq<(Seq<char>, Seq<char>)>,
    pub step: LoadStep,
}

/// Optional texts.
pub open spec fn opt_views(v: Seq<Option<String>>) -> Seq<Option<Seq<char>>> {
    v.map_values(
        |o: Option<String>|
            match o {
                Some(s) => Some(s@),
                None => None,
            },
    )
}

/// Pairs of texts.
pub open spec fn pair_views(v: Seq<(String, String)>) -> Seq<(Seq<char>, Seq<char>)> {
    v.map_values(|p: (String, String)| (p.0@, p.1@))
}

impl LoadStage {
    spec fn view(self) -> LoadStep {
        match self {
            LoadStage::Fetching => LoadStep::Fetching,
            LoadStage::Compiling => LoadStep::Compiling,
            LoadStage::Resolving => LoadStep::Resolving,
            LoadStage::Linking => LoadStep::Linking,
            LoadStage::Done => LoadStep::Done,
        }
    }
}

impl View for GraphLoad {
    type V = Load;

    closed spec fn view(&self) -> Load {
        Load {
            entry: self.entry@,
            strict: self.strict,
            to_fetch: views(self.to_fetch@),
            seen: views(self.seen@),
            new_urls: views(self.new_urls@),
            fetched: opt_views(self.fetched@),
            next: self.next as nat,
            level: pair_views(self.level@),
            step: self.stage.view(),
        }
    }
}

/// The mathematical value of an action.
pub ghost enum LoadAct {
    Fetch(Seq<Seq<char>>),
    Compile { url: Seq<char>, source: Seq<char> },
    Resolve(Seq<(Seq<char>, Seq<char>)>),
    Link(Seq<char>),
    Done(Result<Seq<Seq<char>>, Fault>),
}

impl View for LoadAction {
    type V = LoadAct;

    open spec fn view(&self) -> LoadAct {
        match self {
            LoadAction::Fetch(u) => LoadAct::Fetch(views(u@)),
            LoadAction::Compile { url, source } => LoadAct::Compile { url: url@, source: source@ },
            LoadAction::Resolve(e) => LoadAct::Resolve(pair_views(e@)),
            LoadAction::Link(u) => LoadAct::Link(u@),
            LoadAction::Done(r) => LoadAct::Done(
                match r {
                    Ok(u) => Ok(views(u@)),
                    Err(e) => Err(e@),
                },
            ),
        }
    }
}

/// The load fails.
pub open spec fn load_failed(l: Load, f: Fault) -> (Load, LoadAct) {
    (Load { step: LoadStep::Done, ..l }, LoadAct::Done(Err(f)))
}

/// A level begins; where it is empty, the graph is complete.
pub open spec fn begin_level<H>(l: Load, g: Graph<H>) -> (Load, LoadAct) {
    if l.to_fetch.len() > 0 {
        (Load { step: LoadStep::Fetching, ..l }, LoadAct::Fetch(l.to_fetch))
    } else if unit_of(g.units, l.entry) is Some {
        (Load { step: LoadStep::Linking, ..l }, LoadAct::Link(l.entry))
    } else {
        load_failed(
            l,
            Fault::Runtime(
                if l.strict {
                    "entry missing"@
                } else {
                    "entry module not loaded: "@ + l.entry
                },
            ),
        )
    }
}

/// Goes on with the sources of the level. One that was not found fails a strict
/// load; another load leaves it out.
pub open spec fn next_source<H>(l: Load, g: Graph<H>) -> (Load, LoadAct)
    decreases l.to_fetch.len() - l.next,
{
    if l.next >= l.to_fetch.len() || l.next >= l.fetched.len() {
        end_level(l, g)
    } else {
        match l.fetched[l.next as int] {
            Some(source) => (
                Load { step: LoadStep::Compiling, ..l },
                LoadAct::Compile { url: l.to_fetch[l.next as int], source },
            ),
            None => if l.strict {
                load_failed(
                    l,
                    Fault::Runtime("fetch failed: "@ + l.to_fetch[l.next as int]),
                )
            } else {
                next_source(Load { next: l.next + 1, ..l }, g)
            },
        }
    }
}

/// All sources of the level are in: what they import is resolved.
pub open spec fn end_level<H>(l: Load, g: Graph<H>) -> (Load, LoadAct) {
    let m = Load { to_fetch: Seq::empty(), ..l };
    if l.level.len() == 0 {
        begin_level(m, g)
    } else {
        (Load { step: LoadStep::Resolving, ..m }, LoadAct::Resolve(l.level))
    }
}

/// The imports of a module.
pub open spec fn imports_of(imports: Seq<Seq<char>>, url: Seq<char>) -> Seq<(Seq<char>, Seq<char>)> {
    imports.map_values(|s: Seq<char>| (s, url))
}

/// The first `n` resolved imports are taken in: each is an edge, and a URL that
/// is new goes on the next level.
pub open spec fn connected<H>(l: Load, g: Graph<H>, urls: Seq<Option<Seq<char>>>, n: nat) -> (
    Load,
    Graph<H>,
)
    decreases n,
{
    if n == 0 {
        (l, g)
    } else {
        let (m, h) = connected(l, g, urls, (n - 1) as nat);
        match urls[n - 1] {
            None => (m, h),
            Some(url) => {
                let edge = EdgeView {
                    referrer: l.level[n - 1].1,
                    specifier: l.level[n - 1].0,
                    url,
                };
                let k = Graph { edges: h.edges.push(edge), ..h };
                if unit_of(h.units, url) is None && !m.seen.contains(url) {
                    (
                        Load { seen: m.seen.push(url), to_fetch: m.to_fetch.push(url), ..m },
                        k,
                    )
                } else {
                    (m, k)
                }
            },
        }
    }
}

/// The first import that leads nowhere, among the first `n`.
pub open spec fn first_unresolved(urls: Seq<Option<Seq<char>>>, n: nat) -> nat
    decreases n,
{
    if n == 0 {
        0
    } else {
        let k = first_unresolved(urls, (n - 1) as nat);
        if k < n - 1 || urls[n - 1] is None {
            k
        } else {
            n
        }
    }
}

/// How many imports have an answer.
pub open spec fn answered(l: Load, urls: Seq<Option<Seq<char>>>) -> nat {
    if urls.len() <= l.level.len() {
        urls.len()
    } else {
        l.level.len()
    }
}

/// The imports of the level are resolved. One that leads nowhere fails a strict
/// load; another load leaves it out.
pub open spec fn take_resolved<H>(l: Load, g: Graph<H>, urls: Seq<Option<Seq<char>>>) -> (
    Load,
    Graph<H>,
    LoadAct,
) {
    let n = answered(l, urls);
    let k = first_unresolved(urls, n);
    if l.strict && k < n {
        let (m, h) = connected(l, g, urls, k);
        let e = l.level[k as int];
        let (o, a) = load_failed(
            m,
            Fault::Runtime("unresolvable: "@ + e.0 + " from "@ + e.1),
        );
        (o, h, a)
    } else {
        let (m, h) = connected(l, g, urls, n);
        let (o, a) = begin_level(m, h);
        (o, h, a)
    }
}

/// The entry was linked and evaluated.
pub open spec fn take_linked(l: Load, e: Entry) -> (Load, LoadAct) {
    let done = (Load { step: LoadStep::Done, ..l }, LoadAct::Done(Ok(l.new_urls)));
    match e {
        Entry::NotLinked => load_failed(
            l,
            Fault::Runtime(
                if l.strict {
                    "instantiate failed"@
                } else {
                    "instantiate failed: "@ + l.entry
                },
            ),
        ),
        Entry::NotEvaluated => load_failed(
            l,
            Fault::Runtime(
                if l.strict {
                    "evaluate failed"@
                } else {
                    "module evaluation failed"@
                },
            ),
        ),
        Entry::Plain => if l.strict {
            load_failed(l, Fault::Runtime("not a promise"@))
        } else {
            done
        },
        Entry::Fulfilled => done,
        Entry::Pending => if l.strict {
            load_failed(l, Fault::Runtime("module evaluation not fulfilled"@))
        } else {
            done
        },
        Entry::Rejected(reason) => load_failed(
            l,
            Fault::Runtime(
                if l.strict {
                    "module evaluation not fulfilled"@
                } else {
                    reason@
                },
            ),
        ),
    }
}

/// The load of an entry, before its first step. Unless it is strict, an entry
/// that is there is not fetched again.
pub open spec fn fresh_load<H>(entry: Seq<char>, strict: bool, g: Graph<H>) -> Load {
    let first = if strict || unit_of(g.units, entry) is None {
        seq![entry]
    } else {
        Seq::empty()
    };
    Load {
        entry,
        strict,
        to_fetch: first,
        seen: first,
        new_urls: Seq::empty(),
        fetched: Seq::empty(),
        next: 0,
        level: Seq::empty(),
        step: LoadStep::Done,
    }
}

/// Whether an answer is one to what was asked.
pub open spec fn load_fits<H>(l: Load, e: LoadEvent<H>) -> bool {
    match l.step {
        LoadStep::Fetching => e is Fetched,
        LoadStep::Compiling => e is Compiled && l.next < l.to_fetch.len(),
        LoadStep::Resolving => e is Resolved,
        LoadStep::Linking => e is Linked,
        LoadStep::Done => false,
    }
}

/// One step of a load.
pub open spec fn load_step<H>(l: Load, g: Graph<H>, e: LoadEvent<H>) -> (
    Load,
    Graph<H>,
    LoadAct,
) {
    match e {
        LoadEvent::Fetched(None) => {
            let (m, a) = load_failed(l, Fault::Runtime("fetch_batch callback failed"@));
            (m, g, a)
        },
        LoadEvent::Fetched(Some(f)) => {
            let (m, a) = next_source(
                Load { fetched: opt_views(f@), next: 0, level: Seq::empty(), ..l },
                g,
            );
            (m, g, a)
        },
        LoadEvent::Compiled(UnitCompiled::TooLarge) => {
            let (m, a) = load_failed(l, Fault::Runtime("source alloc"@));
            (m, g, a)
        },
        LoadEvent::Compiled(UnitCompiled::Failed) => {
            let (m, a) = load_failed(
                l,
                Fault::Parse("compile failed: "@ + l.to_fetch[l.next as int]),
            );
            (m, g, a)
        },
        LoadEvent::Compiled(UnitCompiled::Done { hash, handle, imports }) => {
            let url = l.to_fetch[l.next as int];
            let h = Graph { units: g.units.push(UnitView { url, hash, handle }), ..g };
            let (m, a) = next_source(
                Load {
                    new_urls: l.new_urls.push(url),
                    level: l.level + imports_of(views(imports@), url),
                    next: l.next + 1,
                    ..l
                },
                h,
            );
            (m, h, a)
        },
        LoadEvent::Resolved(None) => {
            let (m, a) = load_failed(l, Fault::Runtime("resolve callback failed"@));
            (m, g, a)
        },
        LoadEvent::Resolved(Some(u)) => take_resolved(l, g, opt_views(u@)),
        LoadEvent::Linked(entry) => {
            let (m, a) = take_linked(l, entry);
            (m, g, a)
        },
    }
}

fn copies(v: &Vec<String>) -> (r: Vec<String>)
    ensures
        views(r@) == views(v@),
{
    let mut out: Vec<String> = Vec::new();
    let mut i: usize = 0;
    while i < v.len()
        invariant
            i <= v@.len(),
            views(out@) == views(v@).take(i as int),
        decreases v.len() - i,
    {
        let ghost before = views(out@);
        out.push(v[i].clone());
        assert(views(out@) =~= before.push(v@[i as int]@));
        assert(views(v@).take(i + 1) =~= views(v@).take(i as int).push(v@[i as int]@));
        i = i + 1;
    }
    assert(views(v@).take(i as int) =~= views(v@));
    out
}

fn pair_copies(v: &Vec<(String, String)>) -> (r: Vec<(String, String)>)
    ensures
        pair_views(r@) == pair_views(v@),
{
    let mut out: Vec<(String, String)> = Vec::new();
    let mut i: usize = 0;
    while i < v.len()
        invariant
            i <= v@.len(),
            pair_views(out@) == pair_views(v@).take(i as int),
        decreases v.len() - i,
    {
        let ghost before = pair_views(out@);
        out.push((v[i].0.clone(), v[i].1.clone()));
        assert(pair_views(out@) =~= before.push((v@[i as int].0@, v@[i as int].1@)));
        assert(pair_views(v@).take(i + 1) =~= pair_views(v@).take(i as int).push(
            (v@[i as int].0@, v@[i as int].1@),
        ));
        i = i + 1;
    }
    assert(pair_views(v@).take(i as int) =~= pair_views(v@));
    out
}

fn listed(v: &Vec<String>, s: &String) -> (r: bool)
    ensures
        r == views(v@).contains(s@),
{
    let mut i: usize = 0;
    while i < v.len()
        invariant
            i <= v@.len(),
            forall|j: int| 0 <= j < i ==> views(v@)[j] != s@,
        decreases v.len() - i,
    {
        if v[i] == *s {
            assert(views(v@)[i as int] == s@);
            return true;
        }
        assert(views(v@)[i as int] == v@[i as int]@);
        i = i + 1;
    }
    false
}

fn with_url(prefix: &str, url: &String) -> (r: String)
    ensures
        r@ == prefix@ + url@,
{
    let mut m = prefix.to_string();
    m.append(url.as_str());
    m
}

impl GraphLoad {
    fn fail(&mut self, e: VmError) -> (a: LoadAction)
        ensures
            (final(self)@, a@) == load_failed(old(self)@, e@),
    {
        self.stage = LoadStage::Done;
        LoadAction::Done(Err(e))
    }

    fn begin_level<H>(&mut self, registry: &Registry<H>) -> (a: LoadAction)
        ensures
            (final(self)@, a@) == begin_level(old(self)@, registry@),
    {
        if self.to_fetch.len() > 0 {
            self.stage = LoadStage::Fetching;
            LoadAction::Fetch(copies(&self.to_fetch))
        } else if registry.contains(&self.entry) {
            self.stage = LoadStage::Linking;
            LoadAction::Link(self.entry.clone())
        } else if self.strict {
            self.fail(runtime_error("entry missing"))
        } else {
            let m: String = with_url("entry module not loaded: ", &self.entry);
            self.fail(VmError::Runtime(m))
        }
    }

    fn end_level<H>(&mut self, registry: &Registry<H>) -> (a: LoadAction)
        ensures
            (final(self)@, a@) == end_level(old(self)@, registry@),
    {
        self.to_fetch = Vec::new();
        assert(views(self.to_fetch@) =~= Seq::empty());
        if self.level.len() == 0 {
            self.begin_level(registry)
        } else {
            self.stage = LoadStage::Resolving;
            LoadAction::Resolve(pair_copies(&self.level))
        }
    }

    fn next_source<H>(&mut self, registry: &Registry<H>) -> (a: LoadAction)
        ensures
            (final(self)@, a@) == next_source(old(self)@, registry@),
    {
        while self.next < self.to_fetch.len() && self.next < self.fetched.len()
            invariant
                next_source(old(self)@, registry@) == next_source(self@, registry@),
            decreases self.to_fetch.len() - self.next,
        {
            let ghost l = self@;
            assert(views(self.to_fetch@)[self.next as int] == self.to_fetch@[self.next as int]@);
            assert(opt_views(self.fetched@)[self.next as int] == match self.fetched@[self.next as int] {
                Some(s) => Some(s@),
                None => None,
            });
            match &self.fetched[self.next] {
                Some(s) => {
                    let source: String = s.clone();
                    let url: String = self.to_fetch[self.next].clone();
                    self.stage = LoadStage::Compiling;
                    return LoadAction::Compile { url, source };
                },
                None => {
                    if self.strict {
                        let m: String = with_url("fetch failed: ", &self.to_fetch[self.next]);
                        return self.fail(VmError::Runtime(m));
                    }
                },
            }
            self.next = self.next + 1;
        }
        self.end_level(registry)
    }

    /// Begins a load of an entry.
    pub fn start<H>(entry: String, strict: bool, registry: &Registry<H>) -> (r: (
        GraphLoad,
        LoadAction,
    ))
        ensures
            (r.0@, r.1@) == begin_level(fresh_load(entry@, strict, registry@), registry@),
    {
        let mut to_fetch: Vec<String> = Vec::new();
        let mut seen: Vec<String> = Vec::new();
        if strict || !registry.contains(&entry) {
            to_fetch.push(entry.clone());
            seen.push(entry.clone());
            assert(views(to_fetch@) =~= seq![entry@]);
            assert(views(seen@) =~= seq![entry@]);
        } else {
            assert(views(to_fetch@) =~= Seq::empty());
            assert(views(seen@) =~= Seq::empty());
        }
        let mut l = GraphLoad {
            entry,
            strict,
            to_fetch,
            seen,
            new_urls: Vec::new(),
            fetched: Vec::new(),
            next: 0,
            level: Vec::new(),
            stage: LoadStage::Done,
        };
        proof {
            assert(views(l.new_urls@) =~= Seq::empty());
            assert(opt_views(l.fetched@) =~= Seq::empty());
            assert(pair_views(l.level@) =~= Seq::empty());
        }
        let a = l.begin_level(registry);
        (l, a)
    }
}

proof fn lemma_first_unresolved(urls: Seq<Option<Seq<char>>>, k: nat, n: nat)
    requires
        k < n <= urls.len(),
        first_unresolved(urls, k) == k,
        urls[k as int] is None,
    ensures
        first_unresolved(urls, n) == k,
    decreases n,
{
    if n > k + 1 {
        lemma_first_unresolved(urls, k, (n - 1) as nat);
    }
}

impl GraphLoad {
    fn take_resolved<H>(&mut self, registry: &mut Registry<H>, urls: Vec<Option<String>>) -> (a:
        LoadAction)
        ensures
            (final(self)@, final(registry)@, a@) == take_resolved(
                old(self)@,
                old(registry)@,
                opt_views(urls@),
            ),
    {
        let ghost l = self@;
        let ghost g = registry@;
        let ghost u = opt_views(urls@);
        let count: usize = if urls.len() <= self.level.len() {
            urls.len()
        } else {
            self.level.len()
        };
        assert(count == answered(l, u));
        let mut i: usize = 0;
        while i < count
            invariant
                i <= count,
                count == answered(l, u),
                l == old(self)@,
                g == old(registry)@,
                u == opt_views(urls@),
                (self@, registry@) == connected(l, g, u, i as nat),
                self@.level == l.level,
                self@.strict == l.strict,
                l.strict ==> first_unresolved(u, i as nat) == i,
            decreases count - i,
        {
            assert(u[i as int] == match urls@[i as int] {
                Some(s) => Some(s@),
                None => None,
            });
            assert(pair_views(self.level@)[i as int] == (
                self.level@[i as int].0@,
                self.level@[i as int].1@,
            ));
            match &urls[i] {
                None => {
                    if self.strict {
                        proof {
                            lemma_first_unresolved(u, i as nat, count as nat);
                        }
                        let mut m = "unresolvable: ".to_string();
                        m.append(self.level[i].0.as_str());
                        m.append(" from ");
                        m.append(self.level[i].1.as_str());
                        return self.fail(VmError::Runtime(m));
                    }
                },
                Some(url) => {
                    let ghost before = self@;
                    let known: bool = registry.contains(url);
                    registry.connect(
                        self.level[i].1.clone(),
                        self.level[i].0.clone(),
                        url.clone(),
                    );
                    if !known && !listed(&self.seen, url) {
                        self.seen.push(url.clone());
                        self.to_fetch.push(url.clone());
                        assert(views(self.seen@) =~= before.seen.push(url@));
                        assert(views(self.to_fetch@) =~= before.to_fetch.push(url@));
                    }
                },
            }
            i = i + 1;
        }
        self.begin_level(registry)
    }

    fn take_linked(&mut self, e: Entry) -> (a: LoadAction)
        ensures
            (final(self)@, a@) == take_linked(old(self)@, e),
    {
        let failure: VmError = match e {
            Entry::NotLinked => {
                if self.strict {
                    runtime_error("instantiate failed")
                } else {
                    VmError::Runtime(with_url("instantiate failed: ", &self.entry))
                }
            },
            Entry::NotEvaluated => {
                if self.strict {
                    runtime_error("evaluate failed")
                } else {
                    runtime_error("module evaluation failed")
                }
            },
            Entry::Plain => {
                if self.strict {
                    runtime_error("not a promise")
                } else {
                    self.stage = LoadStage::Done;
                    return LoadAction::Done(Ok(copies(&self.new_urls)));
                }
            },
            Entry::Fulfilled => {
                self.stage = LoadStage::Done;
                return LoadAction::Done(Ok(copies(&self.new_urls)));
            },
            Entry::Pending => {
                if self.strict {
                    runtime_error("module evaluation not fulfilled")
                } else {
                    self.stage = LoadStage::Done;
                    return LoadAction::Done(Ok(copies(&self.new_urls)));
                }
            },
            Entry::Rejected(reason) => {
                if self.strict {
                    runtime_error("module evaluation not fulfilled")
                } else {
                    VmError::Runtime(reason)
                }
            },
        };
        self.fail(failure)
    }

    fn take_unit<H>(
        &mut self,
        registry: &mut Registry<H>,
        hash: i32,
        handle: H,
        imports: Vec<String>,
    ) -> (a: LoadAction)
        requires
            old(self)@.next < old(self)@.to_fetch.len(),
        ensures
            (final(self)@, final(registry)@, a@) == load_step(
                old(self)@,
                old(registry)@,
                LoadEvent::Compiled(UnitCompiled::Done { hash, handle, imports }),
            ),
    {
        let ghost l = self@;
        let ghost url = l.to_fetch[l.next as int];
        assert(url == self.to_fetch@[self.next as int]@);
        registry.register(self.to_fetch[self.next].clone(), hash, handle);
        self.new_urls.push(self.to_fetch[self.next].clone());
        assert(views(self.new_urls@) =~= l.new_urls.push(url));
        let ghost wanted = imports_of(views(imports@), url);
        let mut i: usize = 0;
        assert(l.level + wanted.take(0) =~= l.level);
        while i < imports.len()
            invariant
                i <= imports@.len(),
                self.next < self.to_fetch@.len(),
                url == self.to_fetch@[self.next as int]@,
                wanted == imports_of(views(imports@), url),
                self@ == (Load {
                    new_urls: l.new_urls.push(url),
                    level: l.level + wanted.take(i as int),
                    ..l
                }),
            decreases imports.len() - i,
        {
            let ghost before = self@.level;
            self.level.push((imports[i].clone(), self.to_fetch[self.next].clone()));
            assert(pair_views(self.level@) =~= before.push((imports@[i as int]@, url)));
            assert(wanted[i as int] == (imports@[i as int]@, url));
            assert(l.level + wanted.take(i + 1) =~= (l.level + wanted.take(i as int)).push(
                wanted[i as int],
            ));
            i = i + 1;
        }
        assert(wanted.take(i as int) =~= wanted);
        let count: usize = self.to_fetch.len();
        assert(self.next < count);
        self.next = self.next + 1;
        self.next_source(registry)
    }

    /// Takes the answer to the last action and gives the next one.
    pub fn step<H>(&mut self, registry: &mut Registry<H>, e: LoadEvent<H>) -> (a: LoadAction)
        requires
            load_fits(old(self)@, e),
        ensures
            (final(self)@, final(registry)@, a@) == load_step(old(self)@, old(registry)@, e),
    {
        match e {
            LoadEvent::Fetched(None) => self.fail(runtime_error("fetch_batch callback failed")),
            LoadEvent::Fetched(Some(f)) => {
                self.fetched = f;
                self.next = 0;
                self.level = Vec::new();
                assert(pair_views(self.level@) =~= Seq::empty());
                self.next_source(registry)
            },
            LoadEvent::Compiled(UnitCompiled::TooLarge) => self.fail(runtime_error("source alloc")),
            LoadEvent::Compiled(UnitCompiled::Failed) => {
                assert(views(self.to_fetch@)[self.next as int]
                    == self.to_fetch@[self.next as int]@);
                let m: String = with_url("compile failed: ", &self.to_fetch[self.next]);
                self.fail(VmError::Parse(m))
            },
            LoadEvent::Compiled(UnitCompiled::Done { hash, handle, imports }) => self.take_unit(
                registry,
                hash,
                handle,
                imports,
            ),
            LoadEvent::Resolved(None) => self.fail(runtime_error("resolve callback failed")),
            LoadEvent::Resolved(Some(u)) => self.take_resolved(registry, u),
            LoadEvent::Linked(entry) => self.take_linked(entry),
        }
    }
}

} // verus!
