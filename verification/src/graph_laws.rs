//! What holds of every load of a module graph.
use crate::graph_load::{
    answered, begin_level, connected, end_level, first_unresolved, fresh_load, imports_of,
    load_fits, load_step, next_source, opt_views, pair_views, take_linked, take_resolved, Entry,
    Load, LoadAct, LoadAction, LoadEvent, LoadStep, UnitCompiled,
};
use crate::loader::{unit_of, EdgeView, Graph, UnitView};
use crate::text::views;
use crate::value::Fault;
use vstd::prelude::*;

verus! {

/// Whether the URLs of the level at hand are among those that were seen, which
/// are all different; between two levels there is none at hand.
pub open spec fn levels_apart(l: Load) -> bool {
    &&& l.seen.no_duplicates()
    &&& l.to_fetch.no_duplicates()
    &&& forall|u: Seq<char>| #[trigger] l.to_fetch.contains(u) ==> l.seen.contains(u)
    &&& l.step == LoadStep::Resolving ==> l.to_fetch.len() == 0
}

proof fn lemma_push_distinct(s: Seq<Seq<char>>, u: Seq<char>)
    requires
        s.no_duplicates(),
        !s.contains(u),
    ensures
        s.push(u).no_duplicates(),
        forall|x: Seq<char>| #[trigger] s.push(u).contains(x) <==> s.contains(x) || x == u,
{
    let t = s.push(u);
    assert forall|i: int, j: int| 0 <= i < t.len() && 0 <= j < t.len() && i != j implies t[i]
        != t[j] by {
        if i == s.len() {
            assert(s.contains(t[j]));
        } else if j == s.len() {
            assert(s.contains(t[i]));
        }
    }
    assert forall|x: Seq<char>| #[trigger] t.contains(x) <==> s.contains(x) || x == u by {
        if t.contains(x) {
            let i = choose|i: int| 0 <= i < t.len() && t[i] == x;
            if i < s.len() {
                assert(s[i] == x);
            }
        }
        if s.contains(x) {
            let i = choose|i: int| 0 <= i < s.len() && s[i] == x;
            assert(t[i] == x);
        }
        if x == u {
            assert(t[s.len() as int] == x);
        }
    }
}

/// What taking in resolved imports does to the URLs.
proof fn lemma_connected<H>(l: Load, g: Graph<H>, urls: Seq<Option<Seq<char>>>, n: nat)
    requires
        levels_apart(l),
        l.to_fetch.len() == 0,
        n <= urls.len(),
        n <= l.level.len(),
    ensures
        ({
            let (m, h) = connected(l, g, urls, n);
            &&& levels_apart(Load { step: LoadStep::Fetching, ..m })
            &&& forall|u: Seq<char>| #[trigger] l.seen.contains(u) ==> m.seen.contains(u)
            &&& forall|u: Seq<char>| #[trigger] m.to_fetch.contains(u) ==> !l.seen.contains(u)
            &&& forall|u: Seq<char>| #[trigger]
                m.seen.contains(u) ==> l.seen.contains(u) || m.to_fetch.contains(u)
            &&& h.units == g.units
            &&& m.strict == l.strict
            &&& m.entry == l.entry
            &&& m.step == l.step
            &&& forall|e: EdgeView| #[trigger]
                h.edges.contains(e) ==> g.edges.contains(e) || unit_of(g.units, e.url) is Some
                    || m.seen.contains(e.url)
        }),
    decreases n,
{
    if n > 0 {
        lemma_connected(l, g, urls, (n - 1) as nat);
        let (m, h) = connected(l, g, urls, (n - 1) as nat);
        let (m1, h1) = connected(l, g, urls, n);
        match urls[n - 1] {
            None => {},
            Some(url) => {
                let edge = EdgeView {
                    referrer: l.level[n - 1].1,
                    specifier: l.level[n - 1].0,
                    url,
                };
                if unit_of(h.units, url) is None && !m.seen.contains(url) {
                    lemma_push_distinct(m.seen, url);
                    assert(!m.to_fetch.contains(url));
                    lemma_push_distinct(m.to_fetch, url);
                    assert(!l.seen.contains(url));
                }
                assert forall|e: EdgeView| #[trigger] h1.edges.contains(e) implies g.edges.contains(
                    e,
                ) || unit_of(g.units, e.url) is Some || m1.seen.contains(e.url) by {
                    let i = choose|i: int| 0 <= i < h1.edges.len() && h1.edges[i] == e;
                    if i < h.edges.len() {
                        assert(h.edges[i] == e);
                        assert(h.edges.contains(e));
                    } else {
                        assert(e == edge);
                    }
                }
            },
        }
    }
}

proof fn lemma_next_source<H>(l: Load, g: Graph<H>)
    requires
        levels_apart(Load { step: LoadStep::Fetching, ..l }),
    ensures
        ({
            let (m, a) = next_source(l, g);
            &&& levels_apart(m)
            &&& m.seen == l.seen
            &&& a is Fetch ==> false
        }),
    decreases l.to_fetch.len() - l.next,
{
    if l.next >= l.to_fetch.len() || l.next >= l.fetched.len() {
        assert(Seq::<Seq<char>>::empty().no_duplicates());
        assert forall|u: Seq<char>| #[trigger] Seq::<Seq<char>>::empty().contains(u) implies false by {}
    } else if l.fetched[l.next as int] is None && !l.strict {
        lemma_next_source(Load { next: l.next + 1, ..l }, g);
    }
}

/// No URL is fetched twice in one load: a batch holds no URL twice, nor one
/// that an earlier batch held.
pub proof fn law_no_url_is_fetched_twice<H>(l: Load, g: Graph<H>, e: LoadEvent<H>)
    requires
        levels_apart(l),
        load_fits(l, e),
    ensures
        ({
            let (m, h, a) = load_step(l, g, e);
            &&& levels_apart(m)
            &&& forall|u: Seq<char>| #[trigger] l.seen.contains(u) ==> m.seen.contains(u)
            &&& a matches LoadAct::Fetch(urls) ==> {
                &&& urls.no_duplicates()
                &&& forall|u: Seq<char>| #[trigger]
                    urls.contains(u) ==> m.seen.contains(u) && !l.seen.contains(u)
            }
        }),
{
    match e {
        LoadEvent::Fetched(Some(f)) => {
            lemma_next_source(
                Load { fetched: opt_views(f@), next: 0, level: Seq::empty(), ..l },
                g,
            );
        },
        LoadEvent::Compiled(UnitCompiled::Done { hash, handle, imports }) => {
            let url = l.to_fetch[l.next as int];
            let h = Graph { units: g.units.push(UnitView { url, hash, handle }), ..g };
            lemma_next_source(
                Load {
                    new_urls: l.new_urls.push(url),
                    level: l.level + crate::graph_load::imports_of(
                        crate::text::views(imports@),
                        url,
                    ),
                    next: l.next + 1,
                    ..l
                },
                h,
            );
        },
        LoadEvent::Resolved(Some(u)) => {
            let urls = opt_views(u@);
            let n = answered(l, urls);
            let k = first_unresolved(urls, n);
            lemma_unresolved_bound(urls, n);
            lemma_connected(l, g, urls, n);
            lemma_connected(l, g, urls, k);
        },
        _ => {},
    }
}

proof fn lemma_unresolved_bound(urls: Seq<Option<Seq<char>>>, n: nat)
    ensures
        first_unresolved(urls, n) <= n,
    decreases n,
{
    if n > 0 {
        lemma_unresolved_bound(urls, (n - 1) as nat);
    }
}

/// A load begins with its URLs apart.
pub proof fn law_load_begins_apart<H>(entry: Seq<char>, strict: bool, g: Graph<H>)
    ensures
        levels_apart(begin_level(fresh_load(entry, strict, g), g).0),
{
    let l = fresh_load(entry, strict, g);
    assert(l.seen.no_duplicates());
    assert(l.to_fetch.no_duplicates());
}

/// Whether a URL of a load is still to be compiled.
pub open spec fn waiting(l: Load, u: Seq<char>) -> bool {
    match l.step {
        LoadStep::Fetching => l.to_fetch.contains(u),
        LoadStep::Compiling => exists|i: int|
            l.next <= i < l.to_fetch.len() && #[trigger] l.to_fetch[i] == u,
        _ => false,
    }
}

/// What a strict load keeps: every URL it has seen is compiled or waits to be,
/// and every import that was resolved leads to a URL that is compiled or seen.
pub open spec fn nothing_lost<H>(l: Load, g: Graph<H>) -> bool {
    &&& l.strict
    &&& l.step == LoadStep::Compiling ==> l.fetched.len() == l.to_fetch.len()
    &&& forall|u: Seq<char>| #[trigger]
        l.seen.contains(u) ==> unit_of(g.units, u) is Some || waiting(l, u)
    &&& forall|e: EdgeView| #[trigger]
        g.edges.contains(e) ==> unit_of(g.units, e.url) is Some || l.seen.contains(e.url)
}

/// Whether every import that was resolved leads to a compiled module.
pub open spec fn complete<H>(g: Graph<H>) -> bool {
    forall|e: EdgeView| #[trigger] g.edges.contains(e) ==> unit_of(g.units, e.url) is Some
}

proof fn lemma_registered_stays<H>(units: Seq<UnitView<H>>, x: UnitView<H>, u: Seq<char>)
    ensures
        unit_of(units, u) is Some ==> unit_of(units.push(x), u) is Some,
        unit_of(units.push(x), x.url) is Some,
{
    assert(units.push(x).drop_last() =~= units);
}

proof fn lemma_source_kept<H>(l: Load, g: Graph<H>)
    requires
        l.strict,
        l.fetched.len() == l.to_fetch.len(),
        l.next <= l.to_fetch.len(),
        forall|u: Seq<char>| #[trigger]
            l.seen.contains(u) ==> unit_of(g.units, u) is Some || exists|i: int|
                l.next <= i < l.to_fetch.len() && #[trigger] l.to_fetch[i] == u,
        forall|e: EdgeView| #[trigger]
            g.edges.contains(e) ==> unit_of(g.units, e.url) is Some || l.seen.contains(e.url),
    ensures
        ({
            let (m, a) = next_source(l, g);
            &&& m.step == LoadStep::Done || nothing_lost(m, g)
            &&& a is Link ==> complete(g)
        }),
{
    let (m, a) = next_source(l, g);
    if l.next >= l.to_fetch.len() {
        assert forall|u: Seq<char>| #[trigger] l.seen.contains(u) implies unit_of(
            g.units,
            u,
        ) is Some by {}
        assert forall|e: EdgeView| #[trigger] g.edges.contains(e) implies unit_of(
            g.units,
            e.url,
        ) is Some by {}
    } else if l.fetched[l.next as int] is Some {
        assert(m == (Load { step: LoadStep::Compiling, ..l }));
        assert forall|u: Seq<char>| #[trigger] m.seen.contains(u) implies unit_of(
            g.units,
            u,
        ) is Some || waiting(m, u) by {
            assert(l.seen.contains(u));
            if unit_of(g.units, u) is None {
                let i = choose|i: int|
                    l.next <= i < l.to_fetch.len() && #[trigger] l.to_fetch[i] == u;
                assert(m.to_fetch[i] == u);
            }
        }
    }
}

/// A strict load links only a complete graph: when linking begins, every import
/// that was resolved leads to a module that was compiled. Every batch of sources
/// must answer for each URL asked.
pub proof fn law_strict_load_links_complete_graph<H>(l: Load, g: Graph<H>, e: LoadEvent<H>)
    requires
        levels_apart(l),
        load_fits(l, e),
        nothing_lost(l, g),
        e matches LoadEvent::Fetched(Some(f)) ==> f@.len() == l.to_fetch.len(),
    ensures
        ({
            let (m, h, a) = load_step(l, g, e);
            &&& m.step == LoadStep::Done || nothing_lost(m, h)
            &&& a is Link ==> complete(h)
        }),
{
    match e {
        LoadEvent::Fetched(Some(f)) => {
            let m = Load { fetched: opt_views(f@), next: 0, level: Seq::empty(), ..l };
            assert forall|u: Seq<char>| #[trigger] m.seen.contains(u) implies unit_of(
                g.units,
                u,
            ) is Some || exists|i: int| m.next <= i < m.to_fetch.len() && #[trigger] m.to_fetch[i]
                == u by {
                if unit_of(g.units, u) is None {
                    assert(waiting(l, u));
                    let i = choose|i: int| 0 <= i < l.to_fetch.len() && l.to_fetch[i] == u;
                    assert(m.to_fetch[i] == u);
                }
            }
            lemma_source_kept(m, g);
        },
        LoadEvent::Compiled(UnitCompiled::Done { hash, handle, imports }) => {
            let url = l.to_fetch[l.next as int];
            let x = UnitView { url, hash, handle };
            let h = Graph { units: g.units.push(x), ..g };
            let m = Load {
                new_urls: l.new_urls.push(url),
                level: l.level + crate::graph_load::imports_of(crate::text::views(imports@), url),
                next: l.next + 1,
                ..l
            };
            assert forall|u: Seq<char>| #[trigger] m.seen.contains(u) implies unit_of(
                h.units,
                u,
            ) is Some || exists|i: int| m.next <= i < m.to_fetch.len() && #[trigger] m.to_fetch[i]
                == u by {
                lemma_registered_stays(g.units, x, u);
                if unit_of(g.units, u) is None {
                    assert(waiting(l, u));
                    let i = choose|i: int|
                        l.next <= i < l.to_fetch.len() && #[trigger] l.to_fetch[i] == u;
                    if i > l.next {
                        assert(m.to_fetch[i] == u);
                    }
                }
            }
            assert forall|d: EdgeView| #[trigger] h.edges.contains(d) implies unit_of(
                h.units,
                d.url,
            ) is Some || m.seen.contains(d.url) by {
                lemma_registered_stays(g.units, x, d.url);
                assert(g.edges.contains(d));
            }
            lemma_source_kept(m, h);
        },
        LoadEvent::Resolved(Some(u)) => {
            let urls = opt_views(u@);
            let n = answered(l, urls);
            lemma_unresolved_bound(urls, n);
            lemma_connected(l, g, urls, n);
            let (m, h) = connected(l, g, urls, n);
            let (o, a) = begin_level(m, h);
            if !(l.strict && first_unresolved(urls, n) < n) {
                assert forall|v: Seq<char>| #[trigger] o.seen.contains(v) implies unit_of(
                    h.units,
                    v,
                ) is Some || m.to_fetch.contains(v) by {
                    if l.seen.contains(v) {
                        assert(!waiting(l, v));
                    }
                }
                assert forall|d: EdgeView| #[trigger] h.edges.contains(d) implies unit_of(
                    h.units,
                    d.url,
                ) is Some || m.seen.contains(d.url) by {
                    if g.edges.contains(d) && unit_of(g.units, d.url) is None {
                        assert(l.seen.contains(d.url));
                    }
                }
                if m.to_fetch.len() == 0 {
                    assert forall|v: Seq<char>| m.to_fetch.contains(v) implies false by {}
                }
            }
        },
        _ => {},
    }
}

/// A strict load of a complete graph begins with nothing lost.
pub proof fn law_strict_load_begins_complete<H>(entry: Seq<char>, g: Graph<H>)
    requires
        complete(g),
    ensures
        ({
            let (l, a) = begin_level(fresh_load(entry, true, g), g);
            l.step == LoadStep::Done || nothing_lost(l, g)
        }),
{
    let l = fresh_load(entry, true, g);
    assert(l.to_fetch == seq![entry]);
}

/// Whether the imports that an answer resolves lead into a set of URLs.
pub open spec fn leads_into<H>(e: LoadEvent<H>, web: Set<Seq<char>>) -> bool {
    e matches LoadEvent::Resolved(Some(u)) ==> stays_in(opt_views(u@), web)
}

/// Whether all URLs of a list are of a set.
pub open spec fn stays_in(urls: Seq<Option<Seq<char>>>, web: Set<Seq<char>>) -> bool {
    forall|i: int| 0 <= i < urls.len() ==> ((#[trigger] urls[i]) matches Some(u) ==> web.contains(u))
}

/// How far a load is from its end: the URLs that it has not seen, what is being
/// done, and the sources of the level that were not looked at.
pub open spec fn distance(l: Load, web: Set<Seq<char>>) -> (int, int, int) {
    (
        web.len() - l.seen.len(),
        match l.step {
            LoadStep::Fetching => 4,
            LoadStep::Compiling => 3,
            LoadStep::Resolving => 2,
            LoadStep::Linking => 1,
            LoadStep::Done => 0,
        },
        l.to_fetch.len() - l.next,
    )
}

/// Whether one distance is less than another: the first part counts most.
pub open spec fn nearer(a: (int, int, int), b: (int, int, int)) -> bool {
    a.0 < b.0 || (a.0 == b.0 && (a.1 < b.1 || (a.1 == b.1 && a.2 < b.2)))
}

proof fn lemma_connected_grows<H>(
    l: Load,
    g: Graph<H>,
    urls: Seq<Option<Seq<char>>>,
    n: nat,
    web: Set<Seq<char>>,
)
    requires
        n <= urls.len(),
        l.to_fetch.len() == 0,
        stays_in(urls, web),
        forall|u: Seq<char>| #[trigger] l.seen.contains(u) ==> web.contains(u),
    ensures
        ({
            let m = connected(l, g, urls, n).0;
            &&& m.seen.len() == l.seen.len() + m.to_fetch.len()
            &&& m.step == l.step
            &&& forall|u: Seq<char>| #[trigger] m.seen.contains(u) ==> web.contains(u)
        }),
    decreases n,
{
    if n > 0 {
        lemma_connected_grows(l, g, urls, (n - 1) as nat, web);
        let m = connected(l, g, urls, (n - 1) as nat).0;
        let m1 = connected(l, g, urls, n).0;
        assert forall|u: Seq<char>| #[trigger] m1.seen.contains(u) implies web.contains(u) by {
            let i = choose|i: int| 0 <= i < m1.seen.len() && m1.seen[i] == u;
            if i < m.seen.len() {
                assert(m.seen[i] == u);
                assert(m.seen.contains(u));
            } else {
                assert(urls[n - 1] == Some(u));
            }
        }
    }
}

proof fn lemma_sources_shrink<H>(l: Load, g: Graph<H>)
    ensures
        ({
            let m = next_source(l, g).0;
            &&& m.seen == l.seen
            &&& m.step != LoadStep::Fetching
            &&& m.step == LoadStep::Compiling ==> m.to_fetch == l.to_fetch && l.next <= m.next
                < m.to_fetch.len()
            &&& next_source(l, g).1 is Done <==> m.step == LoadStep::Done
        }),
    decreases l.to_fetch.len() - l.next,
{
    if l.next < l.to_fetch.len() && l.next < l.fetched.len() && l.fetched[l.next as int] is None
        && !l.strict {
        lemma_sources_shrink(Load { next: l.next + 1, ..l }, g);
    }
}

proof fn lemma_seen_bound(seen: Seq<Seq<char>>, web: Set<Seq<char>>)
    requires
        web.finite(),
        seen.no_duplicates(),
        forall|u: Seq<char>| #[trigger] seen.contains(u) ==> web.contains(u),
    ensures
        seen.len() <= web.len(),
{
    seen.unique_seq_to_set();
    assert(seen.to_set().subset_of(web)) by {
        assert forall|u: Seq<char>| seen.to_set().contains(u) implies web.contains(u) by {
            assert(seen.contains(u));
        }
    }
    vstd::set_lib::lemma_len_subset(seen.to_set(), web);
}

/// A load over finitely many URLs ends: each answer brings it nearer to its end,
/// and the distance is never negative.
pub proof fn law_load_of_finite_web_ends<H>(
    l: Load,
    g: Graph<H>,
    e: LoadEvent<H>,
    web: Set<Seq<char>>,
)
    requires
        web.finite(),
        levels_apart(l),
        load_fits(l, e),
        forall|u: Seq<char>| #[trigger] l.seen.contains(u) ==> web.contains(u),
        leads_into(e, web),
    ensures
        ({
            let (m, h, a) = load_step(l, g, e);
            &&& forall|u: Seq<char>| #[trigger] m.seen.contains(u) ==> web.contains(u)
            &&& nearer(distance(m, web), distance(l, web))
            &&& distance(m, web).0 >= 0
            &&& m.step == LoadStep::Compiling ==> distance(m, web).2 > 0
            &&& a is Done <==> m.step == LoadStep::Done
        }),
{
    law_no_url_is_fetched_twice(l, g, e);
    let m = load_step(l, g, e).0;
    match e {
        LoadEvent::Fetched(Some(f)) => {
            lemma_sources_shrink(
                Load { fetched: opt_views(f@), next: 0, level: Seq::empty(), ..l },
                g,
            );
        },
        LoadEvent::Compiled(UnitCompiled::Done { hash, handle, imports }) => {
            let url = l.to_fetch[l.next as int];
            let h = Graph { units: g.units.push(UnitView { url, hash, handle }), ..g };
            lemma_sources_shrink(
                Load {
                    new_urls: l.new_urls.push(url),
                    level: l.level + crate::graph_load::imports_of(
                        crate::text::views(imports@),
                        url,
                    ),
                    next: l.next + 1,
                    ..l
                },
                h,
            );
        },
        LoadEvent::Resolved(Some(u)) => {
            let urls = opt_views(u@);
            let n = answered(l, urls);
            let k = first_unresolved(urls, n);
            lemma_unresolved_bound(urls, n);
            lemma_connected_grows(l, g, urls, n, web);
            lemma_connected_grows(l, g, urls, k, web);
        },
        _ => {},
    }
    lemma_seen_bound(m.seen, web);
}

/// Whether a URL is new to a load: it was not registered when the load began. A
/// strict load takes its entry for new in any case.
pub open spec fn is_new<H>(l: Load, before: Graph<H>, u: Seq<char>) -> bool {
    unit_of(before.units, u) is None || (l.strict && u == l.entry)
}

/// What holds of the URLs that a load has compiled so far, all but for what is
/// being done: they are all different, all new, and the first is the entry.
pub open spec fn compiled_are_new<H>(l: Load, before: Graph<H>, now: Graph<H>) -> bool {
    &&& l.new_urls.no_duplicates()
    &&& forall|u: Seq<char>| #[trigger] l.new_urls.contains(u) ==> l.seen.contains(u)
    &&& forall|u: Seq<char>| #[trigger] l.seen.contains(u) ==> is_new(l, before, u)
    &&& forall|u: Seq<char>|
        #![trigger unit_of(before.units, u)]
        #![trigger unit_of(now.units, u)]
        unit_of(before.units, u) is Some ==> unit_of(now.units, u) is Some
    &&& l.new_urls.len() > 0 ==> l.new_urls[0] == l.entry
}

/// What holds besides of the URLs that are still to be compiled.
pub open spec fn rest_is_new(l: Load) -> bool {
    match l.step {
        LoadStep::Fetching => {
            &&& forall|i: int|
                0 <= i < l.to_fetch.len() ==> !l.new_urls.contains(#[trigger] l.to_fetch[i])
            &&& l.new_urls.len() == 0 ==> l.to_fetch == seq![l.entry]
        },
        LoadStep::Compiling => {
            &&& forall|i: int|
                l.next <= i < l.to_fetch.len() ==> !l.new_urls.contains(#[trigger] l.to_fetch[i])
            &&& l.new_urls.len() == 0 ==> l.to_fetch == seq![l.entry] && l.next == 0
        },
        LoadStep::Resolving => l.new_urls.len() > 0,
        _ => true,
    }
}

proof fn lemma_next_is_new<H>(l: Load, before: Graph<H>, now: Graph<H>)
    requires
        compiled_are_new(l, before, now),
        forall|i: int|
            l.next <= i < l.to_fetch.len() ==> !l.new_urls.contains(#[trigger] l.to_fetch[i]),
        l.new_urls.len() == 0 ==> l.to_fetch == seq![l.entry] && l.level.len() == 0,
    ensures
        ({
            let (m, a) = next_source(l, now);
            &&& compiled_are_new(m, before, now)
            &&& rest_is_new(m)
            &&& !(a is Done) || a->Done_0 is Err
        }),
    decreases l.to_fetch.len() - l.next,
{
    if l.next >= l.to_fetch.len() || l.next >= l.fetched.len() {
    } else if l.fetched[l.next as int] is None && !l.strict {
        lemma_next_is_new(Load { next: l.next + 1, ..l }, before, now);
    }
}

/// What taking in resolved imports does to what is new.
proof fn lemma_connected_is_new<H>(
    l: Load,
    before: Graph<H>,
    now: Graph<H>,
    urls: Seq<Option<Seq<char>>>,
    n: nat,
)
    requires
        compiled_are_new(l, before, now),
        levels_apart(l),
        l.to_fetch.len() == 0,
        n <= urls.len(),
        n <= l.level.len(),
    ensures
        ({
            let (m, h) = connected(l, now, urls, n);
            &&& compiled_are_new(m, before, h)
            &&& m.new_urls == l.new_urls
        }),
    decreases n,
{
    if n > 0 {
        lemma_connected_is_new(l, before, now, urls, (n - 1) as nat);
        lemma_connected(l, now, urls, (n - 1) as nat);
        let (m, h) = connected(l, now, urls, (n - 1) as nat);
        match urls[n - 1] {
            None => {},
            Some(url) => {
                if unit_of(h.units, url) is None && !m.seen.contains(url) {
                    lemma_push_distinct(m.seen, url);
                    assert(is_new(m, before, url));
                }
            },
        }
    }
}

/// The URLs that a load hands back are all different, none of them was
/// registered before it, and the first is the entry.
pub proof fn law_new_urls_are_new<H>(l: Load, before: Graph<H>, now: Graph<H>, e: LoadEvent<H>)
    requires
        levels_apart(l),
        compiled_are_new(l, before, now),
        rest_is_new(l),
        load_fits(l, e),
    ensures
        ({
            let (m, h, a) = load_step(l, now, e);
            &&& compiled_are_new(m, before, h)
            &&& rest_is_new(m)
            &&& a matches LoadAct::Done(Ok(urls)) ==> {
                &&& urls.no_duplicates()
                &&& forall|u: Seq<char>| #[trigger] urls.contains(u) ==> is_new(l, before, u)
                &&& urls.len() > 0 ==> urls[0] == l.entry
            }
        }),
{
    match e {
        LoadEvent::Fetched(Some(f)) => {
            lemma_next_is_new(
                Load { fetched: opt_views(f@), next: 0, level: Seq::empty(), ..l },
                before,
                now,
            );
        },
        LoadEvent::Compiled(UnitCompiled::Done { hash, handle, imports }) => {
            let url = l.to_fetch[l.next as int];
            let x = UnitView { url, hash, handle };
            let h = Graph { units: now.units.push(x), ..now };
            let m = Load {
                new_urls: l.new_urls.push(url),
                level: l.level + crate::graph_load::imports_of(crate::text::views(imports@), url),
                next: l.next + 1,
                ..l
            };
            assert(!l.new_urls.contains(l.to_fetch[l.next as int]));
            lemma_push_distinct(l.new_urls, url);
            assert(l.to_fetch.contains(url));
            assert forall|u: Seq<char>| unit_of(before.units, u) is Some implies unit_of(
                h.units,
                u,
            ) is Some by {
                lemma_registered_stays(now.units, x, u);
            }
            assert forall|i: int| m.next <= i < m.to_fetch.len() implies !m.new_urls.contains(
                #[trigger] m.to_fetch[i],
            ) by {
                assert(!l.new_urls.contains(l.to_fetch[i]));
                assert(l.to_fetch[i] != l.to_fetch[l.next as int]);
            }
            assert(compiled_are_new(m, before, h));
            lemma_next_is_new(m, before, h);
        },
        LoadEvent::Resolved(Some(u)) => {
            let urls = opt_views(u@);
            let n = answered(l, urls);
            let k = first_unresolved(urls, n);
            lemma_unresolved_bound(urls, n);
            lemma_connected(l, now, urls, n);
            lemma_connected_is_new(l, before, now, urls, n);
            lemma_connected_is_new(l, before, now, urls, k);
            let (m, h) = connected(l, now, urls, n);
            assert forall|i: int| 0 <= i < m.to_fetch.len() implies !m.new_urls.contains(
                #[trigger] m.to_fetch[i],
            ) by {
                assert(m.to_fetch.contains(m.to_fetch[i]));
                assert(!l.seen.contains(m.to_fetch[i]));
            }
        },
        _ => {},
    }
}

/// A load begins with nothing compiled and nothing but its entry to be.
pub proof fn law_load_begins_new<H>(entry: Seq<char>, strict: bool, g: Graph<H>)
    ensures
        ({
            let (l, a) = begin_level(fresh_load(entry, strict, g), g);
            compiled_are_new(l, g, g) && rest_is_new(l)
        }),
{
    let l = fresh_load(entry, strict, g);
    assert(l.new_urls.no_duplicates());
}

/// What a load comes to once its entry was linked and evaluated: the URLs that it
/// compiled, where the evaluation was fulfilled. Of anything else a strict load
/// makes a failure, and another one only of what is known to have failed; a
/// rejection is then told by its reason.
pub proof fn law_load_ends_with_what_was_compiled(l: Load, reason: String)
    ensures
        ({
            let end = |e: Entry| take_linked(l, e).1;
            let compiled = LoadAct::Done(Ok(l.new_urls));
            &&& end(Entry::Fulfilled) == compiled
            &&& !l.strict ==> end(Entry::Plain) == compiled && end(Entry::Pending) == compiled
            &&& l.strict ==> end(Entry::Plain) == LoadAct::Done(
                Err(Fault::Runtime("not a promise"@)),
            ) && end(Entry::Pending) == LoadAct::Done(
                Err(Fault::Runtime("module evaluation not fulfilled"@)),
            ) && end(Entry::Rejected(reason)) == end(Entry::Pending)
            &&& !l.strict ==> end(Entry::Rejected(reason)) == LoadAct::Done(
                Err(Fault::Runtime(reason@)),
            )
            &&& end(Entry::NotLinked) == LoadAct::Done(
                Err(
                    Fault::Runtime(
                        if l.strict {
                            "instantiate failed"@
                        } else {
                            "instantiate failed: "@ + l.entry
                        },
                    ),
                ),
            )
            &&& end(Entry::NotEvaluated) == LoadAct::Done(
                Err(
                    Fault::Runtime(
                        if l.strict {
                            "evaluate failed"@
                        } else {
                            "module evaluation failed"@
                        },
                    ),
                ),
            )
        }),
{
}

/// The next source that is compiled is the first one at hand that was found, under
/// the URL that it was fetched for; a strict load fails at a missing one instead,
/// and says for which URL.
pub proof fn law_next_source_is_the_first_found<H>(l: Load, g: Graph<H>, k: nat)
    requires
        l.next <= k < l.to_fetch.len(),
        k < l.fetched.len(),
        forall|j: int| l.next <= j < k ==> (#[trigger] l.fetched[j]) is None,
    ensures
        ({
            let (m, a) = next_source(l, g);
            &&& l.strict && k > l.next ==> a == LoadAct::Done(
                Err(Fault::Runtime("fetch failed: "@ + l.to_fetch[l.next as int])),
            )
            &&& l.strict && k == l.next && l.fetched[k as int] is None ==> a == LoadAct::Done(
                Err(Fault::Runtime("fetch failed: "@ + l.to_fetch[k as int])),
            )
            &&& (!l.strict || k == l.next) && l.fetched[k as int] is Some ==> {
                &&& a == (LoadAct::Compile {
                    url: l.to_fetch[k as int],
                    source: l.fetched[k as int]->0,
                })
                &&& m == (Load { step: LoadStep::Compiling, next: k, ..l })
            }
        }),
    decreases k - l.next,
{
    if k > l.next {
        assert(l.fetched[l.next as int] is None);
        if !l.strict {
            law_next_source_is_the_first_found(Load { next: l.next + 1, ..l }, g, k);
        }
    }
}

/// A module that was compiled is registered under its URL with its own handle, and
/// each of its imports waits to be resolved, as one from that URL.
pub proof fn law_compiled_module_is_registered<H>(
    l: Load,
    g: Graph<H>,
    hash: i32,
    handle: H,
    imports: Vec<String>,
    i: int,
)
    requires
        load_fits(
            l,
            LoadEvent::Compiled(UnitCompiled::Done { hash, handle, imports }),
        ),
        l.step is Compiling,
        0 <= i < imports@.len(),
    ensures
        ({
            let url = l.to_fetch[l.next as int];
            let (m, h, a) = load_step(
                l,
                g,
                LoadEvent::Compiled(UnitCompiled::Done { hash, handle, imports }),
            );
            &&& unit_of(h.units, url) == Some(UnitView { url, hash, handle })
            &&& h.edges == g.edges
            &&& imports_of(views(imports@), url)[i] == (imports@[i]@, url)
            &&& imports_of(views(imports@), url).len() == imports@.len()
        }),
{
    let url = l.to_fetch[l.next as int];
    let u = UnitView { url, hash, handle };
    assert(g.units.push(u).drop_last() =~= g.units);
}

/// Whether a load has failed with a text.
pub open spec fn load_fails(a: LoadAct, text: Seq<char>) -> bool {
    a == LoadAct::Done(Err(Fault::Runtime(text))) || a == LoadAct::Done(Err(Fault::Parse(text)))
}

/// What cannot be fetched, compiled or resolved ends the load with a failure that
/// says so, whatever was loaded before; nothing is registered or connected then.
pub proof fn law_load_fails_with_its_batch<H>(l: Load, g: Graph<H>)
    ensures
        ({
            let fails = |e: LoadEvent<H>, text: Seq<char>|
                {
                    let (m, h, a) = load_step(l, g, e);
                    load_fails(a, text) && h == g && m.step is Done
                };
            &&& fails(LoadEvent::Fetched(None), "fetch_batch callback failed"@)
            &&& fails(LoadEvent::Resolved(None), "resolve callback failed"@)
            &&& fails(LoadEvent::Compiled(UnitCompiled::TooLarge), "source alloc"@)
            &&& fails(
                LoadEvent::Compiled(UnitCompiled::Failed),
                "compile failed: "@ + l.to_fetch[l.next as int],
            )
            &&& load_step(l, g, LoadEvent::Compiled(UnitCompiled::Failed)).2 == LoadAct::Done(
                Err(Fault::Parse("compile failed: "@ + l.to_fetch[l.next as int])),
            )
        }),
{
}

/// A level that is not empty is fetched as one batch; once none is left the entry
/// is linked, if it is there, and else the load fails.
pub proof fn law_empty_level_leads_to_linking<H>(l: Load, g: Graph<H>)
    ensures
        ({
            let (m, a) = begin_level(l, g);
            &&& l.to_fetch.len() > 0 ==> a == LoadAct::Fetch(l.to_fetch) && m.step is Fetching
            &&& l.to_fetch.len() == 0 && unit_of(g.units, l.entry) is Some ==> a == LoadAct::Link(
                l.entry,
            ) && m.step is Linking
            &&& l.to_fetch.len() == 0 && unit_of(g.units, l.entry) is None ==> (
            a matches LoadAct::Done(r) && r is Err)
            &&& m == (Load { step: m.step, ..l })
        }),
{
}

/// Every import that was resolved is an edge from the module that it is in, by its
/// own specifier; edges that were there stay, and modules stay as they were.
pub proof fn law_resolved_imports_become_edges<H>(
    l: Load,
    g: Graph<H>,
    urls: Seq<Option<Seq<char>>>,
    n: nat,
    i: int,
)
    requires
        n <= urls.len(),
        n <= l.level.len(),
        0 <= i < n,
    ensures
        ({
            let h = connected(l, g, urls, n).1;
            &&& h.units == g.units
            &&& forall|e: EdgeView| g.edges.contains(e) ==> #[trigger] h.edges.contains(e)
            &&& urls[i] matches Some(url) ==> h.edges.contains(
                EdgeView { referrer: l.level[i].1, specifier: l.level[i].0, url },
            )
        }),
    decreases n,
{
    let (m, before) = connected(l, g, urls, (n - 1) as nat);
    let h = connected(l, g, urls, n).1;
    if n > 1 {
        let k: int = if i < n - 1 {
            i
        } else {
            0
        };
        law_resolved_imports_become_edges(l, g, urls, (n - 1) as nat, k);
    } else {
        assert(before == g);
    }
    match urls[n - 1] {
        Some(url) => {
            let edge = EdgeView {
                referrer: l.level[n - 1].1,
                specifier: l.level[n - 1].0,
                url,
            };
            assert(h.edges == before.edges.push(edge));
            assert(h.edges[before.edges.len() as int] == edge);
            assert forall|e: EdgeView| before.edges.contains(e) implies #[trigger] h.edges.contains(
                e,
            ) by {
                let j = choose|j: int| 0 <= j < before.edges.len() && before.edges[j] == e;
                assert(h.edges[j] == e);
            }
        },
        None => {},
    }
}

/// A load begins with its entry. Unless it is strict, an entry that is there is
/// not fetched again, and the load goes on to link it at once.
pub proof fn law_load_begins_with_its_entry<H>(entry: Seq<char>, strict: bool, g: Graph<H>)
    ensures
        ({
            let l = fresh_load(entry, strict, g);
            let a = begin_level(l, g).1;
            &&& strict || unit_of(g.units, entry) is None ==> a == LoadAct::Fetch(seq![entry])
            &&& !strict && unit_of(g.units, entry) is Some ==> a == LoadAct::Link(entry)
            &&& l.new_urls.len() == 0 && l.level.len() == 0 && l.entry == entry
                && l.strict == strict
        }),
{
}

/// Once a level's sources are in, what they import is resolved as one batch, in the
/// order it was met; a level that imports nothing leads on at once.
pub proof fn law_imports_of_a_level_are_resolved_together<H>(l: Load, g: Graph<H>)
    ensures
        ({
            let (m, a) = end_level(l, g);
            &&& l.level.len() > 0 ==> a == LoadAct::Resolve(l.level) && m.step is Resolving
                && m.level == l.level
            &&& l.level.len() == 0 && unit_of(g.units, l.entry) is Some ==> a == LoadAct::Link(
                l.entry,
            )
            &&& m.to_fetch.len() == 0
            &&& (m.seen, m.new_urls, m.entry, m.strict) == (l.seen, l.new_urls, l.entry, l.strict)
        }),
{
}

proof fn lemma_next_source_keeps<H>(l: Load, g: Graph<H>)
    ensures
        ({
            let m = next_source(l, g).0;
            (m.level, m.seen, m.new_urls, m.entry, m.strict) == (
                l.level,
                l.seen,
                l.new_urls,
                l.entry,
                l.strict,
            )
        }),
    decreases l.to_fetch.len() - l.next,
{
    if l.next < l.to_fetch.len() && l.next < l.fetched.len() {
        if l.fetched[l.next as int] is None && !l.strict {
            lemma_next_source_keeps(Load { next: l.next + 1, ..l }, g);
        }
    }
}

/// What a module imports waits behind what the modules before it on the level do,
/// and the module is the last of those that were compiled.
pub proof fn law_imports_wait_in_order<H>(
    l: Load,
    g: Graph<H>,
    hash: i32,
    handle: H,
    imports: Vec<String>,
)
    ensures
        ({
            let url = l.to_fetch[l.next as int];
            let m = load_step(
                l,
                g,
                LoadEvent::Compiled(UnitCompiled::Done { hash, handle, imports }),
            ).0;
            &&& m.level == l.level + imports_of(views(imports@), url)
            &&& m.new_urls == l.new_urls.push(url)
            &&& m.seen == l.seen
        }),
{
    let url = l.to_fetch[l.next as int];
    let h = Graph { units: g.units.push(UnitView { url, hash, handle }), ..g };
    lemma_next_source_keeps(
        Load {
            new_urls: l.new_urls.push(url),
            level: l.level + imports_of(views(imports@), url),
            next: l.next + 1,
            ..l
        },
        h,
    );
}

/// A batch of sources is taken from its first: what an earlier batch left behind,
/// its sources or its imports, says nothing.
pub proof fn law_each_level_starts_afresh<H>(
    l: Load,
    g: Graph<H>,
    f: Vec<Option<String>>,
    fetched: Seq<Option<Seq<char>>>,
    next: nat,
    level: Seq<(Seq<char>, Seq<char>)>,
)
    ensures
        load_step(Load { fetched, next, level, ..l }, g, LoadEvent::Fetched(Some(f))) == load_step(
            l,
            g,
            LoadEvent::Fetched(Some(f)),
        ),
        f@.len() > 0 && l.to_fetch.len() > 0 && f@[0] is Some ==> load_step(
            l,
            g,
            LoadEvent::Fetched(Some(f)),
        ).2 == (LoadAct::Compile { url: l.to_fetch[0], source: f@[0]->0@ }),
{
    if f@.len() > 0 {
        assert(opt_views(f@)[0] == match f@[0] {
            Some(s) => Some(s@),
            None => None,
        });
    }
}

/// Where every import that was answered leads somewhere, a load goes on, strict or
/// not: with the next level, or with linking.
pub proof fn law_resolved_level_leads_on<H>(l: Load, g: Graph<H>, urls: Seq<Option<Seq<char>>>)
    requires
        forall|j: int| 0 <= j < answered(l, urls) ==> (#[trigger] urls[j]) is Some,
    ensures
        ({
            let (m, h, a) = take_resolved(l, g, urls);
            let (n, k) = connected(l, g, urls, answered(l, urls));
            &&& h == k
            &&& n.to_fetch.len() > 0 ==> a == LoadAct::Fetch(n.to_fetch)
            &&& n.to_fetch.len() == 0 && unit_of(k.units, n.entry) is Some ==> a == LoadAct::Link(
                n.entry,
            )
        }),
        answered(l, urls) <= urls.len() && answered(l, urls) <= l.level.len(),
        answered(l, urls) == urls.len() || answered(l, urls) == l.level.len(),
{
    lemma_all_resolved_before(urls, answered(l, urls));
}

/// An import that leads nowhere fails a strict load, which names it and the module
/// it is in; another load goes on without it.
pub proof fn law_unresolved_import_fails_strict_load<H>(
    l: Load,
    g: Graph<H>,
    urls: Seq<Option<Seq<char>>>,
    k: nat,
)
    requires
        k < answered(l, urls),
        urls[k as int] is None,
        forall|j: int| 0 <= j < k ==> (#[trigger] urls[j]) is Some,
    ensures
        ({
            let (m, h, a) = take_resolved(l, g, urls);
            &&& l.strict ==> a == LoadAct::Done(
                Err(
                    Fault::Runtime(
                        "unresolvable: "@ + l.level[k as int].0 + " from "@ + l.level[k as int].1,
                    ),
                ),
            )
            &&& !l.strict ==> a == begin_level(connected(l, g, urls, answered(l, urls)).0, h).1
        }),
{
    lemma_first_unresolved(urls, answered(l, urls), k);
}

proof fn lemma_first_unresolved(urls: Seq<Option<Seq<char>>>, n: nat, k: nat)
    requires
        k < n,
        urls[k as int] is None,
        forall|j: int| 0 <= j < k ==> (#[trigger] urls[j]) is Some,
    ensures
        first_unresolved(urls, n) == k,
    decreases n,
{
    if n - 1 > k {
        lemma_first_unresolved(urls, (n - 1) as nat, k);
    } else {
        lemma_all_resolved_before(urls, k);
    }
}

proof fn lemma_all_resolved_before(urls: Seq<Option<Seq<char>>>, n: nat)
    requires
        forall|j: int| 0 <= j < n ==> (#[trigger] urls[j]) is Some,
    ensures
        first_unresolved(urls, n) == n,
    decreases n,
{
    if n > 0 {
        lemma_all_resolved_before(urls, (n - 1) as nat);
        assert(urls[n - 1] is Some);
    }
}

/// A URL that an import leads to is fetched on the next level unless it was loaded or
/// seen before, in a strict load or not: none is lost on the way, and what was already
/// to be fetched still is.
pub proof fn law_new_url_goes_on_the_next_level<H>(
    l: Load,
    g: Graph<H>,
    urls: Seq<Option<Seq<char>>>,
    n: nat,
    i: int,
)
    requires
        n <= urls.len(),
        n <= l.level.len(),
        0 <= i < n,
    ensures
        ({
            let m = connected(l, g, urls, n).0;
            &&& forall|u: Seq<char>| #[trigger] l.to_fetch.contains(u) ==> m.to_fetch.contains(u)
            &&& forall|u: Seq<char>| #[trigger] l.seen.contains(u) ==> m.seen.contains(u)
            &&& forall|u: Seq<char>|
                #[trigger] m.to_fetch.contains(u) ==> l.to_fetch.contains(u) || (m.seen.contains(u)
                    && !l.seen.contains(u) && unit_of(g.units, u) is None)
            &&& forall|u: Seq<char>|
                #[trigger] m.seen.contains(u) ==> l.seen.contains(u) || m.to_fetch.contains(u)
            &&& urls[i] matches Some(url) ==> unit_of(g.units, url) is Some || l.seen.contains(url)
                || m.to_fetch.contains(url)
        }),
    decreases n,
{
    let (b, h) = connected(l, g, urls, (n - 1) as nat);
    let m = connected(l, g, urls, n).0;
    if n > 1 {
        let k: int = if i < n - 1 {
            i
        } else {
            0
        };
        law_new_url_goes_on_the_next_level(l, g, urls, (n - 1) as nat, k);
        law_resolved_imports_become_edges(l, g, urls, (n - 1) as nat, k);
    } else {
        assert(b == l && h == g);
    }
    match urls[n - 1] {
        Some(url) => {
            if unit_of(h.units, url) is None && !b.seen.contains(url) {
                assert(m.to_fetch == b.to_fetch.push(url) && m.seen == b.seen.push(url));
                assert(m.to_fetch[b.to_fetch.len() as int] == url);
                assert(m.seen[b.seen.len() as int] == url);
                assert forall|u: Seq<char>| #[trigger]
                    b.to_fetch.contains(u) implies m.to_fetch.contains(u) by {
                    let j = choose|j: int| 0 <= j < b.to_fetch.len() && b.to_fetch[j] == u;
                    assert(m.to_fetch[j] == u);
                }
                assert forall|u: Seq<char>| #[trigger] b.seen.contains(u) implies m.seen.contains(
                    u,
                ) by {
                    let j = choose|j: int| 0 <= j < b.seen.len() && b.seen[j] == u;
                    assert(m.seen[j] == u);
                }
                assert forall|u: Seq<char>| #[trigger]
                    m.to_fetch.contains(u) implies b.to_fetch.contains(u) || u == url by {
                    let j = choose|j: int| 0 <= j < m.to_fetch.len() && m.to_fetch[j] == u;
                    if j < b.to_fetch.len() {
                        assert(b.to_fetch[j] == u);
                    }
                }
                assert forall|u: Seq<char>| #[trigger] m.seen.contains(u) implies b.seen.contains(u)
                    || u == url by {
                    let j = choose|j: int| 0 <= j < m.seen.len() && m.seen[j] == u;
                    if j < b.seen.len() {
                        assert(b.seen[j] == u);
                    }
                }
            }
        },
        None => {},
    }
}

/// What is to be done for a load is told from everything else: the batch, the source,
/// the entry, and what the load came to.
pub proof fn law_load_actions_are_told_apart(a: LoadAction, b: LoadAction)
    requires
        a@ == b@,
    ensures
        a matches LoadAction::Fetch(u) ==> (b matches LoadAction::Fetch(w) && views(u@) == views(
            w@,
        )),
        a matches LoadAction::Compile { url, source } ==> (b matches LoadAction::Compile {
            url: u,
            source: s,
        } && url@ == u@ && source@ == s@),
        a matches LoadAction::Resolve(e) ==> (b matches LoadAction::Resolve(f) && pair_views(e@)
            == pair_views(f@)),
        a matches LoadAction::Link(u) ==> (b matches LoadAction::Link(w) && u@ == w@),
        a matches LoadAction::Done(Ok(u)) ==> (b matches LoadAction::Done(Ok(w)) && views(u@)
            == views(w@)),
        a matches LoadAction::Done(Err(e)) ==> (b matches LoadAction::Done(Err(f)) && e@ == f@),
{
}

} // verus!
