//! Loading a graph of ES modules level by level: the sources of a level are
//! fetched in one batch, and the imports met in it resolved in another.
use vstd::prelude::*;

verus! {

broadcast use vstd::string::group_string_axioms;

/// A module that was compiled under a URL.
pub struct Unit<H> {
    pub url: String,
    /// The engine's identity hash; two modules may share one.
    pub hash: i32,
    pub handle: H,
}

/// An import that was resolved.
pub struct Edge {
    pub referrer: String,
    pub specifier: String,
    pub url: String,
}

/// The modules of a realm and how they import one another.
pub struct Registry<H> {
    units: Vec<Unit<H>>,
    edges: Vec<Edge>,
}

/// The mathematical value of a `Unit`.
pub ghost struct UnitView<H> {
    pub url: Seq<char>,
    pub hash: i32,
    pub handle: H,
}

/// The mathematical value of an `Edge`.
pub ghost struct EdgeView {
    pub referrer: Seq<char>,
    pub specifier: Seq<char>,
    pub url: Seq<char>,
}

/// The mathematical value of a `Registry`: what came later goes before what
/// came earlier.
#[verifier::ext_equal]
pub ghost struct Graph<H> {
    pub units: Seq<UnitView<H>>,
    pub edges: Seq<EdgeView>,
}

pub open spec fn unit_view<H>(u: Unit<H>) -> UnitView<H> {
    UnitView { url: u.url@, hash: u.hash, handle: u.handle }
}

pub open spec fn edge_view(e: Edge) -> EdgeView {
    EdgeView { referrer: e.referrer@, specifier: e.specifier@, url: e.url@ }
}

impl<H> View for Registry<H> {
    type V = Graph<H>;

    closed spec fn view(&self) -> Graph<H> {
        Graph {
            units: self.units@.map_values(|u: Unit<H>| unit_view(u)),
            edges: self.edges@.map_values(|e: Edge| edge_view(e)),
        }
    }
}

/// The module under a URL: the one that was compiled last.
pub open spec fn unit_of<H>(units: Seq<UnitView<H>>, url: Seq<char>) -> Option<UnitView<H>>
    decreases units.len(),
{
    if units.len() == 0 {
        None
    } else if units.last().url == url {
        Some(units.last())
    } else {
        unit_of(units.drop_last(), url)
    }
}

/// Where an import leads: as it was resolved last.
pub open spec fn edge_of(
    edges: Seq<EdgeView>,
    referrer: Seq<char>,
    specifier: Seq<char>,
) -> Option<Seq<char>>
    decreases edges.len(),
{
    if edges.len() == 0 {
        None
    } else if edges.last().referrer == referrer && edges.last().specifier == specifier {
        Some(edges.last().url)
    } else {
        edge_of(edges.drop_last(), referrer, specifier)
    }
}

/// The handle at a position.
pub open spec fn handle_at<H>(units: Seq<UnitView<H>>, index: int) -> Option<H> {
    if 0 <= index < units.len() {
        Some(units[index].handle)
    } else {
        None
    }
}

/// A module that is registered keeps its position, with its own handle, whatever is
/// registered after it.
pub proof fn law_module_keeps_its_position<H>(units: Seq<UnitView<H>>, unit: UnitView<H>, i: int)
    ensures
        handle_at(units.push(unit), units.len() as int) == Some(unit.handle),
        0 <= i < units.len() ==> handle_at(units.push(unit), i) == handle_at(units, i)
            && handle_at(units, i) == Some(units[i].handle),
        i >= units.len() ==> handle_at(units, i) is None,
{
}

/// The positions of the modules that share an identity hash.
pub open spec fn units_with<H>(units: Seq<UnitView<H>>, hash: i32) -> Seq<usize>
    decreases units.len(),
{
    if units.len() == 0 {
        Seq::empty()
    } else {
        let before = units_with(units.drop_last(), hash);
        if units.last().hash == hash {
            before.push((units.len() - 1) as usize)
        } else {
            before
        }
    }
}

impl<H> Registry<H> {
    /// An empty registry.
    pub fn new() -> (r: Registry<H>)
        ensures
            r@ == (Graph::<H> { units: Seq::empty(), edges: Seq::empty() }),
    {
        let r = Registry { units: Vec::new(), edges: Vec::new() };
        assert(r@.units =~= Seq::empty());
        assert(r@.edges =~= Seq::empty());
        r
    }

    /// Forgets everything.
    pub fn clear(&mut self)
        ensures
            final(self)@ == (Graph::<H> { units: Seq::empty(), edges: Seq::empty() }),
    {
        self.units = Vec::new();
        self.edges = Vec::new();
        assert(self@.units =~= Seq::empty());
        assert(self@.edges =~= Seq::empty());
    }

    /// Takes in a module that was compiled under a URL.
    pub fn register(&mut self, url: String, hash: i32, handle: H)
        ensures
            final(self)@ == (Graph {
                units: old(self)@.units.push(UnitView { url: url@, hash, handle }),
                ..old(self)@
            }),
    {
        self.units.push(Unit { url, hash, handle });
        assert(self@.units =~= old(self)@.units.push(UnitView { url: url@, hash, handle }));
        assert(self@.edges =~= old(self)@.edges);
    }

    /// Takes in an import that was resolved.
    pub fn connect(&mut self, referrer: String, specifier: String, url: String)
        ensures
            final(self)@ == (Graph {
                edges: old(self)@.edges.push(
                    EdgeView { referrer: referrer@, specifier: specifier@, url: url@ },
                ),
                ..old(self)@
            }),
    {
        self.edges.push(Edge { referrer, specifier, url });
        assert(self@.edges =~= old(self)@.edges.push(
            EdgeView { referrer: referrer@, specifier: specifier@, url: url@ },
        ));
        assert(self@.units =~= old(self)@.units);
    }

    fn index_of(&self, url: &String) -> (r: Option<usize>)
        ensures
            match (r, unit_of(self@.units, url@)) {
                (Some(i), Some(u)) => i < self.units@.len() && unit_view(self.units@[i as int])
                    == u,
                (None, None) => true,
                _ => false,
            },
    {
        let ghost all = self@.units;
        let mut i: usize = self.units.len();
        assert(all.take(i as int) =~= all);
        while i > 0
            invariant
                i <= self.units@.len(),
                all == self@.units,
                all.len() == self.units@.len(),
                unit_of(all, url@) == unit_of(all.take(i as int), url@),
            decreases i,
        {
            let ghost t = all.take(i as int);
            assert(t.last() == unit_view(self.units@[i - 1]));
            assert(t.drop_last() =~= all.take(i - 1));
            if self.units[i - 1].url == *url {
                return Some(i - 1);
            }
            i = i - 1;
        }
        None
    }

    /// Whether a module was compiled under a URL.
    pub fn contains(&self, url: &String) -> (r: bool)
        ensures
            r == unit_of(self@.units, url@) is Some,
    {
        self.index_of(url).is_some()
    }

    /// The module under a URL.
    pub fn get(&self, url: &String) -> (r: Option<&H>)
        ensures
            match (r, unit_of(self@.units, url@)) {
                (Some(h), Some(u)) => *h == u.handle,
                (None, None) => true,
                _ => false,
            },
    {
        match self.index_of(url) {
            Some(i) => Some(&self.units[i].handle),
            None => None,
        }
    }

    /// The positions of the modules that share an identity hash, oldest first:
    /// the one to look for is among them.
    pub fn bucket(&self, hash: i32) -> (r: Vec<usize>)
        ensures
            r@ == units_with(self@.units, hash),
    {
        let ghost all = self@.units;
        let mut out: Vec<usize> = Vec::new();
        let mut i: usize = 0;
        assert(all.take(0) =~= Seq::empty());
        while i < self.units.len()
            invariant
                i <= self.units@.len(),
                all == self@.units,
                all.len() == self.units@.len(),
                out@ == units_with(all.take(i as int), hash),
            decreases self.units.len() - i,
        {
            assert(all.take(i + 1).drop_last() =~= all.take(i as int));
            assert(all[i as int] == unit_view(self.units@[i as int]));
            if self.units[i].hash == hash {
                out.push(i);
            }
            i = i + 1;
        }
        assert(all.take(i as int) =~= all);
        out
    }

    /// The handle at a position.
    pub fn handle(&self, index: usize) -> (r: Option<&H>)
        ensures
            match (r, handle_at(self@.units, index as int)) {
                (Some(h), Some(want)) => *h == want,
                (None, None) => true,
                _ => false,
            },
    {
        if index < self.units.len() {
            Some(&self.units[index].handle)
        } else {
            None
        }
    }

    /// Where an import of the module at a position leads.
    pub fn resolve_module(&self, referrer: usize, specifier: &String) -> (r: Option<&H>)
        requires
            referrer < self@.units.len(),
        ensures
            match (
                r,
                resolved_unit(self@, self@.units[referrer as int].url, specifier@),
            ) {
                (Some(h), Some(u)) => *h == u.handle,
                (None, None) => true,
                _ => false,
            },
    {
        let ghost all = self@.edges;
        let ghost from = self@.units[referrer as int].url;
        assert(from == self.units@[referrer as int].url@);
        let mut i: usize = self.edges.len();
        assert(all.take(i as int) =~= all);
        while i > 0
            invariant
                i <= self.edges@.len(),
                referrer < self.units@.len(),
                from == self.units@[referrer as int].url@,
                all == self@.edges,
                all.len() == self.edges@.len(),
                edge_of(all, from, specifier@) == edge_of(all.take(i as int), from, specifier@),
            decreases i,
        {
            let ghost t = all.take(i as int);
            assert(t.last() == edge_view(self.edges@[i - 1]));
            assert(t.drop_last() =~= all.take(i - 1));
            if self.edges[i - 1].referrer == self.units[referrer].url && self.edges[i - 1].specifier
                == *specifier {
                return self.get(&self.edges[i - 1].url);
            }
            i = i - 1;
        }
        None
    }
}

/// The module that an import leads to.
pub open spec fn resolved_unit<H>(
    g: Graph<H>,
    referrer: Seq<char>,
    specifier: Seq<char>,
) -> Option<UnitView<H>> {
    match edge_of(g.edges, referrer, specifier) {
        Some(url) => unit_of(g.units, url),
        None => None,
    }
}

/// The module under a URL is the one that was registered under it last; to
/// register one changes nothing of any other URL.
pub proof fn law_last_registered_module_is_found<H>(
    units: Seq<UnitView<H>>,
    unit: UnitView<H>,
    other: Seq<char>,
)
    requires
        other != unit.url,
    ensures
        unit_of(units.push(unit), unit.url) == Some(unit),
        unit_of(units.push(unit), other) == unit_of(units, other),
        unit_of(Seq::<UnitView<H>>::empty(), other) is None,
{
    assert(units.push(unit).drop_last() =~= units);
}

/// A module that is found was registered under that very URL, and where none is
/// found none was.
pub proof fn law_found_module_was_registered<H>(units: Seq<UnitView<H>>, url: Seq<char>)
    ensures
        match unit_of(units, url) {
            Some(u) => units.contains(u) && u.url == url,
            None => forall|i: int| 0 <= i < units.len() ==> (#[trigger] units[i]).url != url,
        },
    decreases units.len(),
{
    if units.len() > 0 {
        let rest = units.drop_last();
        law_found_module_was_registered(rest, url);
        if units.last().url == url {
            assert(units[units.len() - 1] == units.last());
        } else {
            match unit_of(rest, url) {
                Some(u) => {
                    let i = choose|i: int| 0 <= i < rest.len() && rest[i] == u;
                    assert(units[i] == u);
                },
                None => {
                    assert forall|i: int| 0 <= i < units.len() implies (
                    #[trigger] units[i]).url != url by {
                        if i < rest.len() {
                            assert(rest[i] == units[i]);
                        }
                    }
                },
            }
        }
    }
}

/// An import leads where it was resolved to last, by its specifier and the module
/// it is from together: another specifier, or the same one elsewhere, leads where
/// it did.
pub proof fn law_last_resolution_counts(
    edges: Seq<EdgeView>,
    edge: EdgeView,
    referrer: Seq<char>,
    specifier: Seq<char>,
)
    ensures
        edge_of(edges.push(edge), edge.referrer, edge.specifier) == Some(edge.url),
        referrer != edge.referrer || specifier != edge.specifier ==> edge_of(
            edges.push(edge),
            referrer,
            specifier,
        ) == edge_of(edges, referrer, specifier),
        edge_of(Seq::<EdgeView>::empty(), referrer, specifier) is None,
{
    assert(edges.push(edge).drop_last() =~= edges);
}

/// Resolving an import of a module follows the edge from that module's URL to the
/// module under the edge's URL, and leads nowhere where either is missing.
pub proof fn law_import_leads_to_registered_module<H>(
    g: Graph<H>,
    edge: EdgeView,
    unit: UnitView<H>,
)
    requires
        unit.url == edge.url,
    ensures
        ({
            let h = Graph { units: g.units.push(unit), edges: g.edges.push(edge) };
            resolved_unit(h, edge.referrer, edge.specifier) == Some(unit)
        }),
        edge_of(g.edges, edge.referrer, edge.specifier) is None ==> resolved_unit(
            g,
            edge.referrer,
            edge.specifier,
        ) is None,
        edge_of(g.edges, edge.referrer, edge.specifier) == Some(edge.url) && unit_of(
            g.units,
            edge.url,
        ) is None ==> resolved_unit(g, edge.referrer, edge.specifier) is None,
{
    assert(g.units.push(unit).drop_last() =~= g.units);
    assert(g.edges.push(edge).drop_last() =~= g.edges);
}

/// Exactly the modules with an identity hash are looked at for it, each once and
/// oldest first.
pub proof fn law_bucket_holds_its_hash<H>(units: Seq<UnitView<H>>, hash: i32, i: int)
    requires
        units.len() <= usize::MAX,
        0 <= i < units.len(),
    ensures
        units_with(units, hash).contains(i as usize) <==> units[i].hash == hash,
        forall|a: int, b: int|
            0 <= a < b < units_with(units, hash).len() ==> #[trigger] units_with(units, hash)[a]
                < #[trigger] units_with(units, hash)[b] < units.len(),
        forall|a: int|
            0 <= a < units_with(units, hash).len() ==> #[trigger] units_with(units, hash)[a]
                < units.len(),
    decreases units.len(),
{
    let rest = units.drop_last();
    let before = units_with(rest, hash);
    let all = units_with(units, hash);
    if rest.len() > 0 {
        let k: int = if i < rest.len() {
            i
        } else {
            0
        };
        law_bucket_holds_its_hash(rest, hash, k);
    } else {
        assert(before =~= Seq::<usize>::empty());
    }
    if i < rest.len() {
        assert(rest[i] == units[i]);
        if before.contains(i as usize) {
            let a = choose|a: int| 0 <= a < before.len() && before[a] == i as usize;
            assert(all[a] == i as usize);
        }
        if all.contains(i as usize) {
            let a = choose|a: int| 0 <= a < all.len() && all[a] == i as usize;
            if a < before.len() {
                assert(before[a] == i as usize);
            }
        }
    } else {
        if units[i].hash == hash {
            assert(all[all.len() - 1] == i as usize);
        } else if all.contains(i as usize) {
            let a = choose|a: int| 0 <= a < all.len() && all[a] == i as usize;
            assert(before[a] < rest.len());
        }
    }
}

} // verus!
