//! A sparse undirected route graph over fixed-point geographic points.
//!
//! The graph stores the two endpoints of every inserted polyline as
//! vertices, a bidirectional adjacency relation between them, and the full
//! polyline under both ordered endpoint keys (the reverse direction holds
//! the exactly reversed point sequence).  Interior points of a polyline are
//! not vertices; they live only inside the stored path payload.
//!
//! Lookup tables are association lists where a later entry shadows an
//! earlier one with the same key, which matches the overwrite semantics of
//! map insertion; the spec functions `spec_adj` and `spec_path` read them
//! back to front.

use vstd::prelude::*;
use crate::geometry::{dist_m_spec, Point};
pub use crate::geometry::Path;

verus! {

/// Why a shape lookup between two coordinates produced no path.
#[derive(Clone, Copy, Debug, PartialEq, Eq, Structural)]
pub enum ShapeError {
    /// One of the query coordinates is more than the snapping tolerance
    /// away from every vertex of the graph.
    NoNearbyVertex,
    /// Both coordinates snapped to vertices, but no walk connects them.
    NotFound,
}

/// A query coordinate must snap to a vertex within this many metres.
pub const SNAP_TOLERANCE_M: u64 = 2000;

/// Maintains a sparse routing graph.
pub struct RouteGraph {
    vertices: Vec<Point>,
    edges: Vec<(Point, Vec<Point>)>,
    paths: Vec<(Point, Point, Path)>,
}

/// Association-list lookup for adjacency entries; the last entry with the
/// key wins.
spec fn adj_lookup(es: Seq<(Point, Vec<Point>)>, v: Point) -> Option<Seq<Point>>
    decreases es.len(),
{
    if es.len() == 0 {
        None
    } else if es.last().0 == v {
        Some(es.last().1@)
    } else {
        adj_lookup(es.drop_last(), v)
    }
}

/// Association-list lookup for stored paths; the last entry with the key
/// pair wins.
spec fn path_lookup(ps: Seq<(Point, Point, Path)>, a: Point, b: Point) -> Option<Seq<Point>>
    decreases ps.len(),
{
    if ps.len() == 0 {
        None
    } else if ps.last().0 == a && ps.last().1 == b {
        Some(ps.last().2@)
    } else {
        path_lookup(ps.drop_last(), a, b)
    }
}

/// Appending an adjacency entry shadows exactly its own key.
proof fn lemma_adj_push(es: Seq<(Point, Vec<Point>)>, e: (Point, Vec<Point>), v: Point)
    ensures
        adj_lookup(es.push(e), v) == if v == e.0 {
            Some(e.1@)
        } else {
            adj_lookup(es, v)
        },
{
    assert(es.push(e).drop_last() =~= es);
    assert(es.push(e).last() == e);
}

/// Appending a path entry shadows exactly its own key pair.
proof fn lemma_path_push(ps: Seq<(Point, Point, Path)>, e: (Point, Point, Path), a: Point, b: Point)
    ensures
        path_lookup(ps.push(e), a, b) == if a == e.0 && b == e.1 {
            Some(e.2@)
        } else {
            path_lookup(ps, a, b)
        },
{
    assert(ps.push(e).drop_last() =~= ps);
    assert(ps.push(e).last() == e);
}

/// The set of endpoints of a batch of polylines.
pub open spec fn endpoints_set(ps: Seq<Path>) -> Set<Point>
    decreases ps.len(),
{
    if ps.len() == 0 {
        Set::empty()
    } else {
        endpoints_set(ps.drop_last()).insert(ps.last()@[0]).insert(ps.last()@.last())
    }
}

/// Whether inserting `q` after `p` would overwrite one of `p`'s two stored
/// directions (their ordered endpoint keys collide).
pub open spec fn keys_overlap(p: Path, q: Path) -> bool {
    ||| (q@[0] == p@[0] && q@.last() == p@.last())
    ||| (q@[0] == p@.last() && q@.last() == p@[0])
}

/// No polyline after index `i` (up to `k`) collides with polyline `i`.
pub open spec fn key_clear_between(ps: Seq<Path>, i: int, k: int) -> bool {
    forall|j: int| i < j < k ==> !keys_overlap(ps[i], #[trigger] ps[j])
}

/// The full observable state of a route graph: the vertices in insertion
/// order, the adjacency map, and the stored-path map.
pub struct GraphModel {
    pub vs: Seq<Point>,
    pub adj: Map<Point, Seq<Point>>,
    pub paths: Map<(Point, Point), Seq<Point>>,
}

/// The state of the empty graph.
pub open spec fn empty_model() -> GraphModel {
    GraphModel { vs: Seq::empty(), adj: Map::empty(), paths: Map::empty() }
}

/// The state after inserting one polyline `p`: both endpoints become
/// vertices (appended in order if absent), each endpoint's adjacency list
/// gains the other, and `p` is stored forward under (first, last) and
/// reversed under (last, first).
pub open spec fn add_path_model(m: GraphModel, p: Seq<Point>) -> GraphModel
    recommends
        p.len() > 0,
{
    let f = p[0];
    let l = p.last();
    let vs1 = if m.vs.contains(f) {
        m.vs
    } else {
        m.vs.push(f)
    };
    let vs2 = if vs1.contains(l) {
        vs1
    } else {
        vs1.push(l)
    };
    let af = if m.adj.contains_key(f) {
        m.adj[f]
    } else {
        Seq::empty()
    };
    let adj1 = m.adj.insert(f, af.push(l));
    let al = if adj1.contains_key(l) {
        adj1[l]
    } else {
        Seq::empty()
    };
    let adj2 = adj1.insert(l, al.push(f));
    let paths2 = m.paths.insert((f, l), p).insert((l, f), p.reverse());
    GraphModel { vs: vs2, adj: adj2, paths: paths2 }
}

/// The state after inserting the polylines of `ps` from index `i`, in
/// order — the fold of `add_path_model` over the batch.
pub open spec fn add_paths_model(m: GraphModel, ps: Seq<Seq<Point>>, i: int) -> GraphModel
    decreases ps.len() - i,
{
    if i < 0 || i >= ps.len() {
        m
    } else {
        add_paths_model(add_path_model(m, ps[i]), ps, i + 1)
    }
}

impl RouteGraph {
    /// The vertices, in insertion order and without duplicates.
    pub closed spec fn vertex_seq(self) -> Seq<Point> {
        self.vertices@
    }

    /// The set of vertices.
    pub open spec fn vertex_set(self) -> Set<Point> {
        self.vertex_seq().to_set()
    }

    /// The adjacency list of `v`, if `v` has one.
    pub closed spec fn spec_adj(self, v: Point) -> Option<Seq<Point>> {
        adj_lookup(self.edges@, v)
    }

    /// The stored polyline from `a` to `b`, if one was inserted.
    pub closed spec fn spec_path(self, a: Point, b: Point) -> Option<Seq<Point>> {
        path_lookup(self.paths@, a, b)
    }

    /// The graph's observable state.
    pub open spec fn model(self) -> GraphModel {
        GraphModel {
            vs: self.vertex_seq(),
            adj: Map::new(
                |v: Point| self.spec_adj(v) is Some,
                |v: Point| self.spec_adj(v)->Some_0,
            ),
            paths: Map::new(
                |k: (Point, Point)| self.spec_path(k.0, k.1) is Some,
                |k: (Point, Point)| self.spec_path(k.0, k.1)->Some_0,
            ),
        }
    }

    /// The adjacency list of `v`, or empty if `v` has none.
    pub open spec fn adj_or_empty(self, v: Point) -> Seq<Point> {
        match self.spec_adj(v) {
            Some(ns) => ns,
            None => Seq::empty(),
        }
    }

    /// Whether `b` is directly reachable from `a`.
    pub open spec fn has_edge(self, a: Point, b: Point) -> bool {
        self.adj_or_empty(a).contains(b)
    }

    /// Every adjacency target of `v` in `ns` is a vertex and has a stored
    /// path from `v`.
    pub open spec fn adj_targets_ok(self, v: Point, ns: Seq<Point>) -> bool {
        forall|j: int|
            0 <= j < ns.len() ==> self.vertex_set().contains(#[trigger] ns[j]) && self.spec_path(
                v,
                ns[j],
            ) is Some
    }

    /// Structural invariant: vertices are unique; every adjacency key and
    /// target is a vertex; every adjacency pair has a stored path; every
    /// stored path is non-empty and runs from its first key to its second.
    pub open spec fn wf(self) -> bool {
        &&& self.vertex_seq().no_duplicates()
        &&& forall|v: Point|
            (#[trigger] self.spec_adj(v)) matches Some(ns) ==> self.vertex_set().contains(v)
                && self.adj_targets_ok(v, ns)
        &&& forall|a: Point, b: Point|
            (#[trigger] self.spec_path(a, b)) matches Some(s) ==> s.len() > 0 && s[0] == a
                && s.last() == b
    }

    /// A new, empty route graph.
    pub fn new() -> (g: RouteGraph)
        ensures
            g.wf(),
            g.vertex_seq() == Seq::<Point>::empty(),
            forall|v: Point| #[trigger] g.spec_adj(v) is None,
            forall|a: Point, b: Point| #[trigger] g.spec_path(a, b) is None,
    {
        RouteGraph { vertices: Vec::new(), edges: Vec::new(), paths: Vec::new() }
    }

    /// The number of vertices.
    pub fn vertex_count(&self) -> (n: usize)
        ensures
            n == self.vertex_seq().len(),
    {
        self.vertices.len()
    }

    /// In a well-formed graph the vertex list has exactly one entry per
    /// distinct vertex.
    pub proof fn lemma_vertex_count(self)
        requires
            self.wf(),
        ensures
            self.vertex_seq().len() == self.vertex_set().len(),
    {
        self.vertex_seq().unique_seq_to_set();
    }

    /// Adds `p` as a vertex if it is not one already.
    fn insert_vertex(&mut self, p: Point)
        requires
            old(self).vertex_seq().no_duplicates(),
        ensures
            final(self).vertex_seq() == if old(self).vertex_seq().contains(p) {
                old(self).vertex_seq()
            } else {
                old(self).vertex_seq().push(p)
            },
            final(self).vertex_seq().no_duplicates(),
            final(self).vertex_set() == old(self).vertex_set().insert(p),
            final(self).vertex_set().contains(p),
            old(self).vertex_set() <= final(self).vertex_set(),
            final(self).edges == old(self).edges,
            final(self).paths == old(self).paths,
    {
        if !contains_point(&self.vertices, p) {
            let ghost vs0 = self.vertices@;
            self.vertices.push(p);
            proof {
                vs0.lemma_push_to_set_commute(p);
            }
        } else {
            proof {
                assert(self.vertex_set() =~= self.vertex_set().insert(p));
            }
        }
    }

    /// Adds a single polyline to the graph: both endpoints become
    /// vertices, a bidirectional edge is recorded between them, and the
    /// polyline is stored forward under (first, last) and reversed under
    /// (last, first).  Interior points are not added as vertices.
    pub fn add_path(&mut self, path: &Path)
        requires
            old(self).wf(),
            path@.len() > 0,
        ensures
            final(self).wf(),
            final(self).vertex_set() == old(self).vertex_set().insert(path@[0]).insert(path@.last()),
            path@[0] != path@.last() ==> final(self).spec_path(path@[0], path@.last()) == Some(path@)
                && final(self).spec_path(path@.last(), path@[0]) == Some(path@.reverse()),
            path@[0] == path@.last() ==> final(self).spec_path(path@[0], path@.last()) == Some(
                path@.reverse(),
            ),
            forall|a: Point, b: Point|
                !(a == path@[0] && b == path@.last()) && !(a == path@.last() && b == path@[0])
                    ==> #[trigger] final(self).spec_path(a, b) == old(self).spec_path(a, b),
            path@[0] != path@.last() ==> final(self).spec_adj(path@[0]) == Some(
                old(self).adj_or_empty(path@[0]).push(path@.last()),
            ) && final(self).spec_adj(path@.last()) == Some(
                old(self).adj_or_empty(path@.last()).push(path@[0]),
            ),
            path@[0] == path@.last() ==> final(self).spec_adj(path@[0]) == Some(
                old(self).adj_or_empty(path@[0]).push(path@.last()).push(path@[0]),
            ),
            forall|v: Point|
                v != path@[0] && v != path@.last() ==> #[trigger] final(self).spec_adj(v) == old(
                    self,
                ).spec_adj(v),
            final(self).model() == add_path_model(old(self).model(), path@),
    {
        let ghost g0 = *self;
        let f = path[0];
        let l = path[path.len() - 1];
        self.insert_vertex(f);
        self.insert_vertex(l);

        // store the polyline in both directions
        let fwd = copy_points(path);
        let rev = reverse_points(path);
        self.paths.push((f, l, fwd));
        let ghost ps1 = self.paths@;
        self.paths.push((l, f, rev));
        let ghost ps2 = self.paths@;
        proof {
            assert forall|a: Point, b: Point| true implies #[trigger] path_lookup(ps2, a, b) == (
            if a == l && b == f {
                Some(path@.reverse())
            } else if a == f && b == l {
                Some(path@)
            } else {
                path_lookup(g0.paths@, a, b)
            }) by {
                lemma_path_push(ps1, ps2.last(), a, b);
                assert(ps1.push(ps2.last()) =~= ps2);
                lemma_path_push(g0.paths@, ps1.last(), a, b);
                assert(g0.paths@.push(ps1.last()) =~= ps1);
            }
        }

        // record the bidirectional edge
        let ghost es0 = self.edges@;
        let mut cur_f: Vec<Point> = match self.adj_get(f) {
            Some(ns) => copy_points(ns),
            None => Vec::new(),
        };
        cur_f.push(l);
        proof {
            assert(es0 == g0.edges@);
            assert(cur_f@ == g0.adj_or_empty(f).push(l));
        }
        self.edges.push((f, cur_f));
        let ghost es1 = self.edges@;
        let mut cur_l: Vec<Point> = match self.adj_get(l) {
            Some(ns) => copy_points(ns),
            None => Vec::new(),
        };
        cur_l.push(f);
        proof {
            lemma_adj_push(es0, es1.last(), l);
            assert(es0.push(es1.last()) =~= es1);
            if l == f {
                assert(cur_l@ == g0.adj_or_empty(f).push(l).push(f));
            } else {
                assert(cur_l@ == g0.adj_or_empty(l).push(f));
            }
        }
        self.edges.push((l, cur_l));
        let ghost es2 = self.edges@;
        proof {
            assert forall|v: Point| true implies #[trigger] adj_lookup(es2, v) == (if v == l {
                if l == f {
                    Some(g0.adj_or_empty(f).push(l).push(f))
                } else {
                    Some(g0.adj_or_empty(l).push(f))
                }
            } else if v == f {
                Some(g0.adj_or_empty(f).push(l))
            } else {
                adj_lookup(g0.edges@, v)
            }) by {
                lemma_adj_push(es1, es2.last(), v);
                assert(es1.push(es2.last()) =~= es2);
                lemma_adj_push(es0, es1.last(), v);
                assert(es0.push(es1.last()) =~= es1);
            }
            assert(path@.reverse().len() == path@.len());
            assert(path@.reverse()[0] == path@.last());
            assert(path@.reverse().last() == path@[0]);
            assert(self.vertex_set() =~= g0.vertex_set().insert(path@[0]).insert(path@.last()));
            lemma_add_path_wf(g0, *self, path@);
            let mm = add_path_model(g0.model(), path@);
            assert(self.model().vs =~= mm.vs);
            assert forall|v: Point|
                self.model().adj.contains_key(v) == mm.adj.contains_key(v) && (
                mm.adj.contains_key(v) ==> #[trigger] self.model().adj[v] == mm.adj[v]) by {
                assert(self.spec_adj(v) == adj_lookup(es2, v));
            }
            assert(self.model().adj =~= mm.adj);
            assert forall|kk: (Point, Point)|
                self.model().paths.contains_key(kk) == mm.paths.contains_key(kk) && (
                mm.paths.contains_key(kk) ==> #[trigger] self.model().paths[kk]
                    == mm.paths[kk]) by {
                assert(self.spec_path(kk.0, kk.1) == path_lookup(ps2, kk.0, kk.1));
            }
            assert(self.model().paths =~= mm.paths);
            assert(self.model() == mm);
        }
    }

    /// Adds every polyline in `paths` to the graph, each exactly once and
    /// in order: the result is exactly the fold of single insertions over
    /// the batch.
    pub fn add_paths(&mut self, paths: &Vec<Path>)
        requires
            old(self).wf(),
            forall|i: int| 0 <= i < paths@.len() ==> (#[trigger] paths@[i])@.len() > 0,
        ensures
            final(self).model() == add_paths_model(
                old(self).model(),
                paths@.map_values(|p: Path| p@),
                0,
            ),
            final(self).wf(),
            final(self).vertex_set() == old(self).vertex_set().union(endpoints_set(paths@)),
            forall|i: int|
                0 <= i < paths@.len() && key_clear_between(paths@, i, paths@.len() as int) && (
                #[trigger] paths@[i])@[0] != paths@[i]@.last() ==> final(self).spec_path(
                    paths@[i]@[0],
                    paths@[i]@.last(),
                ) == Some(paths@[i]@) && final(self).spec_path(paths@[i]@.last(), paths@[i]@[0]) == Some(
                    paths@[i]@.reverse(),
                ),
    {
        let ghost g0 = *self;
        let ghost pviews = paths@.map_values(|p: Path| p@);
        let mut k: usize = 0;
        proof {
            assert(endpoints_set(paths@.take(0)) =~= Set::<Point>::empty());
            assert(self.vertex_set() =~= g0.vertex_set().union(endpoints_set(paths@.take(0))));
        }
        while k < paths.len()
            invariant
                old(self).wf(),
                self.wf(),
                k <= paths@.len(),
                pviews == paths@.map_values(|p: Path| p@),
                add_paths_model(self.model(), pviews, k as int) == add_paths_model(
                    g0.model(),
                    pviews,
                    0,
                ),
                forall|i: int| 0 <= i < paths@.len() ==> (#[trigger] paths@[i])@.len() > 0,
                self.vertex_set() == g0.vertex_set().union(endpoints_set(paths@.take(k as int))),
                forall|i: int|
                    0 <= i < k && key_clear_between(paths@, i, k as int) && (#[trigger] paths@[i])@[0]
                        != paths@[i]@.last() ==> self.spec_path(paths@[i]@[0], paths@[i]@.last())
                        == Some(paths@[i]@) && self.spec_path(paths@[i]@.last(), paths@[i]@[0])
                        == Some(paths@[i]@.reverse()),
            decreases paths@.len() - k,
        {
            let ghost gk = *self;
            self.add_path(&paths[k]);
            proof {
                let pk = paths@[k as int]@;
                assert(pviews[k as int] == pk);
                assert(self.model() == add_path_model(gk.model(), pk));
                assert(paths@.take(k as int + 1).drop_last() =~= paths@.take(k as int));
                assert(paths@.take(k as int + 1).last() == paths@[k as int]);
                assert(endpoints_set(paths@.take(k as int + 1)) =~= endpoints_set(
                    paths@.take(k as int),
                ).insert(pk[0]).insert(pk.last()));
                assert(self.vertex_set() =~= g0.vertex_set().union(
                    endpoints_set(paths@.take(k as int + 1)),
                ));
                assert forall|i: int|
                    0 <= i < k + 1 && key_clear_between(paths@, i, k as int + 1) && (
                    #[trigger] paths@[i])@[0] != paths@[i]@.last() implies self.spec_path(
                    paths@[i]@[0],
                    paths@[i]@.last(),
                ) == Some(paths@[i]@) && self.spec_path(paths@[i]@.last(), paths@[i]@[0]) == Some(
                    paths@[i]@.reverse(),
                ) by {
                    if i < k {
                        assert(key_clear_between(paths@, i, k as int));
                        assert(!keys_overlap(paths@[i], paths@[k as int]));
                    }
                }
            }
            k = k + 1;
        }
        proof {
            assert(paths@.take(paths@.len() as int) =~= paths@);
        }
    }
}

/// Re-establishes the structural invariant after one polyline insertion.
proof fn lemma_add_path_wf(g0: RouteGraph, g: RouteGraph, p: Seq<Point>)
    requires
        g0.wf(),
        p.len() > 0,
        g.vertex_seq().no_duplicates(),
        g.vertex_set() == g0.vertex_set().insert(p[0]).insert(p.last()),
        g.spec_path(p[0], p.last()) == if p[0] == p.last() {
            Some(p.reverse())
        } else {
            Some(p)
        },
        p[0] != p.last() ==> g.spec_path(p.last(), p[0]) == Some(p.reverse()),
        forall|a: Point, b: Point|
            !(a == p[0] && b == p.last()) && !(a == p.last() && b == p[0])
                ==> #[trigger] g.spec_path(a, b) == g0.spec_path(a, b),
        p[0] != p.last() ==> g.spec_adj(p[0]) == Some(g0.adj_or_empty(p[0]).push(p.last()))
            && g.spec_adj(p.last()) == Some(g0.adj_or_empty(p.last()).push(p[0])),
        p[0] == p.last() ==> g.spec_adj(p[0]) == Some(
            g0.adj_or_empty(p[0]).push(p.last()).push(p[0]),
        ),
        forall|v: Point|
            v != p[0] && v != p.last() ==> #[trigger] g.spec_adj(v) == g0.spec_adj(v),
    ensures
        g.wf(),
{
    let f = p[0];
    let l = p.last();
    assert(p.reverse().len() == p.len());
    assert(p.reverse()[0] == l);
    assert(p.reverse().last() == f);
    assert forall|v: Point| (#[trigger] g.spec_adj(v)) is Some implies g.vertex_set().contains(v)
        && g.adj_targets_ok(v, g.spec_adj(v)->Some_0) by {
        let ns = g.spec_adj(v)->Some_0;
        if v == f || v == l {
            assert(g.vertex_set().contains(v));
            assert forall|j: int| 0 <= j < ns.len() implies g.vertex_set().contains(
                #[trigger] ns[j],
            ) && g.spec_path(v, ns[j]) is Some by {
                let base = g0.adj_or_empty(v);
                if j < base.len() {
                    assert(g0.spec_adj(v) is Some);
                    assert(g0.adj_targets_ok(v, base));
                    assert(g0.vertex_set().contains(base[j]));
                    assert(g0.spec_path(v, ns[j]) is Some);
                    if !((v == f && ns[j] == l) || (v == l && ns[j] == f)) {
                        assert(g.spec_path(v, ns[j]) == g0.spec_path(v, ns[j]));
                    }
                } else {
                    assert(ns[j] == f || ns[j] == l);
                }
            }
        } else {
            assert(g.spec_adj(v) == g0.spec_adj(v));
            assert(g0.adj_targets_ok(v, ns));
            assert forall|j: int| 0 <= j < ns.len() implies g.vertex_set().contains(
                #[trigger] ns[j],
            ) && g.spec_path(v, ns[j]) is Some by {
                assert(g0.vertex_set().contains(ns[j]));
                assert(g0.spec_path(v, ns[j]) is Some);
                if !((v == f && ns[j] == l) || (v == l && ns[j] == f)) {
                    assert(g.spec_path(v, ns[j]) == g0.spec_path(v, ns[j]));
                }
            }
        }
    }
    assert forall|a: Point, b: Point| (#[trigger] g.spec_path(a, b)) is Some implies {
        let s = g.spec_path(a, b)->Some_0;
        s.len() > 0 && s[0] == a && s.last() == b
    } by {
        if !((a == f && b == l) || (a == l && b == f)) {
            assert(g.spec_path(a, b) == g0.spec_path(a, b));
        }
    }
}

/// Whether `p` occurs in `v`, by linear scan.
pub fn contains_point(v: &Vec<Point>, p: Point) -> (r: bool)
    ensures
        r == v@.contains(p),
{
    let mut i: usize = 0;
    while i < v.len()
        invariant
            i <= v@.len(),
            forall|k: int| 0 <= k < i ==> v@[k] != p,
        decreases v@.len() - i,
    {
        if v[i] == p {
            return true;
        }
        i = i + 1;
    }
    false
}

/// An element-wise copy of a point vector.
fn copy_points(v: &Vec<Point>) -> (r: Vec<Point>)
    ensures
        r@ == v@,
{
    let mut r: Vec<Point> = Vec::new();
    let mut i: usize = 0;
    while i < v.len()
        invariant
            i <= v@.len(),
            r@ == v@.take(i as int),
        decreases v@.len() - i,
    {
        r.push(v[i]);
        proof {
            assert(v@.take(i as int).push(v@[i as int]) =~= v@.take(i as int + 1));
        }
        i = i + 1;
    }
    proof {
        assert(v@.take(v@.len() as int) =~= v@);
    }
    r
}

/// The reverse of a point vector.
fn reverse_points(v: &Vec<Point>) -> (r: Vec<Point>)
    ensures
        r@ == v@.reverse(),
{
    let mut r: Vec<Point> = Vec::new();
    let mut i: usize = v.len();
    while i > 0
        invariant
            i <= v@.len(),
            r@.len() == v@.len() - i,
            forall|k: int| 0 <= k < r@.len() ==> r@[k] == v@[v@.len() - 1 - k],
        decreases i,
    {
        i = i - 1;
        r.push(v[i]);
    }
    proof {
        assert(r@ =~= v@.reverse());
    }
    r
}

impl RouteGraph {
    /// The adjacency list of `v`, if `v` has one.
    fn adj_get(&self, v: Point) -> (r: Option<&Vec<Point>>)
        ensures
            (r is Some) == (self.spec_adj(v) is Some),
            r matches Some(ns) ==> self.spec_adj(v) == Some(ns@),
    {
        let mut i: usize = self.edges.len();
        proof {
            assert(self.edges@.take(i as int) =~= self.edges@);
        }
        while i > 0
            invariant
                i <= self.edges@.len(),
                adj_lookup(self.edges@, v) == adj_lookup(self.edges@.take(i as int), v),
            decreases i,
        {
            i = i - 1;
            proof {
                assert(self.edges@.take(i as int + 1).drop_last() =~= self.edges@.take(i as int));
                assert(self.edges@.take(i as int + 1).last() == self.edges@[i as int]);
            }
            if point_eq(self.edges[i].0, v) {
                return Some(&self.edges[i].1);
            }
        }
        None
    }

    /// The stored polyline from `a` to `b`.
    fn path_get(&self, a: Point, b: Point) -> (r: &Path)
        requires
            self.spec_path(a, b) is Some,
        ensures
            Some(r@) == self.spec_path(a, b),
    {
        let mut i: usize = self.paths.len();
        proof {
            assert(self.paths@.take(i as int) =~= self.paths@);
        }
        while i > 0
            invariant
                i <= self.paths@.len(),
                path_lookup(self.paths@, a, b) == path_lookup(self.paths@.take(i as int), a, b),
                self.spec_path(a, b) is Some,
            decreases i,
        {
            i = i - 1;
            proof {
                assert(self.paths@.take(i as int + 1).drop_last() =~= self.paths@.take(i as int));
                assert(self.paths@.take(i as int + 1).last() == self.paths@[i as int]);
            }
            if point_eq(self.paths[i].0, a) && point_eq(self.paths[i].1, b) {
                return &self.paths[i].2;
            }
        }
        proof {
            assert(self.paths@.take(0) =~= Seq::<(Point, Point, Path)>::empty());
        }
        vstd::pervasive::unreached()
    }
}

/// Structural point equality.
fn point_eq(a: Point, b: Point) -> (r: bool)
    ensures
        r == (a == b),
{
    a == b
}

/// The running minimum of the distance to `p` over the candidates `vs`,
/// starting from `best` at distance `bestd`; an earlier candidate wins
/// ties.
pub open spec fn closest_from(vs: Seq<Point>, p: Point, best: Point, bestd: int) -> (Point, int)
    decreases vs.len(),
{
    if vs.len() == 0 {
        (best, bestd)
    } else if dist_m_spec(vs[0], p) < bestd {
        closest_from(vs.skip(1), p, vs[0], dist_m_spec(vs[0], p))
    } else {
        closest_from(vs.skip(1), p, best, bestd)
    }
}

/// The result of the running minimum is a candidate at its own distance,
/// no farther than any candidate.
proof fn lemma_closest_from_props(vs: Seq<Point>, p: Point, best: Point, bestd: int)
    requires
        bestd == dist_m_spec(best, p),
    ensures
        ({
            let (v, d) = closest_from(vs, p, best, bestd);
            &&& d == dist_m_spec(v, p)
            &&& d <= bestd
            &&& (v == best || vs.contains(v))
            &&& forall|j: int| 0 <= j < vs.len() ==> d <= dist_m_spec(#[trigger] vs[j], p)
        }),
    decreases vs.len(),
{
    if vs.len() == 0 {
    } else {
        let d0 = dist_m_spec(vs[0], p);
        if d0 < bestd {
            lemma_closest_from_props(vs.skip(1), p, vs[0], d0);
        } else {
            lemma_closest_from_props(vs.skip(1), p, best, bestd);
        }
        let (v, d) = closest_from(vs, p, best, bestd);
        if vs.skip(1).contains(v) {
            assert(vs.contains(v)) by {
                let j = choose|j: int| 0 <= j < vs.skip(1).len() && vs.skip(1)[j] == v;
                assert(vs[j + 1] == v);
            }
        }
        assert forall|j: int| 0 <= j < vs.len() implies d <= dist_m_spec(#[trigger] vs[j], p) by {
            if j > 0 {
                assert(vs.skip(1)[j - 1] == vs[j]);
            }
        }
    }
}

/// `vs` is a chain of directly connected vertices in `g`.
pub open spec fn is_walk(g: RouteGraph, vs: Seq<Point>) -> bool {
    &&& vs.len() >= 2
    &&& forall|i: int| 0 <= i < vs.len() - 1 ==> g.has_edge(#[trigger] vs[i], vs[i + 1])
}

/// The stored polylines along the walk `vs`, concatenated in order.
pub open spec fn concat_walk(g: RouteGraph, vs: Seq<Point>) -> Seq<Point>
    recommends
        vs.len() >= 2,
    decreases vs.len(),
{
    let seg = match g.spec_path(vs[0], vs[1]) {
        Some(s) => s,
        None => Seq::empty(),
    };
    if vs.len() <= 2 {
        seg
    } else {
        seg + concat_walk(g, vs.skip(1))
    }
}

/// `vs` witnesses that `s` is a shape from `a` to `b` in `g`.
pub open spec fn shape_witness(
    g: RouteGraph,
    a: Point,
    b: Point,
    s: Seq<Point>,
    vs: Seq<Point>,
) -> bool {
    &&& is_walk(g, vs)
    &&& vs[0] == a
    &&& vs.last() == b
    &&& s == concat_walk(g, vs)
}

/// `s` is the concatenation of stored polylines along some walk from `a`
/// to `b` in `g`.
pub open spec fn is_shape_between(g: RouteGraph, a: Point, b: Point, s: Seq<Point>) -> bool {
    exists|vs: Seq<Point>| shape_witness(g, a, b, s, vs)
}

/// The walk's vertices before the last are pairwise distinct.
pub open spec fn distinct_non_last(vs: Seq<Point>) -> bool {
    forall|i: int, j: int| 0 <= i < j < vs.len() - 1 ==> vs[i] != vs[j]
}

/// `vs` is a walk whose vertices before the last all lie outside `avoid`.
pub open spec fn clear_walk(g: RouteGraph, vs: Seq<Point>, avoid: Set<Point>) -> bool {
    &&& is_walk(g, vs)
    &&& forall|i: int| 0 <= i < vs.len() - 1 ==> !avoid.contains(#[trigger] vs[i])
}

/// `vs` is a clear walk from `a` to `b`.
pub open spec fn clear_walk_between(
    g: RouteGraph,
    a: Point,
    b: Point,
    vs: Seq<Point>,
    avoid: Set<Point>,
) -> bool {
    &&& clear_walk(g, vs, avoid)
    &&& vs[0] == a
    &&& vs.last() == b
}

/// Some walk connects `a` to `b` without touching `avoid` before its last
/// vertex.
pub open spec fn connected_avoiding(g: RouteGraph, a: Point, b: Point, avoid: Set<Point>) -> bool {
    exists|vs: Seq<Point>| clear_walk_between(g, a, b, vs, avoid)
}

/// `vs` witnesses `s` as a shape from `a` to `b` along a walk that avoids
/// `avoid` and repeats no vertex before its last.
pub open spec fn shape_witness_clear(
    g: RouteGraph,
    a: Point,
    b: Point,
    s: Seq<Point>,
    vs: Seq<Point>,
    avoid: Set<Point>,
) -> bool {
    &&& shape_witness(g, a, b, s, vs)
    &&& distinct_non_last(vs)
    &&& forall|i: int| 0 <= i < vs.len() - 1 ==> !avoid.contains(#[trigger] vs[i])
}

/// `s` is the concatenation of stored polylines along some walk from `a`
/// to `b` that avoids `avoid` and repeats no vertex before its last.
pub open spec fn is_shape_avoiding(
    g: RouteGraph,
    a: Point,
    b: Point,
    s: Seq<Point>,
    avoid: Set<Point>,
) -> bool {
    exists|vs: Seq<Point>| shape_witness_clear(g, a, b, s, vs, avoid)
}

/// Every clear walk shrinks, by splicing out repeats, to a clear walk with
/// the same endpoints whose vertices before the last are pairwise
/// distinct.
proof fn lemma_walk_simplify(g: RouteGraph, vs: Seq<Point>, avoid: Set<Point>) -> (ws: Seq<Point>)
    requires
        clear_walk(g, vs, avoid),
    ensures
        clear_walk_between(g, vs[0], vs.last(), ws, avoid),
        distinct_non_last(ws),
    decreases vs.len(),
{
    if distinct_non_last(vs) {
        vs
    } else {
        let (i, j) = choose|i: int, j: int| 0 <= i < j < vs.len() - 1 && vs[i] == vs[j];
        let spliced = vs.take(i + 1) + vs.skip(j + 1);
        assert(spliced.len() == vs.len() - (j - i));
        assert(spliced[0] == vs[0]);
        assert(spliced.last() == vs.last());
        assert forall|t: int| 0 <= t < spliced.len() - 1 implies g.has_edge(
            #[trigger] spliced[t],
            spliced[t + 1],
        ) by {
            if t < i {
                assert(spliced[t] == vs[t] && spliced[t + 1] == vs[t + 1]);
                assert(g.has_edge(vs[t], vs[t + 1]));
            } else if t == i {
                assert(spliced[t] == vs[i] && spliced[t + 1] == vs[j + 1]);
                assert(g.has_edge(vs[j], vs[j + 1]));
            } else {
                assert(spliced[t] == vs[t + (j - i)] && spliced[t + 1] == vs[t + (j - i) + 1]);
                assert(g.has_edge(vs[t + (j - i)], vs[t + (j - i) + 1]));
            }
        }
        assert forall|t: int| 0 <= t < spliced.len() - 1 implies !avoid.contains(
            #[trigger] spliced[t],
        ) by {
            if t <= i {
                assert(spliced[t] == vs[t]);
                assert(!avoid.contains(vs[t]));
            } else {
                assert(spliced[t] == vs[t + (j - i)]);
                assert(!avoid.contains(vs[t + (j - i)]));
            }
        }
        assert(clear_walk(g, spliced, avoid));
        let ws = lemma_walk_simplify(g, spliced, avoid);
        ws
    }
}

/// The concatenation of `a` and `b`.
fn concat_points(a: &Vec<Point>, b: &Vec<Point>) -> (r: Vec<Point>)
    ensures
        r@ == a@ + b@,
{
    let mut r = copy_points(a);
    let mut i: usize = 0;
    while i < b.len()
        invariant
            i <= b@.len(),
            r@ == a@ + b@.take(i as int),
        decreases b@.len() - i,
    {
        r.push(b[i]);
        proof {
            assert((a@ + b@.take(i as int)).push(b@[i as int]) =~= a@ + b@.take(i as int + 1));
        }
        i = i + 1;
    }
    proof {
        assert(a@ + b@.take(b@.len() as int) =~= a@ + b@);
    }
    r
}

impl RouteGraph {
    /// The nearest vertex to `p` and its distance in metres, by linear
    /// scan; the earliest-inserted vertex wins ties.
    pub open spec fn closest_spec(self, p: Point) -> (Point, int)
        recommends
            self.vertex_seq().len() > 0,
    {
        closest_from(
            self.vertex_seq().skip(1),
            p,
            self.vertex_seq()[0],
            dist_m_spec(self.vertex_seq()[0], p),
        )
    }

    /// The snapped vertex is a vertex, lies at the reported distance, and
    /// is at least as close to `p` as any vertex.
    pub proof fn lemma_closest_properties(self, p: Point)
        requires
            self.vertex_seq().len() > 0,
        ensures
            ({
                let (v, d) = self.closest_spec(p);
                &&& self.vertex_seq().contains(v)
                &&& d == dist_m_spec(v, p)
                &&& forall|j: int|
                    0 <= j < self.vertex_seq().len() ==> d <= dist_m_spec(
                        #[trigger] self.vertex_seq()[j],
                        p,
                    )
            }),
    {
        let vs = self.vertex_seq();
        lemma_closest_from_props(vs.skip(1), p, vs[0], dist_m_spec(vs[0], p));
        let (v, d) = self.closest_spec(p);
        if vs.skip(1).contains(v) {
            let j = choose|j: int| 0 <= j < vs.skip(1).len() && vs.skip(1)[j] == v;
            assert(vs[j + 1] == v);
        }
        assert forall|j: int| 0 <= j < vs.len() implies d <= dist_m_spec(
            #[trigger] vs[j],
            p,
        ) by {
            if j > 0 {
                assert(vs.skip(1)[j - 1] == vs[j]);
            }
        }
    }

    /// A query point that is itself a vertex snaps at distance zero.
    pub proof fn lemma_snap_member(self, p: Point)
        requires
            self.vertex_seq().contains(p),
        ensures
            self.closest_spec(p).1 == 0,
    {
        self.lemma_closest_properties(p);
        let (v, d) = self.closest_spec(p);
        crate::geometry::lemma_distance_self(p);
        crate::geometry::lemma_distance_nonneg(v, p);
        let j = choose|j: int| 0 <= j < self.vertex_seq().len() && self.vertex_seq()[j] == p;
        assert(d <= dist_m_spec(self.vertex_seq()[j], p));
    }

    /// Finds the closest vertex to `p` and the distance to it in metres.
    /// Returns nothing exactly when the graph has no vertices.
    pub fn nearest_vertex(&self, p: &Point) -> (r: Option<(Point, u64)>)
        ensures
            (r is Some) == (self.vertex_seq().len() > 0),
            r matches Some(pr) ==> self.closest_spec(*p) == (pr.0, pr.1 as int),
    {
        if self.vertices.len() == 0 {
            return None;
        }
        let mut best: Point = self.vertices[0];
        let mut bestd: u64 = best.geo_distance(p);
        let mut i: usize = 1;
        while i < self.vertices.len()
            invariant
                1 <= i <= self.vertex_seq().len(),
                bestd == dist_m_spec(best, *p),
                closest_from(self.vertex_seq().skip(i as int), *p, best, bestd as int)
                    == self.closest_spec(*p),
            decreases self.vertex_seq().len() - i,
        {
            let d = self.vertices[i].geo_distance(p);
            proof {
                assert(self.vertex_seq().skip(i as int)[0] == self.vertex_seq()[i as int]);
                assert(self.vertex_seq().skip(i as int).skip(1) =~= self.vertex_seq().skip(
                    i as int + 1,
                ));
            }
            if d < bestd {
                best = self.vertices[i];
                bestd = d;
            }
            i = i + 1;
        }
        proof {
            assert(self.vertex_seq().skip(self.vertex_seq().len() as int)
                =~= Seq::<Point>::empty());
        }
        Some((best, bestd))
    }

    /// Depth-first search from `p0` to `p1` over the adjacency relation,
    /// skipping `visited` vertices.  On success the result concatenates
    /// the stored polylines along the first walk found, a walk that
    /// avoids `visited` and repeats no vertex before its last; neighbours
    /// are tried in adjacency-list order, so if the first neighbour of
    /// `p0` is `p1` itself the stored polyline from `p0` to `p1` is
    /// returned unchanged.  The search fails exactly when no walk from
    /// `p0` to `p1` avoids `visited`.
    pub fn find_path(&self, p0: Point, p1: Point, visited: &Vec<Point>) -> (r: Option<Path>)
        requires
            self.wf(),
        ensures
            r matches Some(s) ==> s@.len() > 0 && is_shape_between(*self, p0, p1, s@)
                && is_shape_avoiding(*self, p0, p1, s@, visited@.to_set()),
            r is None ==> !connected_avoiding(*self, p0, p1, visited@.to_set()),
            visited@.contains(p0) ==> r is None,
            self.spec_adj(p0) is None ==> r is None,
            !visited@.contains(p0) && self.adj_or_empty(p0).len() > 0 && self.adj_or_empty(p0)[0]
                == p1 ==> (r matches Some(s) && Some(s@) == self.spec_path(p0, p1)),
        decreases self.vertex_set().difference(visited@.to_set()).len(),
    {
        let ghost avoid = visited@.to_set();
        let adj = match self.adj_get(p0) {
            None => {
                proof {
                    if connected_avoiding(*self, p0, p1, avoid) {
                        let vs = choose|vs: Seq<Point>|
                            clear_walk_between(*self, p0, p1, vs, avoid);
                        assert(vs[0] == p0);
                        assert(self.has_edge(vs[0], vs[1]));
                        assert(self.adj_or_empty(p0).contains(vs[1]));
                        assert(false);
                    }
                }
                return None;
            },
            Some(ns) => ns,
        };
        if contains_point(visited, p0) {
            proof {
                if connected_avoiding(*self, p0, p1, avoid) {
                    let vs = choose|vs: Seq<Point>|
                        clear_walk_between(*self, p0, p1, vs, avoid);
                    assert(vs[0] == p0);
                    assert(!avoid.contains(vs[0]));
                    assert(false);
                }
            }
            return None;
        }
        let mut visited2 = copy_points(visited);
        visited2.push(p0);
        proof {
            broadcast use vstd::seq_lib::seq_to_set_is_finite;

            visited@.lemma_push_to_set_commute(p0);
            assert(self.vertex_set().contains(p0));
            self.vertex_set().lemma_set_insert_diff_decreases(visited@.to_set(), p0);
        }
        let mut k: usize = 0;
        while k < adj.len()
            invariant
                self.wf(),
                self.spec_adj(p0) == Some(adj@),
                !visited@.contains(p0),
                avoid == visited@.to_set(),
                visited2@ == visited@.push(p0),
                visited2@.to_set() == avoid.insert(p0),
                k <= adj@.len(),
                k > 0 ==> adj@[0] != p1,
                forall|t: int|
                    0 <= t < k ==> #[trigger] adj@[t] != p1 && !connected_avoiding(
                        *self,
                        adj@[t],
                        p1,
                        avoid.insert(p0),
                    ),
                self.vertex_set().difference(visited2@.to_set()).len() < self.vertex_set(
                ).difference(visited@.to_set()).len(),
            decreases adj@.len() - k,
        {
            let next = adj[k];
            proof {
                assert(self.adj_targets_ok(p0, adj@));
                assert(self.spec_path(p0, next) is Some);
            }
            if point_eq(next, p1) {
                let seg = self.path_get(p0, next);
                let out = copy_points(seg);
                proof {
                    let vs = seq![p0, p1];
                    assert(self.adj_or_empty(p0)[k as int] == p1);
                    assert(self.adj_or_empty(p0).contains(p1));
                    assert(is_walk(*self, vs));
                    assert(vs.len() <= 2);
                    assert(concat_walk(*self, vs) == out@);
                    assert(shape_witness(*self, p0, p1, out@, vs));
                    assert(distinct_non_last(vs));
                    assert forall|i: int| 0 <= i < vs.len() - 1 implies !avoid.contains(
                        #[trigger] vs[i],
                    ) by {
                        assert(vs[i] == p0);
                    }
                    assert(shape_witness_clear(*self, p0, p1, out@, vs, avoid));
                }
                return Some(out);
            }
            match self.find_path(next, p1, &visited2) {
                Some(rest) => {
                    let seg = self.path_get(p0, next);
                    let out = concat_points(seg, &rest);
                    proof {
                        let w = choose|vs: Seq<Point>|
                            shape_witness_clear(*self, next, p1, rest@, vs, visited2@.to_set());
                        let vs2 = seq![p0] + w;
                        assert(vs2.len() == 1 + w.len());
                        assert(vs2[0] == p0);
                        assert forall|i: int| 0 <= i < vs2.len() - 1 implies self.has_edge(
                            #[trigger] vs2[i],
                            vs2[i + 1],
                        ) by {
                            if i == 0 {
                                assert(vs2[1] == w[0]);
                                assert(self.adj_or_empty(p0)[k as int] == next);
                                assert(self.adj_or_empty(p0).contains(next));
                            } else {
                                assert(vs2[i] == w[i - 1]);
                                assert(vs2[i + 1] == w[i]);
                                assert(self.has_edge(w[i - 1], w[i]));
                            }
                        }
                        assert(vs2.last() == w.last());
                        assert(vs2.skip(1) =~= w);
                        assert(vs2[1] == w[0]);
                        assert(concat_walk(*self, vs2) == out@);
                        assert(shape_witness(*self, p0, p1, out@, vs2));
                        assert forall|i: int| 0 <= i < vs2.len() - 1 implies !avoid.contains(
                            #[trigger] vs2[i],
                        ) by {
                            if i > 0 {
                                assert(vs2[i] == w[i - 1]);
                                assert(!avoid.insert(p0).contains(w[i - 1]));
                            }
                        }
                        assert forall|i: int, j: int|
                            0 <= i < j < vs2.len() - 1 implies vs2[i] != vs2[j] by {
                            assert(vs2[j] == w[j - 1]);
                            if i == 0 {
                                assert(!avoid.insert(p0).contains(w[j - 1]));
                            } else {
                                assert(vs2[i] == w[i - 1]);
                            }
                        }
                        assert(distinct_non_last(vs2));
                        assert(shape_witness_clear(*self, p0, p1, out@, vs2, avoid));
                    }
                    return Some(out);
                },
                None => {},
            }
            k = k + 1;
        }
        proof {
            if connected_avoiding(*self, p0, p1, avoid) {
                let vs0 = choose|vs: Seq<Point>| clear_walk_between(*self, p0, p1, vs, avoid);
                let ws = lemma_walk_simplify(*self, vs0, avoid);
                assert(ws[0] == p0 && ws.last() == p1);
                assert(self.has_edge(ws[0], ws[1]));
                assert(self.adj_or_empty(p0).contains(ws[1]));
                let t = choose|t: int| 0 <= t < adj@.len() && adj@[t] == ws[1];
                if ws.len() == 2 {
                    assert(ws[1] == ws.last());
                    assert(adj@[t] == p1);
                    assert(false);
                } else {
                    let tail = ws.skip(1);
                    assert(tail.len() == ws.len() - 1);
                    assert(tail[0] == ws[1]);
                    assert(tail.last() == ws.last());
                    assert forall|x: int| 0 <= x < tail.len() - 1 implies self.has_edge(
                        #[trigger] tail[x],
                        tail[x + 1],
                    ) by {
                        assert(tail[x] == ws[x + 1]);
                        assert(tail[x + 1] == ws[x + 2]);
                        assert(self.has_edge(ws[x + 1], ws[x + 2]));
                    }
                    assert forall|x: int| 0 <= x < tail.len() - 1 implies !avoid.insert(
                        p0,
                    ).contains(#[trigger] tail[x]) by {
                        assert(tail[x] == ws[x + 1]);
                        assert(!avoid.contains(ws[x + 1]));
                        assert(ws[0] != ws[x + 1]);
                    }
                    assert(clear_walk_between(*self, ws[1], p1, tail, avoid.insert(p0)));
                    assert(connected_avoiding(*self, ws[1], p1, avoid.insert(p0)));
                    assert(false);
                }
            }
        }
        None
    }
}

impl RouteGraph {
    /// Finds a shape between two query coordinates, if one exists.
    ///
    /// Each coordinate is snapped independently to its nearest vertex; if
    /// either snap distance exceeds the tolerance (or the graph is empty)
    /// the search fails with `NoNearbyVertex`.  Otherwise a depth-first
    /// search runs from the snapped start to the snapped end and the first
    /// walk found is returned as a concatenation of stored polylines; the
    /// search fails with `NotFound` exactly when no walk connects the two
    /// snapped vertices.  This is a reachability search, not a
    /// shortest-path search.
    pub fn path(&self, p0: Point, p1: Point) -> (r: Result<Path, ShapeError>)
        requires
            self.wf(),
        ensures
            self.vertex_seq().len() == 0 ==> r == Err::<Path, ShapeError>(
                ShapeError::NoNearbyVertex,
            ),
            self.vertex_seq().len() > 0 ==> ({
                let (v0, d0) = self.closest_spec(p0);
                let (v1, d1) = self.closest_spec(p1);
                &&& ((d0 > SNAP_TOLERANCE_M || d1 > SNAP_TOLERANCE_M) ==> r == Err::<
                    Path,
                    ShapeError,
                >(ShapeError::NoNearbyVertex))
                &&& ((d0 <= SNAP_TOLERANCE_M && d1 <= SNAP_TOLERANCE_M) ==> r != Err::<
                    Path,
                    ShapeError,
                >(ShapeError::NoNearbyVertex))
                &&& (r matches Ok(s) ==> d0 <= SNAP_TOLERANCE_M && d1 <= SNAP_TOLERANCE_M
                    && s@.len() > 0 && is_shape_between(*self, v0, v1, s@)
                    && is_shape_avoiding(*self, v0, v1, s@, Set::empty()))
                &&& (r == Err::<Path, ShapeError>(ShapeError::NotFound)
                    ==> !connected_avoiding(*self, v0, v1, Set::empty()))
                &&& ((d0 <= SNAP_TOLERANCE_M && d1 <= SNAP_TOLERANCE_M && !connected_avoiding(
                    *self,
                    v0,
                    v1,
                    Set::empty(),
                )) ==> r == Err::<Path, ShapeError>(ShapeError::NotFound))
                &&& (d0 <= SNAP_TOLERANCE_M && d1 <= SNAP_TOLERANCE_M && connected_avoiding(
                    *self,
                    v0,
                    v1,
                    Set::empty(),
                ) ==> r is Ok)
                &&& (d0 <= SNAP_TOLERANCE_M && d1 <= SNAP_TOLERANCE_M && self.adj_or_empty(
                    v0,
                ).len() > 0 && self.adj_or_empty(v0)[0] == v1 ==> (r matches Ok(s) && Some(s@)
                    == self.spec_path(v0, v1)))
            }),
    {
        let (start, start_dist) = match self.nearest_vertex(&p0) {
            None => {
                return Err(ShapeError::NoNearbyVertex);
            },
            Some(pr) => pr,
        };
        if start_dist > SNAP_TOLERANCE_M {
            return Err(ShapeError::NoNearbyVertex);
        }
        let (end, end_dist) = match self.nearest_vertex(&p1) {
            None => {
                return Err(ShapeError::NoNearbyVertex);
            },
            Some(pr) => pr,
        };
        if end_dist > SNAP_TOLERANCE_M {
            return Err(ShapeError::NoNearbyVertex);
        }
        let visited: Vec<Point> = Vec::new();
        proof {
            assert(!visited@.contains(start));
            assert(visited@.to_set() =~= Set::<Point>::empty());
        }
        match self.find_path(start, end, &visited) {
            Some(path) => {
                proof {
                    let vs = choose|vs: Seq<Point>|
                        shape_witness_clear(*self, start, end, path@, vs, visited@.to_set());
                    assert(clear_walk_between(*self, start, end, vs, Set::empty()));
                    assert(connected_avoiding(*self, start, end, Set::empty()));
                }
                Ok(path)
            },
            None => Err(ShapeError::NotFound),
        }
    }
}

/// Round trip: in a graph holding exactly one polyline `p` whose two
/// endpoints are distinct, both endpoints snap to themselves at distance
/// zero, the snapped start's first neighbour is the snapped end, and the
/// stored polyline between them is `p` itself — so by the contract of
/// `path`, a shape lookup between the endpoints of `p` returns `p`
/// unchanged.
pub proof fn lemma_fresh_path_round_trip(g: RouteGraph, p: Seq<Point>)
    requires
        g.wf(),
        p.len() > 0,
        p[0] != p.last(),
        dist_m_spec(p[0], p.last()) > 0,
        dist_m_spec(p.last(), p[0]) > 0,
        g.vertex_set() == Set::<Point>::empty().insert(p[0]).insert(p.last()),
        g.spec_adj(p[0]) == Some(Seq::<Point>::empty().push(p.last())),
        g.spec_path(p[0], p.last()) == Some(p),
    ensures
        g.closest_spec(p[0]) == (p[0], 0int),
        g.closest_spec(p.last()) == (p.last(), 0int),
        g.adj_or_empty(p[0]).len() > 0 && g.adj_or_empty(p[0])[0] == p.last(),
        is_shape_between(g, p[0], p.last(), p),
{
    let f = p[0];
    let l = p.last();
    assert(g.vertex_set().contains(f));
    assert(g.vertex_seq().contains(f));
    assert(g.vertex_set().contains(l));
    assert(g.vertex_seq().contains(l));
    g.lemma_snap_member(f);
    g.lemma_snap_member(l);
    g.lemma_closest_properties(f);
    g.lemma_closest_properties(l);
    let (vf, df) = g.closest_spec(f);
    assert(df == 0 && dist_m_spec(vf, f) == 0);
    assert(g.vertex_set().contains(vf));
    assert(vf == f || vf == l);
    assert(vf == f);
    let (vl, dl) = g.closest_spec(l);
    assert(dl == 0 && dist_m_spec(vl, l) == 0);
    assert(g.vertex_set().contains(vl));
    assert(vl == l);
    let vs = seq![f, l];
    assert(g.adj_or_empty(f)[0] == l);
    assert(g.adj_or_empty(f).contains(l));
    assert(is_walk(g, vs));
    assert(concat_walk(g, vs) == p);
    assert(shape_witness(g, f, l, p, vs));
}

/// The set of endpoints of a batch of polylines, over their point
/// sequences.
pub open spec fn endpoints_views(ps: Seq<Seq<Point>>) -> Set<Point>
    decreases ps.len(),
{
    if ps.len() == 0 {
        Set::empty()
    } else {
        endpoints_views(ps.drop_last()).insert(ps.last()[0]).insert(ps.last().last())
    }
}

/// Batch insertion into an empty graph populates the vertices with
/// exactly the endpoints of the inserted polylines: the vertex count
/// equals the number of distinct endpoints, however many polylines were
/// inserted.
pub proof fn lemma_batch_vertex_count(g: RouteGraph, ps: Seq<Path>)
    requires
        g.wf(),
        g.vertex_set() == Set::<Point>::empty().union(endpoints_set(ps)),
    ensures
        g.vertex_seq().len() == endpoints_set(ps).len(),
{
    g.lemma_vertex_count();
    assert(Set::<Point>::empty().union(endpoints_set(ps)) =~= endpoints_set(ps));
}

/// The two endpoint-set forms agree.
pub proof fn lemma_endpoints_views(ps: Seq<Path>)
    ensures
        endpoints_set(ps) == endpoints_views(ps.map_values(|p: Path| p@)),
    decreases ps.len(),
{
    if ps.len() > 0 {
        lemma_endpoints_views(ps.drop_last());
        assert(ps.map_values(|p: Path| p@).drop_last() =~= ps.drop_last().map_values(
            |p: Path| p@,
        ));
        assert(ps.map_values(|p: Path| p@).last() == ps.last()@);
    }
}

} // verus!
