use crate::octasphere::{
    base_triangles, canonical_edge, edge_scan, first_occurrences, indices_in_range,
    lemma_pow4_bound, midpoint_parents, midpoint_vertex, octasphere_topology, pow4,
    split_triangle, subdivided_triangles,
};
use vstd::prelude::*;

verus! {

broadcast use vstd::set::group_set_axioms;

/// Edge `which` of a triangle, directed along its winding.
pub open spec fn directed_edge(triangle: (u32, u32, u32), which: int) -> (u32, u32) {
    if which == 0 {
        (triangle.0, triangle.1)
    } else if which == 1 {
        (triangle.1, triangle.2)
    } else {
        (triangle.2, triangle.0)
    }
}

/// The directed edges of all triangles, three per triangle.
pub open spec fn directed_scan(triangles: Seq<(u32, u32, u32)>) -> Seq<(u32, u32)> {
    Seq::new(3 * triangles.len(), |n: int| directed_edge(triangles[n / 3], n % 3))
}

/// The edge as an unordered pair, smaller vertex first.
pub open spec fn undirected(edge: (u32, u32)) -> (u32, u32) {
    canonical_edge(edge.0, edge.1)
}

/// The same edge traversed the other way.
pub open spec fn reversed(edge: (u32, u32)) -> (u32, u32) {
    (edge.1, edge.0)
}

proof fn lemma_pairs_halve(edges: Set<(u32, u32)>)
    requires
        edges.finite(),
        forall|edge: (u32, u32)|
            #[trigger] edges.contains(edge) ==> edge.0 != edge.1 && edges.contains(reversed(edge)),
    ensures
        edges.map(|edge: (u32, u32)| undirected(edge)).finite(),
        edges.map(|edge: (u32, u32)| undirected(edge)).len() * 2 == edges.len(),
    decreases edges.len(),
{
    let f = |edge: (u32, u32)| undirected(edge);
    edges.lemma_map_finite(f);
    if edges.len() == 0 {
        assert(edges =~= Set::empty());
        assert(edges.map(f) =~= Set::empty());
    } else {
        let edge = edges.choose();
        let back = reversed(edge);
        let rest = edges.remove(edge).remove(back);
        assert(edges.contains(back));
        assert forall|other: (u32, u32)| #[trigger] rest.contains(other) implies other.0 != other.1
            && rest.contains(reversed(other)) by {
            assert(edges.contains(reversed(other)));
        }
        lemma_pairs_halve(rest);
        assert(edges.map(f) =~= rest.map(f).insert(f(edge))) by {
            assert forall|u: (u32, u32)| edges.map(f).contains(u) implies rest.map(f).insert(
                f(edge),
            ).contains(u) by {
                let x = choose|x: (u32, u32)| edges.contains(x) && u == f(x);
                if x != edge && x != back {
                    assert(rest.contains(x));
                }
            }
            assert forall|u: (u32, u32)| rest.map(f).insert(f(edge)).contains(u) implies edges.map(
                f,
            ).contains(u) by {
                if u != f(edge) {
                    let x = choose|x: (u32, u32)| rest.contains(x) && u == f(x);
                    assert(edges.contains(x));
                } else {
                    assert(edges.contains(edge));
                }
            }
        }
        assert(!rest.map(f).contains(f(edge))) by {
            if rest.map(f).contains(f(edge)) {
                let x = choose|x: (u32, u32)| rest.contains(x) && f(edge) == f(x);
                assert(x == edge || x == back);
            }
        }
    }
}

/// The surface conditions under which every undirected edge borders exactly two triangles:
/// no triangle repeats a vertex, no directed edge occurs twice, and every directed edge
/// also occurs reversed.
pub open spec fn closed_surface(triangles: Seq<(u32, u32, u32)>) -> bool {
    let scan = directed_scan(triangles);
    &&& forall|i: int|
        0 <= i < triangles.len() ==> #[trigger] triangles[i].0 != triangles[i].1
            && triangles[i].1 != triangles[i].2 && triangles[i].2 != triangles[i].0
    &&& scan.no_duplicates()
    &&& forall|n: int| 0 <= n < scan.len() ==> scan.contains(reversed(#[trigger] scan[n]))
}

proof fn lemma_first_occurrences_contents(items: Seq<(u32, u32)>)
    ensures
        first_occurrences(items).no_duplicates(),
        forall|x: (u32, u32)| first_occurrences(items).contains(x) <==> items.contains(x),
    decreases items.len(),
{
    if items.len() > 0 {
        let earlier = items.drop_last();
        lemma_first_occurrences_contents(earlier);
        assert forall|x: (u32, u32)| items.contains(x) <==> earlier.contains(x) || x == items.last() by {
            if items.contains(x) && x != items.last() {
                let k = choose|k: int| 0 <= k < items.len() && items[k] == x;
                assert(earlier[k] == x);
            }
            if earlier.contains(x) {
                let k = choose|k: int| 0 <= k < earlier.len() && earlier[k] == x;
                assert(items[k] == x);
            }
            if x == items.last() {
                assert(items[items.len() - 1] == x);
            }
        }
        let previous = first_occurrences(earlier);
        if !previous.contains(items.last()) {
            let current = previous.push(items.last());
            assert forall|x: (u32, u32)| current.contains(x) <==> previous.contains(x) || x
                == items.last() by {
                if current.contains(x) && x != items.last() {
                    let k = choose|k: int| 0 <= k < current.len() && current[k] == x;
                    assert(previous[k] == x);
                }
                if previous.contains(x) {
                    let k = choose|k: int| 0 <= k < previous.len() && previous[k] == x;
                    assert(current[k] == x);
                }
                if x == items.last() {
                    assert(current[current.len() - 1] == x);
                }
            }
        }
    }
}

/// On a closed surface, each edge that subdivision splits borders two triangles, so there
/// are half as many split edges as triangle sides.
pub proof fn lemma_closed_surface_edge_count(triangles: Seq<(u32, u32, u32)>)
    requires
        closed_surface(triangles),
    ensures
        midpoint_parents(triangles).len() * 2 == 3 * triangles.len(),
{
    let scan = directed_scan(triangles);
    let edges = edge_scan(triangles);
    let parents = midpoint_parents(triangles);
    let f = |edge: (u32, u32)| undirected(edge);
    vstd::seq_lib::seq_to_set_is_finite(scan);
    assert forall|edge: (u32, u32)| #[trigger] scan.to_set().contains(edge) implies edge.0
        != edge.1 && scan.to_set().contains(reversed(edge)) by {
        let n = choose|n: int| 0 <= n < scan.len() && scan[n] == edge;
        assert(triangles[n / 3].0 != triangles[n / 3].1);
    }
    lemma_pairs_halve(scan.to_set());
    scan.unique_seq_to_set();
    lemma_first_occurrences_contents(edges);
    parents.unique_seq_to_set();
    assert(parents.to_set() =~= scan.to_set().map(f)) by {
        assert forall|u: (u32, u32)| parents.to_set().contains(u) implies scan.to_set().map(
            f,
        ).contains(u) by {
            assert(edges.contains(u));
            let n = choose|n: int| 0 <= n < edges.len() && edges[n] == u;
            assert(scan.to_set().contains(scan[n]));
            assert(f(scan[n]) == u);
        }
        assert forall|u: (u32, u32)| scan.to_set().map(f).contains(u) implies parents.to_set(
        ).contains(u) by {
            let x = choose|x: (u32, u32)| scan.to_set().contains(x) && u == f(x);
            let n = choose|n: int| 0 <= n < scan.len() && scan[n] == x;
            assert(edges[n] == u);
            assert(edges.contains(u));
        }
    }
}

/// Whether `vertex` is a corner of `triangle`.
pub open spec fn has_corner(triangle: (u32, u32, u32), vertex: u32) -> bool {
    triangle.0 == vertex || triangle.1 == vertex || triangle.2 == vertex
}

/// Whether two triangles have the same corners, in any order.
pub open spec fn same_corners(first: (u32, u32, u32), second: (u32, u32, u32)) -> bool {
    &&& has_corner(second, first.0)
    &&& has_corner(second, first.1)
    &&& has_corner(second, first.2)
    &&& has_corner(first, second.0)
    &&& has_corner(first, second.1)
    &&& has_corner(first, second.2)
}

/// A closed surface in which no two triangles share all three corners.
pub open spec fn simple_closed_surface(triangles: Seq<(u32, u32, u32)>) -> bool {
    &&& closed_surface(triangles)
    &&& forall|i: int, j: int|
        0 <= i < j < triangles.len() ==> !same_corners(#[trigger] triangles[i], #[trigger] triangles[j])
}

/// Directed edge `which` (from 0 to 11) of the four triangles that split `triangle`.
spec fn split_edge(triangle: (u32, u32, u32), ab: u32, bc: u32, ca: u32, which: int) -> (u32, u32) {
    directed_edge(split_triangle(triangle, ab, bc, ca, which / 3), which % 3)
}

proof fn lemma_midpoint_of_edge(
    vertex_count: u32,
    triangles: Seq<(u32, u32, u32)>,
    i: int,
    which: int,
)
    requires
        0 <= i < triangles.len(),
        0 <= which < 3,
        vertex_count + midpoint_parents(triangles).len() <= u32::MAX,
    ensures
        ({
            let parents = midpoint_parents(triangles);
            let edge = directed_edge(triangles[i], which);
            let midpoint = midpoint_vertex(vertex_count, parents, edge.0, edge.1);
            &&& vertex_count <= midpoint < vertex_count + parents.len()
            &&& parents[midpoint - vertex_count] == canonical_edge(edge.0, edge.1)
            &&& midpoint == midpoint_vertex(vertex_count, parents, edge.1, edge.0)
        }),
{
    let parents = midpoint_parents(triangles);
    let edge = directed_edge(triangles[i], which);
    let scan = edge_scan(triangles);
    assert(scan[3 * i + which] == canonical_edge(edge.0, edge.1));
    assert(scan.contains(canonical_edge(edge.0, edge.1)));
    lemma_first_occurrences_contents(scan);
    assert(parents.contains(canonical_edge(edge.0, edge.1)));
    assert(canonical_edge(edge.0, edge.1) == canonical_edge(edge.1, edge.0));
}

/// The midpoints of a triangle's three edges.
spec fn triangle_midpoints(
    vertex_count: u32,
    triangles: Seq<(u32, u32, u32)>,
    i: int,
) -> (u32, u32, u32) {
    let parents = midpoint_parents(triangles);
    let t = triangles[i];
    (
        midpoint_vertex(vertex_count, parents, t.0, t.1),
        midpoint_vertex(vertex_count, parents, t.1, t.2),
        midpoint_vertex(vertex_count, parents, t.2, t.0),
    )
}

proof fn lemma_split_scan(vertex_count: u32, triangles: Seq<(u32, u32, u32)>, i: int, which: int)
    requires
        0 <= i < triangles.len(),
        0 <= which < 12,
    ensures
        directed_scan(subdivided_triangles(vertex_count, triangles)).len() == 12 * triangles.len(),
        ({
            let m = triangle_midpoints(vertex_count, triangles, i);
            directed_scan(subdivided_triangles(vertex_count, triangles))[12 * i + which]
                == split_edge(triangles[i], m.0, m.1, m.2, which)
        }),
{
    let n = 12 * i + which;
    assert(n / 3 == 4 * i + which / 3);
    assert(n % 3 == which % 3);
    assert((4 * i + which / 3) / 4 == i);
    assert((4 * i + which / 3) % 4 == which / 3);
    assert(0 <= n < 12 * triangles.len()) by (nonlinear_arith)
        requires
            0 <= i < triangles.len(),
            0 <= which < 12,
            n == 12 * i + which,
    ;
}

/// The midpoint of side `side` among the midpoints of a triangle's three sides.
spec fn side_midpoint(midpoints: (u32, u32, u32), side: int) -> u32 {
    if side == 0 {
        midpoints.0
    } else if side == 1 {
        midpoints.1
    } else {
        midpoints.2
    }
}

/// Whether edge `which` of a split triangle leaves a corner towards a midpoint.
spec fn is_outgoing(which: int) -> bool {
    which == 0 || which == 4 || which == 8
}

/// Whether edge `which` of a split triangle enters a corner from a midpoint.
spec fn is_incoming(which: int) -> bool {
    which == 2 || which == 3 || which == 7
}

/// The side of the original triangle that holds edge `which` of its split, where that
/// edge runs along a side.
spec fn edge_side(which: int) -> int {
    if which == 0 || which == 3 {
        0
    } else if which == 4 || which == 7 {
        1
    } else {
        2
    }
}

/// The side whose midpoint starts inner edge `which` of a split triangle.
spec fn inner_first(which: int) -> int {
    if which == 1 || which == 9 {
        0
    } else if which == 5 || which == 10 {
        1
    } else {
        2
    }
}

/// The side whose midpoint ends inner edge `which` of a split triangle.
spec fn inner_second(which: int) -> int {
    if which == 5 || which == 11 {
        0
    } else if which == 6 || which == 9 {
        1
    } else {
        2
    }
}

proof fn lemma_split_edge_shape(triangle: (u32, u32, u32), midpoints: (u32, u32, u32), which: int)
    requires
        0 <= which < 12,
    ensures
        ({
            let edge = split_edge(triangle, midpoints.0, midpoints.1, midpoints.2, which);
            let side = directed_edge(triangle, edge_side(which));
            &&& is_outgoing(which) ==> edge == (side.0, side_midpoint(midpoints, edge_side(which)))
            &&& is_incoming(which) ==> edge == (side_midpoint(midpoints, edge_side(which)), side.1)
            &&& !is_outgoing(which) && !is_incoming(which) ==> {
                &&& edge == (
                    side_midpoint(midpoints, inner_first(which)),
                    side_midpoint(midpoints, inner_second(which)),
                )
                &&& inner_first(which) != inner_second(which)
            }
        }),
{
}

proof fn lemma_side_midpoint(vertex_count: u32, triangles: Seq<(u32, u32, u32)>, i: int, side: int)
    requires
        0 <= i < triangles.len(),
        0 <= side < 3,
        vertex_count + midpoint_parents(triangles).len() <= u32::MAX,
    ensures
        ({
            let parents = midpoint_parents(triangles);
            let midpoint = side_midpoint(triangle_midpoints(vertex_count, triangles, i), side);
            let edge = directed_edge(triangles[i], side);
            &&& vertex_count <= midpoint < vertex_count + parents.len()
            &&& parents[midpoint - vertex_count] == undirected(edge)
            &&& midpoint == midpoint_vertex(vertex_count, parents, edge.0, edge.1)
            &&& midpoint == midpoint_vertex(vertex_count, parents, edge.1, edge.0)
        }),
{
    lemma_midpoint_of_edge(vertex_count, triangles, i, side);
}

/// Whether a triangle's three corners differ.
spec fn nondegenerate(triangle: (u32, u32, u32)) -> bool {
    triangle.0 != triangle.1 && triangle.1 != triangle.2 && triangle.2 != triangle.0
}

proof fn lemma_two_sides_fix_corners(
    first: (u32, u32, u32),
    second: (u32, u32, u32),
    side_a: int,
    side_b: int,
    other_a: int,
    other_b: int,
)
    requires
        nondegenerate(first),
        nondegenerate(second),
        0 <= side_a < 3,
        0 <= side_b < 3,
        0 <= other_a < 3,
        0 <= other_b < 3,
        side_a != side_b,
        other_a != other_b,
        undirected(directed_edge(first, side_a)) == undirected(directed_edge(second, other_a)),
        undirected(directed_edge(first, side_b)) == undirected(directed_edge(second, other_b)),
    ensures
        same_corners(first, second),
{
    let ea = directed_edge(first, side_a);
    let eb = directed_edge(first, side_b);
    let fa = directed_edge(second, other_a);
    let fb = directed_edge(second, other_b);
    assert(has_corner(second, ea.0) && has_corner(second, ea.1));
    assert(has_corner(second, eb.0) && has_corner(second, eb.1));
    assert(has_corner(first, fa.0) && has_corner(first, fa.1));
    assert(has_corner(first, fb.0) && has_corner(first, fb.1));
}

proof fn lemma_sides_differ(triangle: (u32, u32, u32), side_a: int, side_b: int)
    requires
        nondegenerate(triangle),
        0 <= side_a < 3,
        0 <= side_b < 3,
        undirected(directed_edge(triangle, side_a)) == undirected(directed_edge(triangle, side_b)),
    ensures
        side_a == side_b,
{
}

proof fn lemma_surface_triangle(vertex_count: u32, triangles: Seq<(u32, u32, u32)>, i: int)
    requires
        closed_surface(triangles),
        indices_in_range(vertex_count, triangles),
        0 <= i < triangles.len(),
    ensures
        nondegenerate(triangles[i]),
        triangles[i].0 < vertex_count,
        triangles[i].1 < vertex_count,
        triangles[i].2 < vertex_count,
{
}

proof fn lemma_scan_position(triangles: Seq<(u32, u32, u32)>, i: int, side: int)
    requires
        0 <= i < triangles.len(),
        0 <= side < 3,
    ensures
        0 <= 3 * i + side < directed_scan(triangles).len(),
        directed_scan(triangles)[3 * i + side] == directed_edge(triangles[i], side),
{
    assert((3 * i + side) / 3 == i);
    assert((3 * i + side) % 3 == side);
}

proof fn lemma_split_edges_distinct(
    vertex_count: u32,
    triangles: Seq<(u32, u32, u32)>,
    n1: int,
    n2: int,
)
    requires
        simple_closed_surface(triangles),
        indices_in_range(vertex_count, triangles),
        vertex_count + midpoint_parents(triangles).len() <= u32::MAX,
        0 <= n1 < 12 * triangles.len(),
        0 <= n2 < 12 * triangles.len(),
        directed_scan(subdivided_triangles(vertex_count, triangles))[n1] == directed_scan(
            subdivided_triangles(vertex_count, triangles),
        )[n2],
    ensures
        n1 == n2,
{
    let i1 = n1 / 12;
    let j1 = n1 % 12;
    let i2 = n2 / 12;
    let j2 = n2 % 12;
    assert(0 <= i1 < triangles.len() && 0 <= i2 < triangles.len());
    lemma_split_scan(vertex_count, triangles, i1, j1);
    lemma_split_scan(vertex_count, triangles, i2, j2);
    let t1 = triangles[i1];
    let t2 = triangles[i2];
    let m1 = triangle_midpoints(vertex_count, triangles, i1);
    let m2 = triangle_midpoints(vertex_count, triangles, i2);
    lemma_split_edge_shape(t1, m1, j1);
    lemma_split_edge_shape(t2, m2, j2);
    let edge = split_edge(t1, m1.0, m1.1, m1.2, j1);
    assert(edge == split_edge(t2, m2.0, m2.1, m2.2, j2));
    lemma_surface_triangle(vertex_count, triangles, i1);
    lemma_surface_triangle(vertex_count, triangles, i2);
    let parents = midpoint_parents(triangles);
    let outer1 = is_outgoing(j1) || is_incoming(j1);
    let outer2 = is_outgoing(j2) || is_incoming(j2);
    if outer1 && outer2 {
        let s1 = edge_side(j1);
        let s2 = edge_side(j2);
        lemma_side_midpoint(vertex_count, triangles, i1, s1);
        lemma_side_midpoint(vertex_count, triangles, i2, s2);
        let d1 = directed_edge(t1, s1);
        let d2 = directed_edge(t2, s2);
        assert(d1.0 < vertex_count && d1.1 < vertex_count);
        assert(d2.0 < vertex_count && d2.1 < vertex_count);
        if is_outgoing(j1) == is_outgoing(j2) {
            assert(undirected(d1) == undirected(d2));
            assert(d1 == d2);
            lemma_scan_position(triangles, i1, s1);
            lemma_scan_position(triangles, i2, s2);
            let scan = directed_scan(triangles);
            assert(scan.no_duplicates());
            assert(3 * i1 + s1 == 3 * i2 + s2);
            assert(i1 == i2 && s1 == s2);
        }
    } else if !outer1 && !outer2 {
        let f1 = inner_first(j1);
        let e1 = inner_second(j1);
        let f2 = inner_first(j2);
        let e2 = inner_second(j2);
        lemma_side_midpoint(vertex_count, triangles, i1, f1);
        lemma_side_midpoint(vertex_count, triangles, i1, e1);
        lemma_side_midpoint(vertex_count, triangles, i2, f2);
        lemma_side_midpoint(vertex_count, triangles, i2, e2);
        lemma_two_sides_fix_corners(t1, t2, f1, e1, f2, e2);
        if i1 < i2 {
            assert(!same_corners(triangles[i1], triangles[i2]));
        } else if i2 < i1 {
            assert(!same_corners(triangles[i2], triangles[i1]));
        }
        lemma_sides_differ(t1, f1, f2);
        lemma_sides_differ(t1, e1, e2);
    } else {
        lemma_side_midpoint(vertex_count, triangles, i1, 0);
        lemma_side_midpoint(vertex_count, triangles, i1, 1);
        lemma_side_midpoint(vertex_count, triangles, i1, 2);
        lemma_side_midpoint(vertex_count, triangles, i2, 0);
        lemma_side_midpoint(vertex_count, triangles, i2, 1);
        lemma_side_midpoint(vertex_count, triangles, i2, 2);
    }
}

/// The edge of a split triangle that leaves the corner starting side `side`.
spec fn outgoing_index(side: int) -> int {
    if side == 0 {
        0
    } else if side == 1 {
        4
    } else {
        8
    }
}

/// The edge of a split triangle that enters the corner ending side `side`.
spec fn incoming_index(side: int) -> int {
    if side == 0 {
        3
    } else if side == 1 {
        7
    } else {
        2
    }
}

/// The inner edge of a split triangle that runs against inner edge `which`.
spec fn inner_partner(which: int) -> int {
    if which == 1 {
        11
    } else if which == 11 {
        1
    } else if which == 5 {
        9
    } else if which == 9 {
        5
    } else if which == 6 {
        10
    } else {
        6
    }
}

proof fn lemma_split_edge_reversed(vertex_count: u32, triangles: Seq<(u32, u32, u32)>, n: int)
    requires
        closed_surface(triangles),
        vertex_count + midpoint_parents(triangles).len() <= u32::MAX,
        0 <= n < 12 * triangles.len(),
    ensures
        directed_scan(subdivided_triangles(vertex_count, triangles)).contains(
            reversed(directed_scan(subdivided_triangles(vertex_count, triangles))[n]),
        ),
{
    let split = directed_scan(subdivided_triangles(vertex_count, triangles));
    let i = n / 12;
    let j = n % 12;
    lemma_split_scan(vertex_count, triangles, i, j);
    let t = triangles[i];
    let m = triangle_midpoints(vertex_count, triangles, i);
    lemma_split_edge_shape(t, m, j);
    let edge = split[n];
    if is_outgoing(j) || is_incoming(j) {
        let side = edge_side(j);
        let d = directed_edge(t, side);
        let scan = directed_scan(triangles);
        lemma_scan_position(triangles, i, side);
        assert(scan.contains(reversed(scan[3 * i + side])));
        let k = choose|k: int| 0 <= k < scan.len() && scan[k] == reversed(d);
        let i2 = k / 3;
        let s2 = k % 3;
        lemma_scan_position(triangles, i2, s2);
        lemma_side_midpoint(vertex_count, triangles, i, side);
        lemma_side_midpoint(vertex_count, triangles, i2, s2);
        let j2 = if is_outgoing(j) {
            incoming_index(s2)
        } else {
            outgoing_index(s2)
        };
        let m2 = triangle_midpoints(vertex_count, triangles, i2);
        lemma_split_scan(vertex_count, triangles, i2, j2);
        lemma_split_edge_shape(triangles[i2], m2, j2);
        assert(split[12 * i2 + j2] == reversed(edge));
    } else {
        let j2 = inner_partner(j);
        lemma_split_scan(vertex_count, triangles, i, j2);
        lemma_split_edge_shape(t, m, j2);
        assert(split[12 * i + j2] == reversed(edge));
    }
}

/// A side of the original triangle whose midpoint is a corner of part `which` of its split.
spec fn first_midpoint_side(which: int) -> int {
    if which == 2 {
        2
    } else {
        0
    }
}

/// Another side of the original triangle whose midpoint is a corner of part `which`.
spec fn second_midpoint_side(which: int) -> int {
    if which == 0 {
        2
    } else {
        1
    }
}

proof fn lemma_shared_midpoint(
    vertex_count: u32,
    triangles: Seq<(u32, u32, u32)>,
    i1: int,
    side: int,
    i2: int,
) -> (other: int)
    requires
        vertex_count + midpoint_parents(triangles).len() <= u32::MAX,
        0 <= i1 < triangles.len(),
        0 <= i2 < triangles.len(),
        0 <= side < 3,
        has_corner(
            triangle_midpoints(vertex_count, triangles, i2),
            side_midpoint(triangle_midpoints(vertex_count, triangles, i1), side),
        ),
    ensures
        0 <= other < 3,
        side_midpoint(triangle_midpoints(vertex_count, triangles, i2), other) == side_midpoint(
            triangle_midpoints(vertex_count, triangles, i1),
            side,
        ),
        undirected(directed_edge(triangles[i1], side)) == undirected(
            directed_edge(triangles[i2], other),
        ),
{
    let m1 = triangle_midpoints(vertex_count, triangles, i1);
    let m2 = triangle_midpoints(vertex_count, triangles, i2);
    let midpoint = side_midpoint(m1, side);
    lemma_side_midpoint(vertex_count, triangles, i1, side);
    let other = if m2.0 == midpoint {
        0int
    } else if m2.1 == midpoint {
        1int
    } else {
        2int
    };
    lemma_side_midpoint(vertex_count, triangles, i2, other);
    other
}

proof fn lemma_split_part(vertex_count: u32, triangles: Seq<(u32, u32, u32)>, n: int)
    requires
        closed_surface(triangles),
        indices_in_range(vertex_count, triangles),
        vertex_count + midpoint_parents(triangles).len() <= u32::MAX,
        0 <= n < 4 * triangles.len(),
    ensures
        ({
            let part = subdivided_triangles(vertex_count, triangles)[n];
            let m = triangle_midpoints(vertex_count, triangles, n / 4);
            let limit = vertex_count + midpoint_parents(triangles).len();
            &&& part == split_triangle(triangles[n / 4], m.0, m.1, m.2, n % 4)
            &&& nondegenerate(part)
            &&& part.0 < limit && part.1 < limit && part.2 < limit
            &&& vertex_count <= m.0 && vertex_count <= m.1 && vertex_count <= m.2
            &&& nondegenerate(m)
        }),
{
    let i = n / 4;
    let t = triangles[i];
    lemma_surface_triangle(vertex_count, triangles, i);
    lemma_side_midpoint(vertex_count, triangles, i, 0);
    lemma_side_midpoint(vertex_count, triangles, i, 1);
    lemma_side_midpoint(vertex_count, triangles, i, 2);
    let m = triangle_midpoints(vertex_count, triangles, i);
    if m.0 == m.1 {
        lemma_sides_differ(t, 0, 1);
    }
    if m.1 == m.2 {
        lemma_sides_differ(t, 1, 2);
    }
    if m.2 == m.0 {
        lemma_sides_differ(t, 2, 0);
    }
}

proof fn lemma_split_parts_differ(
    vertex_count: u32,
    triangles: Seq<(u32, u32, u32)>,
    n1: int,
    n2: int,
)
    requires
        simple_closed_surface(triangles),
        indices_in_range(vertex_count, triangles),
        vertex_count + midpoint_parents(triangles).len() <= u32::MAX,
        0 <= n1 < 4 * triangles.len(),
        0 <= n2 < 4 * triangles.len(),
        n1 != n2,
    ensures
        !same_corners(
            subdivided_triangles(vertex_count, triangles)[n1],
            subdivided_triangles(vertex_count, triangles)[n2],
        ),
{
    let split = subdivided_triangles(vertex_count, triangles);
    if same_corners(split[n1], split[n2]) {
        let i1 = n1 / 4;
        let k1 = n1 % 4;
        let i2 = n2 / 4;
        let k2 = n2 % 4;
        let t1 = triangles[i1];
        let t2 = triangles[i2];
        let m1 = triangle_midpoints(vertex_count, triangles, i1);
        let m2 = triangle_midpoints(vertex_count, triangles, i2);
        lemma_split_part(vertex_count, triangles, n1);
        lemma_split_part(vertex_count, triangles, n2);
        lemma_surface_triangle(vertex_count, triangles, i1);
        lemma_surface_triangle(vertex_count, triangles, i2);
        assert(k1 == 3 <==> k2 == 3);
        let side_a = first_midpoint_side(k1);
        let side_b = second_midpoint_side(k1);
        assert(has_corner(m2, side_midpoint(m1, side_a)));
        assert(has_corner(m2, side_midpoint(m1, side_b)));
        let other_a = lemma_shared_midpoint(vertex_count, triangles, i1, side_a, i2);
        let other_b = lemma_shared_midpoint(vertex_count, triangles, i1, side_b, i2);
        if other_a == other_b {
            lemma_sides_differ(t1, side_a, side_b);
        }
        lemma_two_sides_fix_corners(t1, t2, side_a, side_b, other_a, other_b);
        if i1 < i2 {
            assert(!same_corners(triangles[i1], triangles[i2]));
        } else if i2 < i1 {
            assert(!same_corners(triangles[i2], triangles[i1]));
        }
        assert(k1 == k2);
        assert(false);
    }
}

/// One subdivision step keeps a simple closed surface simple and closed, and its corners
/// among the vertices it has then.
pub proof fn lemma_subdivision_keeps_surface(vertex_count: u32, triangles: Seq<(u32, u32, u32)>)
    requires
        simple_closed_surface(triangles),
        indices_in_range(vertex_count, triangles),
        vertex_count + midpoint_parents(triangles).len() <= u32::MAX,
    ensures
        simple_closed_surface(subdivided_triangles(vertex_count, triangles)),
        indices_in_range(
            (vertex_count + midpoint_parents(triangles).len()) as u32,
            subdivided_triangles(vertex_count, triangles),
        ),
{
    let split = subdivided_triangles(vertex_count, triangles);
    let scan = directed_scan(split);
    assert forall|n: int| 0 <= n < split.len() implies #[trigger] split[n].0 != split[n].1
        && split[n].1 != split[n].2 && split[n].2 != split[n].0 by {
        lemma_split_part(vertex_count, triangles, n);
    }
    assert forall|a: int, b: int|
        0 <= a < scan.len() && 0 <= b < scan.len() && a != b implies scan[a] != scan[b] by {
        if scan[a] == scan[b] {
            lemma_split_edges_distinct(vertex_count, triangles, a, b);
        }
    }
    assert forall|n: int| 0 <= n < scan.len() implies scan.contains(reversed(#[trigger] scan[n])) by {
        lemma_split_edge_reversed(vertex_count, triangles, n);
    }
    assert forall|a: int, b: int| 0 <= a < b < split.len() implies !same_corners(
        #[trigger] split[a],
        #[trigger] split[b],
    ) by {
        lemma_split_parts_differ(vertex_count, triangles, a, b);
    }
    let limit = (vertex_count + midpoint_parents(triangles).len()) as u32;
    assert forall|n: int| 0 <= n < split.len() implies #[trigger] split[n].0 < limit && split[n].1
        < limit && split[n].2 < limit by {
        lemma_split_part(vertex_count, triangles, n);
    }
}

proof fn lemma_octahedron_surface()
    ensures
        simple_closed_surface(base_triangles()),
        indices_in_range(6, base_triangles()),
{
    let triangles = base_triangles();
    let scan = directed_scan(triangles);
    assert(scan.no_duplicates());
    assert(forall|i: int|
        0 <= i < triangles.len() ==> #[trigger] triangles[i].0 != triangles[i].1
            && triangles[i].1 != triangles[i].2 && triangles[i].2 != triangles[i].0);
    let opposite: Seq<int> = seq![
        5, 13, 9, 8, 16, 0, 11, 19, 3, 2, 22, 6, 23, 1, 15, 14, 4, 18, 17, 7, 21, 20, 10, 12,
    ];
    assert forall|n: int| 0 <= n < scan.len() implies scan.contains(reversed(#[trigger] scan[n])) by {
        assert(scan[opposite[n]] == reversed(scan[n]));
    }
    assert(forall|i: int, j: int|
        0 <= i < j < triangles.len() ==> !same_corners(#[trigger] triangles[i], #[trigger] triangles[j]));
}

/// Every octasphere level is a closed surface on which no two triangles share all their
/// corners, and it has `4 * 4^level + 2` vertices: two more than half its triangles.
pub proof fn law_octasphere_vertex_count(level: nat)
    requires
        level <= 13,
    ensures
        simple_closed_surface(octasphere_topology(level).1),
        indices_in_range(octasphere_topology(level).0, octasphere_topology(level).1),
        octasphere_topology(level).1.len() == 8 * pow4(level),
        octasphere_topology(level).0 == 4 * pow4(level) + 2,
        octasphere_topology(level).0 == octasphere_topology(level).1.len() / 2 + 2,
    decreases level,
{
    if level == 0 {
        lemma_octahedron_surface();
    } else {
        let previous = (level - 1) as nat;
        law_octasphere_vertex_count(previous);
        let (vertex_count, triangles, parents) = octasphere_topology(previous);
        lemma_closed_surface_edge_count(triangles);
        lemma_pow4_bound(previous);
        lemma_subdivision_keeps_surface(vertex_count, triangles);
    }
}

} // verus!
