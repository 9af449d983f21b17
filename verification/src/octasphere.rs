use crate::surface::{law_octasphere_vertex_count, simple_closed_surface};
use std::collections::HashMap;
use vstd::prelude::*;

verus! {

broadcast use vstd::std_specs::hash::group_hash_axioms;

/// Vertex indices of triangles wound clockwise as seen from outside the sphere.
#[derive(Debug, Clone, PartialEq, Eq)]
pub struct MeshTopology {
    pub vertex_count: u32,
    pub triangles: Vec<(u32, u32, u32)>,
}

/// Whether every triangle refers to one of the first `vertex_count` vertices.
pub open spec fn indices_in_range(vertex_count: u32, triangles: Seq<(u32, u32, u32)>) -> bool {
    forall|i: int|
        0 <= i < triangles.len() ==> #[trigger] triangles[i].0 < vertex_count && triangles[i].1
            < vertex_count && triangles[i].2 < vertex_count
}

/// An undirected edge, written with its smaller vertex first.
pub open spec fn canonical_edge(first: u32, second: u32) -> (u32, u32) {
    if first < second {
        (first, second)
    } else {
        (second, first)
    }
}

/// Edge `which` of a triangle: first to second, second to third, third to first.
pub open spec fn triangle_edge(triangle: (u32, u32, u32), which: int) -> (u32, u32) {
    if which == 0 {
        canonical_edge(triangle.0, triangle.1)
    } else if which == 1 {
        canonical_edge(triangle.1, triangle.2)
    } else {
        canonical_edge(triangle.2, triangle.0)
    }
}

/// The edges of all triangles, three per triangle, in the order subdivision visits them.
pub open spec fn edge_scan(triangles: Seq<(u32, u32, u32)>) -> Seq<(u32, u32)> {
    Seq::new(3 * triangles.len(), |n: int| triangle_edge(triangles[n / 3], n % 3))
}

/// The elements of `items` in the order of their first occurrence, each once.
pub open spec fn first_occurrences(items: Seq<(u32, u32)>) -> Seq<(u32, u32)>
    decreases items.len(),
{
    if items.len() == 0 {
        Seq::empty()
    } else {
        let earlier = first_occurrences(items.drop_last());
        if earlier.contains(items.last()) {
            earlier
        } else {
            earlier.push(items.last())
        }
    }
}

/// The edges that subdivision splits, in the order their midpoint vertices are created.
pub open spec fn midpoint_parents(triangles: Seq<(u32, u32, u32)>) -> Seq<(u32, u32)> {
    first_occurrences(edge_scan(triangles))
}

/// The index of the vertex created at the midpoint of the edge from `first` to `second`.
pub open spec fn midpoint_vertex(
    vertex_count: u32,
    parents: Seq<(u32, u32)>,
    first: u32,
    second: u32,
) -> u32 {
    (vertex_count + parents.index_of(canonical_edge(first, second))) as u32
}

/// Part `which` of a triangle split at the edge midpoints `ab`, `bc` and `ca`: the three
/// corner triangles and then the center one, all wound as the original.
pub open spec fn split_triangle(
    triangle: (u32, u32, u32),
    ab: u32,
    bc: u32,
    ca: u32,
    which: int,
) -> (u32, u32, u32) {
    if which == 0 {
        (triangle.0, ab, ca)
    } else if which == 1 {
        (ab, triangle.1, bc)
    } else if which == 2 {
        (ca, bc, triangle.2)
    } else {
        (ab, bc, ca)
    }
}

/// The triangles of one subdivision step: each triangle replaced by four.
pub open spec fn subdivided_triangles(vertex_count: u32, triangles: Seq<(u32, u32, u32)>) -> Seq<
    (u32, u32, u32),
> {
    let parents = midpoint_parents(triangles);
    Seq::new(
        4 * triangles.len(),
        |n: int|
            {
                let triangle = triangles[n / 4];
                split_triangle(
                    triangle,
                    midpoint_vertex(vertex_count, parents, triangle.0, triangle.1),
                    midpoint_vertex(vertex_count, parents, triangle.1, triangle.2),
                    midpoint_vertex(vertex_count, parents, triangle.2, triangle.0),
                    n % 4,
                )
            },
    )
}

/// The key under which an edge's midpoint is remembered.
pub open spec fn edge_key(edge: (u32, u32)) -> u64 {
    (edge.0 * 0x1_0000_0000 + edge.1) as u64
}

proof fn lemma_edge_key_injective(first: (u32, u32), second: (u32, u32))
    requires
        edge_key(first) == edge_key(second),
    ensures
        first == second,
{
    let d: int = 0x1_0000_0000;
    assert(0 <= first.0 * d + first.1 < 0x1_0000_0000_0000_0000) by (nonlinear_arith)
        requires
            first.0 < d,
            first.1 < d,
            d == 0x1_0000_0000,
    ;
    assert(0 <= second.0 * d + second.1 < 0x1_0000_0000_0000_0000) by (nonlinear_arith)
        requires
            second.0 < d,
            second.1 < d,
            d == 0x1_0000_0000,
    ;
    let key: int = first.0 * d + first.1;
    assert(key == second.0 * d + second.1);
    vstd::arithmetic::div_mod::lemma_fundamental_div_mod_converse(
        key,
        d,
        first.0 as int,
        first.1 as int,
    );
    vstd::arithmetic::div_mod::lemma_fundamental_div_mod_converse(
        key,
        d,
        second.0 as int,
        second.1 as int,
    );
}

/// The midpoints created so far: vertices `base` onward, one per remembered edge.
pub open spec fn midpoint_table(
    base: u32,
    vertex_count: u32,
    parents: Seq<(u32, u32)>,
    midpoints: Map<u64, u32>,
) -> bool {
    &&& vertex_count == base + parents.len()
    &&& parents.no_duplicates()
    &&& forall|k: int|
        0 <= k < parents.len() ==> midpoints.contains_key(edge_key(#[trigger] parents[k]))
            && midpoints[edge_key(parents[k])] == base + k
    &&& forall|key: u64|
        midpoints.contains_key(key) ==> exists|k: int|
            0 <= k < parents.len() && edge_key(#[trigger] parents[k]) == key
}

/// What looking up the midpoint of the edge from `first` to `second` yields, given the edges
/// already halved by the vertices from `base` on: the vertex already made for that edge and the
/// same edges, or a new vertex after them and the edges with this one appended.
pub open spec fn midpoint_lookup(
    base: u32,
    parents: Seq<(u32, u32)>,
    first: u32,
    second: u32,
) -> (u32, Seq<(u32, u32)>) {
    let edge = canonical_edge(first, second);
    if parents.contains(edge) {
        ((base + parents.index_of(edge)) as u32, parents)
    } else {
        ((base + parents.len()) as u32, parents.push(edge))
    }
}

/// Looking up an edge from either end gives the same vertex; looking it up again, from either
/// end, gives that vertex again and creates none; and one lookup creates at most one vertex.
pub proof fn law_midpoint_lookup_is_shared(
    base: u32,
    parents: Seq<(u32, u32)>,
    first: u32,
    second: u32,
)
    requires
        parents.no_duplicates(),
    ensures
        midpoint_lookup(base, parents, first, second) == midpoint_lookup(
            base,
            parents,
            second,
            first,
        ),
        ({
            let (index, after) = midpoint_lookup(base, parents, first, second);
            &&& midpoint_lookup(base, after, second, first) == (index, after)
            &&& midpoint_lookup(base, after, first, second) == (index, after)
            &&& after.len() <= parents.len() + 1
            &&& after.no_duplicates()
        }),
{
    let edge = canonical_edge(first, second);
    assert(canonical_edge(second, first) == edge);
    if !parents.contains(edge) {
        let after = parents.push(edge);
        assert(after[parents.len() as int] == edge);
        assert(after.contains(edge));
        assert(after.no_duplicates()) by {
            assert forall|i: int, j: int|
                0 <= i < after.len() && 0 <= j < after.len() && i != j implies after[i]
                != after[j] by {
                if i < parents.len() && j < parents.len() {
                } else if i < parents.len() {
                    assert(parents.contains(after[i]));
                } else if j < parents.len() {
                    assert(parents.contains(after[j]));
                }
            }
        }
        lemma_index_of_unique(after, parents.len() as int);
    } else {
        let k = parents.index_of(edge);
        assert(0 <= k < parents.len() && parents[k] == edge);
    }
}

/// The index of the vertex at the midpoint of the edge from `first` to `second`, created
/// the first time that edge is met.
fn midpoint_index(
    first: u32,
    second: u32,
    base: u32,
    vertex_count: &mut u32,
    parents: &mut Vec<(u32, u32)>,
    midpoint_indices: &mut HashMap<u64, u32>,
) -> (index: u32)
    requires
        midpoint_table(base, *old(vertex_count), old(parents)@, old(midpoint_indices)@),
        *old(vertex_count) < u32::MAX,
    ensures
        midpoint_table(base, *final(vertex_count), final(parents)@, final(midpoint_indices)@),
        final(parents)@ == if old(parents)@.contains(canonical_edge(first, second)) {
            old(parents)@
        } else {
            old(parents)@.push(canonical_edge(first, second))
        },
        base <= index < *final(vertex_count),
        final(parents)@[index - base] == canonical_edge(first, second),
        (index, final(parents)@) == midpoint_lookup(base, old(parents)@, first, second),
{
    let edge = if first < second {
        (first, second)
    } else {
        (second, first)
    };
    assert(edge == canonical_edge(first, second));
    let key = edge.0 as u64 * 0x1_0000_0000 + edge.1 as u64;
    assert(key == edge_key(edge));
    match midpoint_indices.get(&key) {
        Some(index) => {
            let index = *index;
            proof {
                let k = choose|k: int|
                    0 <= k < parents@.len() && edge_key(#[trigger] parents@[k]) == key;
                lemma_edge_key_injective(parents@[k], edge);
            }
            assert(parents@.contains(edge));
            index
        },
        None => {
            assert(!parents@.contains(edge)) by {
                if parents@.contains(edge) {
                    let k = choose|k: int| 0 <= k < parents@.len() && parents@[k] == edge;
                    assert(midpoint_indices@.contains_key(edge_key(parents@[k])));
                }
            }
            let index = *vertex_count;
            let ghost old_parents = parents@;
            let ghost old_table = midpoint_indices@;
            parents.push(edge);
            midpoint_indices.insert(key, index);
            *vertex_count = index + 1;
            assert forall|k: int|
                0 <= k < parents@.len() implies midpoint_indices@.contains_key(
                edge_key(#[trigger] parents@[k]),
            ) && midpoint_indices@[edge_key(parents@[k])] == base + k by {
                if k < old_parents.len() {
                    assert(parents@[k] == old_parents[k]);
                    if edge_key(parents@[k]) == key {
                        lemma_edge_key_injective(parents@[k], edge);
                    }
                }
            }
            assert forall|found: u64| midpoint_indices@.contains_key(found) implies exists|k: int|
                0 <= k < parents@.len() && edge_key(#[trigger] parents@[k]) == found by {
                if found == key {
                    assert(edge_key(parents@[old_parents.len() as int]) == found);
                } else {
                    assert(old_table.contains_key(found));
                    let k = choose|k: int|
                        0 <= k < old_parents.len() && edge_key(#[trigger] old_parents[k]) == found;
                    assert(parents@[k] == old_parents[k]);
                }
            }
            assert(parents@.no_duplicates());
            index
        },
    }
}

/// Whether vertex `index` was created at the midpoint of the edge from `first` to `second`.
pub open spec fn is_midpoint(
    base: u32,
    parents: Seq<(u32, u32)>,
    index: u32,
    first: u32,
    second: u32,
) -> bool {
    &&& base <= index < base + parents.len()
    &&& parents[index - base] == canonical_edge(first, second)
}

/// Whether `part` is part `which` of `triangle` split at midpoints recorded in `parents`.
pub open spec fn is_split_part(
    base: u32,
    parents: Seq<(u32, u32)>,
    triangle: (u32, u32, u32),
    part: (u32, u32, u32),
    which: int,
) -> bool {
    if which == 0 {
        &&& part.0 == triangle.0
        &&& is_midpoint(base, parents, part.1, triangle.0, triangle.1)
        &&& is_midpoint(base, parents, part.2, triangle.2, triangle.0)
    } else if which == 1 {
        &&& is_midpoint(base, parents, part.0, triangle.0, triangle.1)
        &&& part.1 == triangle.1
        &&& is_midpoint(base, parents, part.2, triangle.1, triangle.2)
    } else if which == 2 {
        &&& is_midpoint(base, parents, part.0, triangle.2, triangle.0)
        &&& is_midpoint(base, parents, part.1, triangle.1, triangle.2)
        &&& part.2 == triangle.2
    } else {
        &&& is_midpoint(base, parents, part.0, triangle.0, triangle.1)
        &&& is_midpoint(base, parents, part.1, triangle.1, triangle.2)
        &&& is_midpoint(base, parents, part.2, triangle.2, triangle.0)
    }
}

proof fn lemma_index_of_unique(items: Seq<(u32, u32)>, k: int)
    requires
        items.no_duplicates(),
        0 <= k < items.len(),
    ensures
        items.index_of(items[k]) == k,
{
    assert(items.contains(items[k]));
}

/// Splits every triangle into four at its edge midpoints. The new vertices follow the old
/// ones, one per edge, in the order their edges are first met; the result also lists the
/// edge that each new vertex halves.
pub fn subdivide(mesh: &MeshTopology) -> (subdivided: (MeshTopology, Vec<(u32, u32)>))
    requires
        indices_in_range(mesh.vertex_count, mesh.triangles@),
        mesh.vertex_count + 3 * mesh.triangles@.len() <= u32::MAX,
        4 * mesh.triangles@.len() <= usize::MAX,
    ensures
        subdivided.1@ == midpoint_parents(mesh.triangles@),
        subdivided.0.vertex_count == mesh.vertex_count + subdivided.1@.len(),
        subdivided.1@.len() <= 3 * mesh.triangles@.len(),
        subdivided.0.triangles@ == subdivided_triangles(mesh.vertex_count, mesh.triangles@),
        subdivided.1@.no_duplicates(),
        forall|k: int|
            0 <= k < subdivided.1@.len() ==> #[trigger] subdivided.1@[k].0 <= subdivided.1@[k].1
                && subdivided.1@[k].1 < mesh.vertex_count,
        indices_in_range(subdivided.0.vertex_count, subdivided.0.triangles@),
{
    let base = mesh.vertex_count;
    let ghost source = mesh.triangles@;
    let ghost scan = edge_scan(source);
    let count = mesh.triangles.len();
    let mut midpoint_indices: HashMap<u64, u32> = HashMap::new();
    let mut parents: Vec<(u32, u32)> = Vec::new();
    let mut vertex_count = base;
    let mut triangles: Vec<(u32, u32, u32)> = Vec::new();
    let mut index: usize = 0;
    assert(scan.take(0) =~= Seq::<(u32, u32)>::empty());
    while index < count
        invariant
            count == source.len(),
            source == mesh.triangles@,
            scan == edge_scan(source),
            base == mesh.vertex_count,
            indices_in_range(base, source),
            base + 3 * count <= u32::MAX,
            4 * count <= usize::MAX,
            index <= count,
            midpoint_table(base, vertex_count, parents@, midpoint_indices@),
            parents@ == first_occurrences(scan.take(3 * index)),
            parents@.len() <= 3 * index,
            forall|k: int|
                0 <= k < parents@.len() ==> #[trigger] parents@[k].0 <= parents@[k].1
                    && parents@[k].1 < base,
            triangles@.len() == 4 * index,
            forall|n: int|
                0 <= n < triangles@.len() ==> is_split_part(
                    base,
                    parents@,
                    source[n / 4],
                    #[trigger] triangles@[n],
                    n % 4,
                ),
        decreases count - index,
    {
        let triangle = mesh.triangles[index];
        let (first, second, third) = triangle;
        assert(first < base && second < base && third < base);
        let ghost before = parents@;
        let ghost before_triangles = triangles@;
        let first_second = midpoint_index(
            first,
            second,
            base,
            &mut vertex_count,
            &mut parents,
            &mut midpoint_indices,
        );
        let ghost after_first = parents@;
        let second_third = midpoint_index(
            second,
            third,
            base,
            &mut vertex_count,
            &mut parents,
            &mut midpoint_indices,
        );
        let ghost after_second = parents@;
        let third_first = midpoint_index(
            third,
            first,
            base,
            &mut vertex_count,
            &mut parents,
            &mut midpoint_indices,
        );
        proof {
            let done = 3 * index as int;
            assert(scan.take(done + 1) =~= scan.take(done).push(scan[done]));
            assert(scan.take(done + 2) =~= scan.take(done + 1).push(scan[done + 1]));
            assert(scan.take(done + 3) =~= scan.take(done + 2).push(scan[done + 2]));
            assert(scan[done] == canonical_edge(first, second));
            assert(scan[done + 1] == canonical_edge(second, third));
            assert(scan[done + 2] == canonical_edge(third, first));
            assert(scan.take(done).push(scan[done]).drop_last() =~= scan.take(done));
            assert(scan.take(done + 1).push(scan[done + 1]).drop_last() =~= scan.take(done + 1));
            assert(scan.take(done + 2).push(scan[done + 2]).drop_last() =~= scan.take(done + 2));
            assert(scan.take(done + 1).drop_last() =~= scan.take(done));
            assert(scan.take(done + 1).last() == scan[done]);
            assert(first_occurrences(scan.take(done + 1)) == after_first);
            assert(scan.take(done + 2).drop_last() =~= scan.take(done + 1));
            assert(scan.take(done + 2).last() == scan[done + 1]);
            assert(first_occurrences(scan.take(done + 2)) == after_second);
            assert(scan.take(done + 3).drop_last() =~= scan.take(done + 2));
            assert(scan.take(done + 3).last() == scan[done + 2]);
            assert(first_occurrences(scan.take(done + 3)) == parents@);
            assert(parents@[first_second - base] == after_first[first_second - base]);
            assert(parents@[second_third - base] == after_second[second_third - base]);
        }
        triangles.push((first, first_second, third_first));
        triangles.push((first_second, second, second_third));
        triangles.push((third_first, second_third, third));
        triangles.push((first_second, second_third, third_first));
        proof {
            assert forall|n: int|
                0 <= n < triangles@.len() implies is_split_part(
                base,
                parents@,
                source[n / 4],
                #[trigger] triangles@[n],
                n % 4,
            ) by {
                if n < 4 * index {
                    assert(triangles@[n] == before_triangles[n]);
                    assert(is_split_part(base, before, source[n / 4], before_triangles[n], n % 4));
                    let part = triangles@[n];
                    assert(forall|j: int| 0 <= j < before.len() ==> parents@[j] == before[j]);
                }
            }
        }
        index += 1;
    }
    let ghost final_parents = parents@;
    assert(scan.take(3 * count as int) =~= scan);
    assert forall|n: int| 0 <= n < triangles@.len() implies #[trigger] triangles@[n]
        == subdivided_triangles(base, source)[n] by {
        let triangle = source[n / 4];
        let part = triangles@[n];
        assert(is_split_part(base, final_parents, triangle, part, n % 4));
        let ab = midpoint_vertex(base, final_parents, triangle.0, triangle.1);
        let bc = midpoint_vertex(base, final_parents, triangle.1, triangle.2);
        let ca = midpoint_vertex(base, final_parents, triangle.2, triangle.0);
        if n % 4 == 0 {
            lemma_index_of_unique(final_parents, part.1 - base);
            lemma_index_of_unique(final_parents, part.2 - base);
        } else if n % 4 == 1 {
            lemma_index_of_unique(final_parents, part.0 - base);
            lemma_index_of_unique(final_parents, part.2 - base);
        } else if n % 4 == 2 {
            lemma_index_of_unique(final_parents, part.0 - base);
            lemma_index_of_unique(final_parents, part.1 - base);
        } else {
            lemma_index_of_unique(final_parents, part.0 - base);
            lemma_index_of_unique(final_parents, part.1 - base);
            lemma_index_of_unique(final_parents, part.2 - base);
        }
    }
    assert(triangles@ =~= subdivided_triangles(base, source));
    assert forall|n: int| 0 <= n < triangles@.len() implies #[trigger] triangles@[n].0
        < vertex_count && triangles@[n].1 < vertex_count && triangles@[n].2 < vertex_count by {
        assert(is_split_part(base, final_parents, source[n / 4], triangles@[n], n % 4));
    }
    (MeshTopology { vertex_count, triangles }, parents)
}

/// The octahedron that subdivision starts from. Its vertices are lunar north, lunar south,
/// zero longitude on the equator, then the equator at 90, 180 and 270 degrees east.
pub open spec fn base_triangles() -> Seq<(u32, u32, u32)> {
    seq![
        (0u32, 3u32, 2u32),
        (0, 4, 3),
        (0, 5, 4),
        (0, 2, 5),
        (1, 2, 3),
        (1, 3, 4),
        (1, 4, 5),
        (1, 5, 2),
    ]
}

/// `4` to the power `exponent`.
pub open spec fn pow4(exponent: nat) -> nat
    decreases exponent,
{
    if exponent == 0 {
        1
    } else {
        4 * pow4((exponent - 1) as nat)
    }
}

/// The vertex count, the triangles, and the edge halved by each vertex after the six of the
/// octahedron, once the octahedron has been subdivided `level` times.
pub open spec fn octasphere_topology(level: nat) -> (u32, Seq<(u32, u32, u32)>, Seq<(u32, u32)>)
    decreases level,
{
    if level == 0 {
        (6, base_triangles(), Seq::empty())
    } else {
        let (vertex_count, triangles, parents) = octasphere_topology((level - 1) as nat);
        let created = midpoint_parents(triangles);
        (
            (vertex_count + created.len()) as u32,
            subdivided_triangles(vertex_count, triangles),
            parents + created,
        )
    }
}

pub fn base_octahedron() -> (mesh: MeshTopology)
    ensures
        mesh.vertex_count == 6,
        mesh.triangles@ == base_triangles(),
{
    let triangles = vec![
        (0u32, 3u32, 2u32),
        (0, 4, 3),
        (0, 5, 4),
        (0, 2, 5),
        (1, 2, 3),
        (1, 3, 4),
        (1, 4, 5),
        (1, 5, 2),
    ];
    assert(triangles@ =~= base_triangles());
    MeshTopology { vertex_count: 6, triangles }
}

/// The topology of a unit octasphere: the vertex count, the triangles, and for each vertex
/// after the six of the octahedron the two earlier vertices whose edge it halves.
#[derive(Debug, Clone, PartialEq, Eq)]
pub struct OctasphereTopology {
    pub vertex_count: u32,
    pub triangles: Vec<(u32, u32, u32)>,
    pub vertex_parents: Vec<(u32, u32)>,
}

proof fn lemma_pow4_monotone(smaller: nat, larger: nat)
    requires
        smaller <= larger,
    ensures
        1 <= pow4(smaller) <= pow4(larger),
    decreases larger,
{
    if larger > smaller {
        lemma_pow4_monotone(smaller, (larger - 1) as nat);
    } else if smaller > 0 {
        lemma_pow4_monotone((smaller - 1) as nat, (smaller - 1) as nat);
    }
}

pub(crate) proof fn lemma_pow4_bound(exponent: nat)
    requires
        exponent <= 12,
    ensures
        1 <= pow4(exponent) <= 16777216,
{
    lemma_pow4_monotone(exponent, 12);
    reveal_with_fuel(pow4, 13);
    assert(pow4(12) == 16777216);
}

/// Subdivides the octahedron `subdivision_level` times. The result is a closed surface with
/// two more vertices than half its triangles.
pub fn generate(subdivision_level: u32) -> (mesh: OctasphereTopology)
    requires
        subdivision_level <= 13,
    ensures
        (mesh.vertex_count, mesh.triangles@, mesh.vertex_parents@) == octasphere_topology(
            subdivision_level as nat,
        ),
        mesh.triangles@.len() == 8 * pow4(subdivision_level as nat),
        mesh.vertex_count == 6 + mesh.vertex_parents@.len(),
        indices_in_range(mesh.vertex_count, mesh.triangles@),
        forall|k: int|
            0 <= k < mesh.vertex_parents@.len() ==> #[trigger] mesh.vertex_parents@[k].0
                <= mesh.vertex_parents@[k].1 && mesh.vertex_parents@[k].1 < 6 + k,
        mesh.vertex_count == mesh.triangles@.len() / 2 + 2,
        simple_closed_surface(mesh.triangles@),
{
    proof {
        law_octasphere_vertex_count(subdivision_level as nat);
    }
    let mut mesh = base_octahedron();
    let mut vertex_parents: Vec<(u32, u32)> = Vec::new();
    let mut level: u32 = 0;
    assert(indices_in_range(6, base_triangles()));
    while level < subdivision_level
        invariant
            level <= subdivision_level <= 13,
            (mesh.vertex_count, mesh.triangles@, vertex_parents@) == octasphere_topology(
                level as nat,
            ),
            mesh.triangles@.len() == 8 * pow4(level as nat),
            mesh.vertex_count + 2 <= 2 * mesh.triangles@.len(),
            mesh.vertex_count == 6 + vertex_parents@.len(),
            indices_in_range(mesh.vertex_count, mesh.triangles@),
            forall|k: int|
                0 <= k < vertex_parents@.len() ==> #[trigger] vertex_parents@[k].0
                    <= vertex_parents@[k].1 && vertex_parents@[k].1 < 6 + k,
        decreases subdivision_level - level,
    {
        proof {
            lemma_pow4_bound(level as nat);
        }
        let ghost previous_parents = vertex_parents@;
        let ghost previous_count = mesh.vertex_count;
        let (next, mut created) = subdivide(&mesh);
        vertex_parents.append(&mut created);
        assert forall|k: int|
            0 <= k < vertex_parents@.len() implies #[trigger] vertex_parents@[k].0
            <= vertex_parents@[k].1 && vertex_parents@[k].1 < 6 + k by {
            if k >= previous_parents.len() {
                assert(vertex_parents@[k] == midpoint_parents(mesh.triangles@)[k
                    - previous_parents.len()]);
            } else {
                assert(vertex_parents@[k] == previous_parents[k]);
            }
        }
        mesh = next;
        level += 1;
    }
    OctasphereTopology {
        vertex_count: mesh.vertex_count,
        triangles: mesh.triangles,
        vertex_parents,
    }
}

} // verus!
