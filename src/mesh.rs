use std::collections::HashMap;
use vstd::prelude::*;
use vstd::std_specs::hash::group_hash_axioms;

verus! {

broadcast use group_hash_axioms;

/// An ordered pair of vertex indices: the other two corners of a triangle.
pub type AdjacentPair = (usize, usize);

/// The corner `k` of triangle `t` in a flat index buffer.
pub open spec fn corner(indices: Seq<u32>, t: int, k: int) -> usize {
    indices[3 * t + k] as usize
}

/// `pair` appended to the list kept for `key`, which starts empty.
pub open spec fn append_pair(
    m: Map<usize, Seq<AdjacentPair>>,
    key: usize,
    pair: AdjacentPair,
) -> Map<usize, Seq<AdjacentPair>> {
    if m.contains_key(key) {
        m.insert(key, m[key].push(pair))
    } else {
        m.insert(key, seq![pair])
    }
}

/// The adjacency lists after the first `n` triangles: each corner of a
/// triangle records the other two corners, in the triangle's cyclic order.
pub open spec fn adjacency(indices: Seq<u32>, n: nat) -> Map<usize, Seq<AdjacentPair>>
    decreases n,
{
    if n == 0 {
        Map::empty()
    } else {
        let t = n - 1;
        let a = corner(indices, t, 0);
        let b = corner(indices, t, 1);
        let c = corner(indices, t, 2);
        let m = adjacency(indices, (n - 1) as nat);
        append_pair(append_pair(append_pair(m, a, (b, c)), b, (c, a)), c, (a, b))
    }
}

pub open spec fn lists_view(m: Map<usize, Vec<AdjacentPair>>) -> Map<usize, Seq<AdjacentPair>> {
    m.map_values(|v: Vec<AdjacentPair>| v@)
}

fn push_adjacent(map: &mut HashMap<usize, Vec<AdjacentPair>>, key: usize, pair: AdjacentPair)
    ensures
        lists_view(final(map)@) == append_pair(lists_view(old(map)@), key, pair),
{
    let ghost before = lists_view(map@);
    match map.remove(&key) {
        Some(mut list) => {
            list.push(pair);
            map.insert(key, list);
        },
        None => {
            let mut list: Vec<AdjacentPair> = Vec::new();
            list.push(pair);
            map.insert(key, list);
        },
    }
    assert(lists_view(map@) =~= append_pair(before, key, pair));
}

/// For every vertex that some triangle references, the list of adjacent
/// pairs: a triangle (a, b, c) gives a the pair (b, c), b the pair (c, a)
/// and c the pair (a, b), in the order in which the triangles come.
pub fn get_adj_vertices(indices: &Vec<u32>) -> (r: HashMap<usize, Vec<AdjacentPair>>)
    requires
        indices@.len() % 3 == 0,
    ensures
        lists_view(r@) == adjacency(indices@, indices@.len() / 3),
{
    let mut map: HashMap<usize, Vec<AdjacentPair>> = HashMap::new();
    assert(lists_view(map@) =~= adjacency(indices@, 0));
    let mut i: usize = 0;
    while i < indices.len()
        invariant
            indices@.len() % 3 == 0,
            i % 3 == 0,
            i <= indices@.len(),
            lists_view(map@) == adjacency(indices@, i as nat / 3),
        decreases indices@.len() - i,
    {
        let idx1 = indices[i] as usize;
        let idx2 = indices[i + 1] as usize;
        let idx3 = indices[i + 2] as usize;
        assert(idx1 == corner(indices@, i as int / 3, 0) && idx2 == corner(indices@, i as int / 3, 1) && idx3
            == corner(indices@, i as int / 3, 2));
        push_adjacent(&mut map, idx1, (idx2, idx3));
        push_adjacent(&mut map, idx2, (idx3, idx1));
        push_adjacent(&mut map, idx3, (idx1, idx2));
        assert((i + 3) as nat / 3 == i as nat / 3 + 1);
        i = i + 3;
    }
    map
}

/// Whether every index in the buffer names one of `vertex_count` vertices.
pub open spec fn indices_in_range(indices: Seq<u32>, vertex_count: nat) -> bool {
    forall|k: int| 0 <= k < indices.len() ==> (#[trigger] indices[k] as nat) < vertex_count
}

/// The corners of each triangle of a flat index buffer, or `None` when some
/// index does not name one of `vertex_count` vertices.
pub fn triangle_indices(indices: &Vec<u32>, vertex_count: usize) -> (r: Option<Vec<[usize; 3]>>)
    requires
        indices@.len() % 3 == 0,
    ensures
        r.is_some() <==> indices_in_range(indices@, vertex_count as nat),
        r matches Some(tris) ==> {
            &&& tris@.len() == indices@.len() / 3
            &&& forall|t: int|
                0 <= t < tris@.len() ==> (#[trigger] tris@[t])@ == seq![
                    corner(indices@, t, 0),
                    corner(indices@, t, 1),
                    corner(indices@, t, 2),
                ]
        },
{
    let mut tris: Vec<[usize; 3]> = Vec::new();
    let mut i: usize = 0;
    while i < indices.len()
        invariant
            indices@.len() % 3 == 0,
            i % 3 == 0,
            i <= indices@.len(),
            tris@.len() == i / 3,
            forall|k: int| 0 <= k < i ==> (#[trigger] indices@[k] as nat) < vertex_count,
            forall|t: int|
                0 <= t < tris@.len() ==> (#[trigger] tris@[t])@ == seq![
                    corner(indices@, t, 0),
                    corner(indices@, t, 1),
                    corner(indices@, t, 2),
                ],
        decreases indices@.len() - i,
    {
        let idx1 = indices[i] as usize;
        let idx2 = indices[i + 1] as usize;
        let idx3 = indices[i + 2] as usize;
        if idx1 >= vertex_count || idx2 >= vertex_count || idx3 >= vertex_count {
            assert(!indices_in_range(indices@, vertex_count as nat)) by {
                if idx1 >= vertex_count {
                    assert(indices@[i as int] as nat >= vertex_count);
                } else if idx2 >= vertex_count {
                    assert(indices@[i + 1] as nat >= vertex_count);
                } else {
                    assert(indices@[i + 2] as nat >= vertex_count);
                }
            }
            return None;
        }
        let tri = [idx1, idx2, idx3];
        assert(tri@ == seq![
            corner(indices@, i as int / 3, 0),
            corner(indices@, i as int / 3, 1),
            corner(indices@, i as int / 3, 2),
        ]);
        tris.push(tri);
        i = i + 3;
    }
    Some(tris)
}

} // verus!
