use vstd::prelude::*;

verus! {

/// The number of whole triangles in a list of `n` vertices or indices. What
/// is left over after the last whole triple is not drawn.
pub open spec fn triangle_count(n: int) -> int {
    n / 3
}

/// Whether every index that belongs to a whole triple names one of
/// `vertex_count` vertices.
pub open spec fn in_range(vertex_count: usize, indices: Seq<usize>) -> bool {
    forall|j: int| 0 <= j < 3 * triangle_count(indices.len() as int) ==> indices[j] < vertex_count
}

/// Groups a list of `vertex_count` vertices into triangles: each run of
/// three vertices is one triangle, in the order of the list.
pub fn triangles(vertex_count: usize) -> (ts: Vec<[usize; 3]>)
    ensures
        ts@.len() == triangle_count(vertex_count as int),
        forall|k: int| 0 <= k < ts@.len() ==> (#[trigger] ts@[k])@[0] == 3 * k,
        forall|k: int| 0 <= k < ts@.len() ==> (#[trigger] ts@[k])@[1] == 3 * k + 1,
        forall|k: int| 0 <= k < ts@.len() ==> (#[trigger] ts@[k])@[2] == 3 * k + 2,
{
    let n: usize = vertex_count / 3;
    let mut ts: Vec<[usize; 3]> = Vec::new();
    let mut k: usize = 0;
    while k < n
        invariant
            k <= n,
            n == vertex_count / 3,
            ts@.len() == k,
            forall|j: int|
                0 <= j < k ==> {
                    &&& (#[trigger] ts@[j])@[0] == 3 * j
                    &&& ts@[j]@[1] == 3 * j + 1
                    &&& ts@[j]@[2] == 3 * j + 2
                },
        decreases n - k,
    {
        let i: usize = k * 3;
        ts.push([i, i + 1, i + 2]);
        k = k + 1;
    }
    ts
}

/// Tells whether every index that belongs to a whole triple names one of
/// `vertex_count` vertices.
pub fn indices_in_range(vertex_count: usize, indices: &[usize]) -> (ok: bool)
    ensures
        ok == in_range(vertex_count, indices@),
{
    let n: usize = indices.len() / 3 * 3;
    let mut j: usize = 0;
    while j < n
        invariant
            j <= n,
            n == 3 * triangle_count(indices@.len() as int),
            n <= indices@.len(),
            forall|i: int| 0 <= i < j ==> indices@[i] < vertex_count,
        decreases n - j,
    {
        if indices[j] >= vertex_count {
            return false;
        }
        j = j + 1;
    }
    true
}

/// Groups an index list into triangles: each run of three indices names the
/// three vertices of one triangle, in the order of the list.
pub fn indexed_triangles(vertex_count: usize, indices: &[usize]) -> (ts: Vec<[usize; 3]>)
    requires
        in_range(vertex_count, indices@),
    ensures
        ts@.len() == triangle_count(indices@.len() as int),
        forall|k: int| 0 <= k < ts@.len() ==> (#[trigger] ts@[k])@[0] == indices@[3 * k],
        forall|k: int| 0 <= k < ts@.len() ==> (#[trigger] ts@[k])@[1] == indices@[3 * k + 1],
        forall|k: int| 0 <= k < ts@.len() ==> (#[trigger] ts@[k])@[2] == indices@[3 * k + 2],
        forall|k: int, c: int|
            0 <= k < ts@.len() && 0 <= c < 3 ==> (#[trigger] ts@[k]@[c]) < vertex_count,
{
    let n: usize = indices.len() / 3;
    let mut ts: Vec<[usize; 3]> = Vec::new();
    let mut k: usize = 0;
    while k < n
        invariant
            k <= n,
            n == indices@.len() / 3,
            3 * n <= indices.len(),
            in_range(vertex_count, indices@),
            ts@.len() == k,
            forall|j: int|
                0 <= j < k ==> {
                    &&& (#[trigger] ts@[j])@[0] == indices@[3 * j]
                    &&& ts@[j]@[1] == indices@[3 * j + 1]
                    &&& ts@[j]@[2] == indices@[3 * j + 2]
                },
            forall|j: int, c: int| 0 <= j < k && 0 <= c < 3 ==> (#[trigger] ts@[j]@[c]) < vertex_count,
        decreases n - k,
    {
        let i: usize = k * 3;
        ts.push([indices[i], indices[i + 1], indices[i + 2]]);
        k = k + 1;
    }
    ts
}

} // verus!
