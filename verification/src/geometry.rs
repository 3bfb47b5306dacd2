//! Index buffers of a geometry.

use vstd::prelude::*;
use crate::error::Error;

verus! {

/// An array of indices, in one of several integer widths.
#[derive(Clone, Debug)]
pub enum Indices {
    /// No indices: the faces are all unconnected.
    Unindexed,
    /// An unsigned 8 bit integer for each index.
    U8(Vec<u8>),
    /// An unsigned 16 bit integer for each index.
    U16(Vec<u16>),
    /// An unsigned 32 bit integer for each index.
    U32(Vec<u32>),
}

impl View for Indices {
    type V = Option<Seq<int>>;

    /// The indices as numbers, whatever their width; `None` without indices.
    open spec fn view(&self) -> Option<Seq<int>> {
        match self {
            Indices::Unindexed => None,
            Indices::U8(values) => Some(values@.map_values(|i: u8| i as int)),
            Indices::U16(values) => Some(values@.map_values(|i: u16| i as int)),
            Indices::U32(values) => Some(values@.map_values(|i: u32| i as int)),
        }
    }
}

/// The numbers of a sequence of 32 bit indices.
pub open spec fn numbers(values: Seq<u32>) -> Seq<int> {
    values.map_values(|i: u32| i as int)
}

/// Every value of `values`, widened to 32 bits.
fn widen_u8(values: &Vec<u8>) -> (wide: Vec<u32>)
    ensures
        numbers(wide@) == values@.map_values(|i: u8| i as int),
{
    let mut wide: Vec<u32> = Vec::new();
    let mut k: usize = 0;
    while k < values.len()
        invariant
            k <= values.len(),
            wide@.len() == k,
            forall|j: int| 0 <= j < k ==> wide@[j] == values@[j],
        decreases values.len() - k,
    {
        wide.push(values[k] as u32);
        k += 1;
    }
    proof {
        assert(numbers(wide@) =~= values@.map_values(|i: u8| i as int));
    }
    wide
}

/// Every value of `values`, widened to 32 bits.
fn widen_u16(values: &Vec<u16>) -> (wide: Vec<u32>)
    ensures
        numbers(wide@) == values@.map_values(|i: u16| i as int),
{
    let mut wide: Vec<u32> = Vec::new();
    let mut k: usize = 0;
    while k < values.len()
        invariant
            k <= values.len(),
            wide@.len() == k,
            forall|j: int| 0 <= j < k ==> wide@[j] == values@[j],
        decreases values.len() - k,
    {
        wide.push(values[k] as u32);
        k += 1;
    }
    proof {
        assert(numbers(wide@) =~= values@.map_values(|i: u16| i as int));
    }
    wide
}

/// A copy of `values`.
fn copy_u32(values: &Vec<u32>) -> (copy: Vec<u32>)
    ensures
        copy@ == values@,
{
    let mut copy: Vec<u32> = Vec::new();
    let mut k: usize = 0;
    while k < values.len()
        invariant
            k <= values.len(),
            copy@ == values@.take(k as int),
        decreases values.len() - k,
    {
        copy.push(values[k]);
        proof {
            assert(values@.take(k + 1) =~= values@.take(k as int).push(values@[k as int]));
        }
        k += 1;
    }
    proof {
        assert(values@.take(values@.len() as int) =~= values@);
    }
    copy
}

impl Indices {
    /// Converts the indices into 32 bit integers, in the same order.
    /// `None` if there are no indices.
    pub fn into_u32(self) -> (wide: Option<Vec<u32>>)
        ensures
            match wide {
                Some(values) => self@ == Some(numbers(values@)),
                None => self@ is None,
            },
    {
        match self {
            Indices::Unindexed => None,
            Indices::U8(values) => Some(widen_u8(&values)),
            Indices::U16(values) => Some(widen_u16(&values)),
            Indices::U32(values) => Some(values),
        }
    }

    /// Copies the indices as 32 bit integers, in the same order. `None` if
    /// there are no indices.
    pub fn to_u32(&self) -> (wide: Option<Vec<u32>>)
        ensures
            match wide {
                Some(values) => self@ == Some(numbers(values@)),
                None => self@ is None,
            },
    {
        match self {
            Indices::Unindexed => None,
            Indices::U8(values) => Some(widen_u8(values)),
            Indices::U16(values) => Some(widen_u16(values)),
            Indices::U32(values) => Some(copy_u32(values)),
        }
    }

    /// The number of indices. `None` if there are no indices.
    pub fn len(&self) -> (count: Option<usize>)
        ensures
            match count {
                Some(n) => self@ matches Some(values) && values.len() == n,
                None => self@ is None,
            },
    {
        match self {
            Indices::Unindexed => None,
            Indices::U8(values) => Some(values.len()),
            Indices::U16(values) => Some(values.len()),
            Indices::U32(values) => Some(values.len()),
        }
    }

    /// Whether there is no index at all: none were given, or an empty array.
    pub fn is_empty(&self) -> (empty: bool)
        ensures
            empty == match self@ {
                Some(values) => values.len() == 0,
                None => true,
            },
    {
        match self.len() {
            Some(n) => n == 0,
            None => true,
        }
    }
}

impl Default for Indices {
    fn default() -> (indices: Self)
        ensures
            indices@ is None,
    {
        Indices::Unindexed
    }
}

/// The lengths of the vertex buffers of a triangle mesh.
#[derive(Debug, Copy, Clone, PartialEq, Eq)]
pub struct MeshBuffers {
    /// The number of positions, which is the number of vertices.
    pub positions: usize,
    /// The number of normals, if the mesh has normals.
    pub normals: Option<usize>,
    /// The number of tangents, if the mesh has tangents.
    pub tangents: Option<usize>,
    /// The number of colors, if the mesh has colors.
    pub colors: Option<usize>,
    /// The number of uv coordinates, if the mesh has uv coordinates.
    pub uvs: Option<usize>,
}

/// The largest of `values`; `values` must not be empty.
pub open spec fn largest_of(values: Seq<int>) -> int
    recommends
        values.len() > 0,
    decreases values.len(),
{
    if values.len() <= 1 {
        values[0]
    } else if values.last() >= largest_of(values.drop_last()) {
        values.last()
    } else {
        largest_of(values.drop_last())
    }
}

/// The largest value is one of the values, and none is larger.
pub proof fn lemma_largest_of(values: Seq<int>)
    requires
        values.len() > 0,
    ensures
        values.contains(largest_of(values)),
        forall|i: int| 0 <= i < values.len() ==> values[i] <= largest_of(values),
    decreases values.len(),
{
    if values.len() > 1 {
        let shorter = values.drop_last();
        lemma_largest_of(shorter);
        let at = shorter.index_of(largest_of(shorter));
        assert(values[at] == largest_of(shorter));
        assert(values[values.len() - 1] == values.last());
        assert forall|i: int| 0 <= i < values.len() implies values[i] <= largest_of(values) by {
            if i < shorter.len() {
                assert(shorter[i] == values[i]);
            }
        }
    } else {
        assert(values[0] == largest_of(values));
    }
}

/// A buffer is too short for the vertices.
pub open spec fn too_short(length: Option<usize>, vertices: usize) -> bool {
    length matches Some(n) && n < vertices
}

/// The number of triangles of a mesh with the given indices and number of
/// positions: a third of the number of indices, or of positions where there
/// are no indices.
pub open spec fn triangles_of(indices: Option<Seq<int>>, positions: usize) -> int {
    match indices {
        Some(values) => values.len() as int / 3,
        None => positions as int / 3,
    }
}

/// The three vertices of the triangle `face`: three indices in a row, or
/// three positions in a row where there are no indices.
pub open spec fn corners_of(indices: Option<Seq<int>>, face: int) -> (int, int, int) {
    match indices {
        Some(values) => (values[3 * face], values[3 * face + 1], values[3 * face + 2]),
        None => (3 * face, 3 * face + 1, 3 * face + 2),
    }
}

impl Indices {
    /// The index at position `at`; there must be indices, and more than `at`.
    pub fn get(&self, at: usize) -> (index: usize)
        requires
            self@ matches Some(values) && at < values.len(),
        ensures
            self@ matches Some(values) && index == values[at as int],
    {
        match self {
            Indices::Unindexed => 0,
            Indices::U8(values) => values[at] as usize,
            Indices::U16(values) => values[at] as usize,
            Indices::U32(values) => values[at] as usize,
        }
    }

    /// The largest index; `None` if there is no index.
    pub fn largest(&self) -> (found: Option<usize>)
        ensures
            match found {
                Some(index) => self@ matches Some(values) && values.len() > 0 && index
                    == largest_of(values),
                None => match self@ {
                    Some(values) => values.len() == 0,
                    None => true,
                },
            },
    {
        let count = match self.len() {
            Some(n) => n,
            None => {
                return None;
            },
        };
        if count == 0 {
            return None;
        }
        let ghost values = self@->0;
        let mut largest: usize = self.get(0);
        let mut i: usize = 1;
        proof {
            assert(values.take(1).len() == 1);
        }
        while i < count
            invariant
                1 <= i <= count,
                self@ == Some(values),
                count == values.len(),
                largest == largest_of(values.take(i as int)),
            decreases count - i,
        {
            let index = self.get(i);
            proof {
                assert(values.take(i + 1).drop_last() =~= values.take(i as int));
                assert(values.take(i + 1).last() == values[i as int]);
            }
            if index >= largest {
                largest = index;
            }
            i += 1;
        }
        proof {
            assert(values.take(count as int) =~= values);
        }
        Some(largest)
    }
}

/// Checks that the indices and buffers of a triangle mesh fit together.
/// The checks are made in this order, and the first that fails gives the
/// error: the number of indices is divisible by three
/// (`InvalidNumberOfIndices`); every index is less than the number of
/// vertices (`InvalidIndices`, with the largest index); then the normals,
/// the tangents, the colors and the uv coordinates, where there are any,
/// are at least as many as the vertices (`InvalidBufferLength`).
pub fn validate(indices: &Indices, buffers: &MeshBuffers) -> (valid: Result<(), Error>)
    ensures
        match valid {
            Ok(_) => {
                &&& indices@ matches Some(values) ==> values.len() % 3 == 0 && forall|i: int|
                    0 <= i < values.len() ==> values[i] < buffers.positions
                &&& !too_short(buffers.normals, buffers.positions)
                &&& !too_short(buffers.tangents, buffers.positions)
                &&& !too_short(buffers.colors, buffers.positions)
                &&& !too_short(buffers.uvs, buffers.positions)
            },
            Err(e) => if indices@ matches Some(values) && values.len() % 3 != 0 {
                e matches Error::InvalidNumberOfIndices(n) && n == (indices@->0).len()
            } else if indices@ matches Some(values) && values.len() > 0 && largest_of(values)
                >= buffers.positions {
                e matches Error::InvalidIndices(index, vertices) && index == largest_of(
                    indices@->0,
                ) && vertices == buffers.positions
            } else if too_short(buffers.normals, buffers.positions) {
                e.is_invalid_buffer_length("normal"@, buffers.positions, buffers.normals->0)
            } else if too_short(buffers.tangents, buffers.positions) {
                e.is_invalid_buffer_length("tangent"@, buffers.positions, buffers.tangents->0)
            } else if too_short(buffers.colors, buffers.positions) {
                e.is_invalid_buffer_length("color"@, buffers.positions, buffers.colors->0)
            } else {
                too_short(buffers.uvs, buffers.positions) && e.is_invalid_buffer_length(
                    "uv coordinate"@,
                    buffers.positions,
                    buffers.uvs->0,
                )
            },
        },
{
    if let Some(count) = indices.len() {
        if count % 3 != 0 {
            return Err(Error::InvalidNumberOfIndices(count));
        }
    }
    let vertices = buffers.positions;
    if let Some(index) = indices.largest() {
        if index >= vertices {
            return Err(Error::InvalidIndices(index, vertices));
        }
        proof {
            lemma_largest_of(indices@->0);
        }
    }
    check_buffer(buffers.normals, vertices, "normal")?;
    check_buffer(buffers.tangents, vertices, "tangent")?;
    check_buffer(buffers.colors, vertices, "color")?;
    check_buffer(buffers.uvs, vertices, "uv coordinate")?;
    Ok(())
}

/// Checks that a buffer, if there is one, is at least as long as the
/// vertices are many.
fn check_buffer(length: Option<usize>, vertices: usize, name: &str) -> (checked: Result<(), Error>)
    ensures
        match checked {
            Ok(_) => !too_short(length, vertices),
            Err(e) => too_short(length, vertices) && e.is_invalid_buffer_length(
                name@,
                vertices,
                length->0,
            ),
        },
{
    if let Some(n) = length {
        if n < vertices {
            return Err(Error::InvalidBufferLength(String::from_str(name), vertices, n));
        }
    }
    Ok(())
}

/// The number of triangles of a mesh with the given indices and number of
/// positions.
pub fn triangle_count(indices: &Indices, positions: usize) -> (count: usize)
    ensures
        count == triangles_of(indices@, positions),
{
    match indices.len() {
        Some(n) => n / 3,
        None => positions / 3,
    }
}

/// The three vertices of the triangle `face` of a mesh with the given
/// indices and number of positions.
pub fn triangle(indices: &Indices, positions: usize, face: usize) -> (corners: (
    usize,
    usize,
    usize,
))
    requires
        face < triangles_of(indices@, positions),
    ensures
        (corners.0 as int, corners.1 as int, corners.2 as int) == corners_of(
            indices@,
            face as int,
        ),
{
    match indices.len() {
        Some(_) => (indices.get(face * 3), indices.get(face * 3 + 1), indices.get(face * 3 + 2)),
        None => (face * 3, face * 3 + 1, face * 3 + 2),
    }
}

} // verus!
