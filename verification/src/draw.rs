//! Meshes: vertex attributes and index buffers held in an arena.

pub mod merge;
pub mod texture;

use crate::arena::sequence::{
    first_refused, granted_at, lemma_first_refused, lemma_granted_span, lemma_serve_step,
    requests_of, serve, serve_until_refused, Layout, Request,
};
use crate::arena::{images, Arena, ArenaSlice, Span};
use crate::math::{Vec2u, Vec3u, Vec4u};
use crate::plain::Plain;
use vstd::prelude::*;

verus! {

/// What vertex data is: the handles of its three attribute buffers.
pub struct VertexSpec {
    pub positions: Span,
    pub normals: Span,
    pub texcoords: Span,
}

impl VertexSpec {
    /// Number of vertices: that of the positions.
    pub open spec fn len(self) -> nat {
        self.positions.len
    }

    /// Every vertex has a normal and a texture coordinate.
    pub open spec fn is_valid(self) -> bool {
        self.normals.len == self.len() && self.texcoords.len == self.len()
    }
}

/// The attributes of the vertices of a mesh. A position and a normal are
/// three words each, a texture coordinate is two; the words are the bit
/// patterns of the coordinates.
pub struct VertexData {
    positions: ArenaSlice<Vec3u>,
    normals: ArenaSlice<Vec3u>,
    texcoords: ArenaSlice<Vec2u>,
}

impl View for VertexData {
    type V = VertexSpec;

    closed spec fn view(&self) -> VertexSpec {
        VertexSpec {
            positions: self.positions@,
            normals: self.normals@,
            texcoords: self.texcoords@,
        }
    }
}

impl VertexData {
    pub fn new(
        positions: ArenaSlice<Vec3u>,
        normals: ArenaSlice<Vec3u>,
        texcoords: ArenaSlice<Vec2u>,
    ) -> (vertices: VertexData)
        ensures
            vertices@ == (VertexSpec {
                positions: positions@,
                normals: normals@,
                texcoords: texcoords@,
            }),
    {
        VertexData { positions, normals, texcoords }
    }

    pub fn positions(&self) -> (positions: &ArenaSlice<Vec3u>)
        ensures
            positions@ == self@.positions,
    {
        &self.positions
    }

    pub fn normals(&self) -> (normals: &ArenaSlice<Vec3u>)
        ensures
            normals@ == self@.normals,
    {
        &self.normals
    }

    pub fn texcoords(&self) -> (texcoords: &ArenaSlice<Vec2u>)
        ensures
            texcoords@ == self@.texcoords,
    {
        &self.texcoords
    }

    pub fn len(&self) -> (len: usize)
        ensures
            len == self@.len(),
    {
        self.positions.len()
    }

    pub fn is_empty(&self) -> (empty: bool)
        ensures
            empty == (self@.len() == 0),
    {
        self.len() == 0
    }

    pub fn is_valid(&self) -> (valid: bool)
        ensures
            valid == self@.is_valid(),
    {
        let len = self.len();
        if self.normals.len() != len {
            return false;
        }
        if self.texcoords.len() != len {
            return false;
        }
        true
    }
}

/// The kind of primitive that an index buffer describes.
#[derive(Clone, Copy, Debug, PartialEq, Eq, Structural)]
pub enum ElementType {
    Point,
    Line,
    Triangle,
    Quad,
}

/// What an index buffer is: the kind of its primitives, and its handle.
pub struct ElementSpec {
    pub kind: ElementType,
    pub indices: Span,
}

/// An index buffer: one entry for each primitive, holding the indices of
/// its vertices.
pub enum Element {
    Point(ArenaSlice<u32>),
    Line(ArenaSlice<Vec2u>),
    Triangle(ArenaSlice<Vec3u>),
    Quad(ArenaSlice<Vec4u>),
}

impl View for Element {
    type V = ElementSpec;

    open spec fn view(&self) -> ElementSpec {
        match self {
            Element::Point(indices) => ElementSpec { kind: ElementType::Point, indices: indices@ },
            Element::Line(indices) => ElementSpec { kind: ElementType::Line, indices: indices@ },
            Element::Triangle(indices) => ElementSpec {
                kind: ElementType::Triangle,
                indices: indices@,
            },
            Element::Quad(indices) => ElementSpec { kind: ElementType::Quad, indices: indices@ },
        }
    }
}

impl Element {
    /// The kind of primitive.
    pub fn kind(&self) -> (kind: ElementType)
        ensures
            kind == self@.kind,
    {
        match self {
            Element::Point(_) => ElementType::Point,
            Element::Line(_) => ElementType::Line,
            Element::Triangle(_) => ElementType::Triangle,
            Element::Quad(_) => ElementType::Quad,
        }
    }

    /// Number of primitives.
    pub fn len(&self) -> (len: usize)
        ensures
            len == self@.indices.len,
    {
        match self {
            Element::Point(indices) => indices.len(),
            Element::Line(indices) => indices.len(),
            Element::Triangle(indices) => indices.len(),
            Element::Quad(indices) => indices.len(),
        }
    }

    /// Offset of the first primitive from the start of the arena.
    pub fn address(&self) -> (address: usize)
        ensures
            address == self@.indices.address,
    {
        match self {
            Element::Point(indices) => indices.address(),
            Element::Line(indices) => indices.address(),
            Element::Triangle(indices) => indices.address(),
            Element::Quad(indices) => indices.address(),
        }
    }
}

/// What a mesh is.
pub struct MeshSpec {
    pub elements: ElementSpec,
    pub vertices: VertexSpec,
}

/// The vertices of a shape and the primitives that connect them.
pub struct Mesh {
    elements: Element,
    vertices: VertexData,
}

impl View for Mesh {
    type V = MeshSpec;

    closed spec fn view(&self) -> MeshSpec {
        MeshSpec { elements: self.elements@, vertices: self.vertices@ }
    }
}

impl Mesh {
    pub fn new(vertices: VertexData, elements: Element) -> (mesh: Mesh)
        ensures
            mesh@ == (MeshSpec { elements: elements@, vertices: vertices@ }),
    {
        Mesh { vertices, elements }
    }

    /// Number of vertices.
    pub fn len(&self) -> (len: usize)
        ensures
            len == self@.vertices.len(),
    {
        self.vertices.len()
    }

    pub fn is_empty(&self) -> (empty: bool)
        ensures
            empty == (self@.vertices.len() == 0),
    {
        self.vertices.is_empty()
    }

    pub fn is_valid(&self) -> (valid: bool)
        ensures
            valid == self@.vertices.is_valid(),
    {
        self.vertices.is_valid()
    }

    pub fn vertices(&self) -> (vertices: &VertexData)
        ensures
            vertices@ == self@.vertices,
    {
        &self.vertices
    }

    pub fn positions(&self) -> (positions: &ArenaSlice<Vec3u>)
        ensures
            positions@ == self@.vertices.positions,
    {
        self.vertices.positions()
    }

    pub fn normals(&self) -> (normals: &ArenaSlice<Vec3u>)
        ensures
            normals@ == self@.vertices.normals,
    {
        self.vertices.normals()
    }

    pub fn texcoords(&self) -> (texcoords: &ArenaSlice<Vec2u>)
        ensures
            texcoords@ == self@.vertices.texcoords,
    {
        self.vertices.texcoords()
    }

    pub fn elements(&self) -> (elements: &Element)
        ensures
            elements@ == self@.elements,
    {
        &self.elements
    }
}

/// The triangles that a quad splits into: one along its first, second and
/// fourth corner, and a second one unless its last two corners coincide.
pub open spec fn triangles_of_quad(quad: Vec4u) -> Seq<Vec3u> {
    if quad.z != quad.w {
        seq![
            Vec3u { x: quad.x, y: quad.y, z: quad.w },
            Vec3u { x: quad.z, y: quad.w, z: quad.y },
        ]
    } else {
        seq![Vec3u { x: quad.x, y: quad.y, z: quad.w }]
    }
}

/// The triangles that a run of quads splits into, in order.
pub open spec fn triangles_of(quads: Seq<Vec4u>) -> Seq<Vec3u>
    decreases quads.len(),
{
    if quads.len() == 0 {
        Seq::empty()
    } else {
        triangles_of(quads.drop_last()) + triangles_of_quad(quads.last())
    }
}

/// The quad that stands for a triangle: its last corner is repeated.
pub open spec fn quad_of_triangle(triangle: Vec3u) -> Vec4u {
    Vec4u { x: triangle.x, y: triangle.y, z: triangle.z, w: triangle.z }
}

/// A run of quads splits into at least one and at most two triangles each.
pub proof fn lemma_triangles_len(quads: Seq<Vec4u>)
    ensures
        quads.len() <= triangles_of(quads).len() <= 2 * quads.len(),
    decreases quads.len(),
{
    if quads.len() > 0 {
        lemma_triangles_len(quads.drop_last());
    }
}

/// A triangle written as a quad splits back into that triangle alone.
pub proof fn lemma_quad_of_triangle_round_trip(triangle: Vec3u)
    ensures
        triangles_of_quad(quad_of_triangle(triangle)) == seq![triangle],
{
    assert(triangles_of_quad(quad_of_triangle(triangle)) =~= seq![triangle]);
}

/// Splits the given quads into triangles.
fn split_quads(quads: &Vec<Vec4u>) -> (triangles: Vec<Vec3u>)
    ensures
        triangles@ == triangles_of(quads@),
{
    let mut triangles: Vec<Vec3u> = Vec::new();
    let mut i: usize = 0;
    while i < quads.len()
        invariant
            i <= quads.len(),
            triangles@ == triangles_of(quads@.take(i as int)),
        decreases quads.len() - i,
    {
        let quad = quads[i];
        assert(quads@.take(i + 1).drop_last() =~= quads@.take(i as int));
        triangles.push(Vec3u::new(quad.x, quad.y, quad.w));
        if quad.z != quad.w {
            triangles.push(Vec3u::new(quad.z, quad.w, quad.y));
        }
        assert(triangles@ =~= triangles_of(quads@.take(i as int)) + triangles_of_quad(quad));
        i = i + 1;
    }
    assert(quads@.take(quads.len() as int) =~= quads@);
    triangles
}

/// Reserves two triangles for each of `quads` and writes, from the start of
/// what it reserved, the triangles that the quads split into. Fails, and
/// changes nothing, when the arena has no room for them.
pub fn quads_to_triangles(arena: &mut Arena, quads: &ArenaSlice<Vec4u>) -> (triangles: Option<
    ArenaSlice<Vec3u>,
>)
    requires
        old(arena)@.wf(),
        old(arena)@.holds(quads@, 16),
    ensures
        match triangles {
            Some(t) => {
                &&& old(arena)@.granted(4, 12, 2 * quads@.len) == Some(t@)
                &&& final(arena)@ == old(arena)@.reserve(4, 12, 2 * quads@.len).write(
                    t@.address,
                    images(triangles_of(old(arena)@.values::<Vec4u>(quads@))),
                )
            },
            None => {
                &&& !old(arena)@.fits(4, 12, 2 * quads@.len)
                &&& final(arena)@ == old(arena)@
            },
        },
        final(arena)@.wf(),
{
    let count = match quads.len().checked_mul(2) {
        Some(count) => count,
        None => {
            assert((2 * quads@.len) * 12 >= 2 * quads@.len) by (nonlinear_arith);
            return None;
        },
    };
    // every sixteen bytes are the image of a quad
    assert(arena@.decodes::<Vec4u>(quads@)) by {
        assert forall|i: nat| i < quads@.len implies Vec4u::decode(
            #[trigger] arena@.element(quads@, 16, i),
        ) is Some by {
            crate::arena::lemma_element_range(quads@.len, 16, i);
        }
    }
    let corners = arena.read(quads).unwrap();
    let split = split_quads(&corners);
    proof {
        lemma_triangles_len(corners@);
    }
    match arena.allocate::<Vec3u>(count) {
        Some(triangles) => {
            arena.write(&triangles, 0, split.as_slice());
            Some(triangles)
        },
        None => None,
    }
}

/// Reserves one quad for each of `triangles` and writes the quad that stands
/// for each. Fails, and changes nothing, when the arena has no room for
/// them.
pub fn triangles_to_quads(arena: &mut Arena, triangles: ArenaSlice<Vec3u>) -> (quads: Option<
    ArenaSlice<Vec4u>,
>)
    requires
        old(arena)@.wf(),
        old(arena)@.holds(triangles@, 12),
    ensures
        match quads {
            Some(q) => {
                &&& old(arena)@.granted(4, 16, triangles@.len) == Some(q@)
                &&& final(arena)@ == old(arena)@.reserve(4, 16, triangles@.len).write(
                    q@.address,
                    images(
                        old(arena)@.values::<Vec3u>(triangles@).map_values(
                            |t: Vec3u| quad_of_triangle(t),
                        ),
                    ),
                )
            },
            None => {
                &&& !old(arena)@.fits(4, 16, triangles@.len)
                &&& final(arena)@ == old(arena)@
            },
        },
        final(arena)@.wf(),
{
    // every twelve bytes are the image of a triangle
    assert(arena@.decodes::<Vec3u>(triangles@)) by {
        assert forall|i: nat| i < triangles@.len implies Vec3u::decode(
            #[trigger] arena@.element(triangles@, 12, i),
        ) is Some by {
            crate::arena::lemma_element_range(triangles@.len, 12, i);
        }
    }
    let corners = arena.read(&triangles).unwrap();
    let mut widened: Vec<Vec4u> = Vec::with_capacity(corners.len());
    let mut i: usize = 0;
    while i < corners.len()
        invariant
            i <= corners.len(),
            widened@ == corners@.take(i as int).map_values(|t: Vec3u| quad_of_triangle(t)),
        decreases corners.len() - i,
    {
        let triangle = corners[i];
        widened.push(Vec4u::new(triangle.x, triangle.y, triangle.z, triangle.z));
        assert(widened@ =~= corners@.take(i + 1).map_values(|t: Vec3u| quad_of_triangle(t)));
        i = i + 1;
    }
    assert(corners@.take(corners.len() as int) =~= corners@);
    match arena.allocate::<Vec4u>(triangles.len()) {
        Some(quads) => {
            arena.write(&quads, 0, widened.as_slice());
            Some(quads)
        },
        None => None,
    }
}

/// Number of vertices of a grid of `columns` by `rows` cells.
pub open spec fn grid_vertices(columns: nat, rows: nat) -> nat {
    (columns + 1) * (rows + 1)
}

/// The index of the vertex in column `x` of row `y` of a grid of `columns`
/// cells in a row.
pub open spec fn grid_vertex(columns: nat, x: nat, y: nat) -> nat {
    y * (columns + 1) + x
}

/// The quad of cell `k` of a grid, cells counted row by row: its corners
/// in the order lower left, lower right, upper right, upper left.
pub open spec fn grid_quad(columns: nat, k: nat) -> Vec4u {
    let x = k % columns;
    let y = k / columns;
    Vec4u {
        x: grid_vertex(columns, x, y) as u32,
        y: grid_vertex(columns, x + 1, y) as u32,
        z: grid_vertex(columns, x + 1, y + 1) as u32,
        w: grid_vertex(columns, x, y + 1) as u32,
    }
}

/// The quads of a grid of `columns` by `rows` cells.
pub open spec fn grid_quads(columns: nat, rows: nat) -> Seq<Vec4u> {
    Seq::new(columns * rows, |k: int| grid_quad(columns, k as nat))
}

/// The line of cell `k` of a grid of lines, cells counted row by row: from
/// the vertex of the cell to the next one in its row.
pub open spec fn grid_line(columns: nat, k: nat) -> Vec2u {
    let x = k % columns;
    let y = k / columns;
    Vec2u { x: grid_vertex(columns, x, y) as u32, y: grid_vertex(columns, x + 1, y) as u32 }
}

/// The lines of `rows` rows of `columns` segments each.
pub open spec fn grid_lines(columns: nat, rows: nat) -> Seq<Vec2u> {
    Seq::new(columns * rows, |k: int| grid_line(columns, k as nat))
}

/// A vertex of a grid has an index below the number of its vertices.
pub proof fn lemma_grid_vertex_bound(columns: nat, rows: nat, x: nat, y: nat)
    requires
        x <= columns,
        y <= rows,
    ensures
        grid_vertex(columns, x, y) < grid_vertices(columns, rows),
{
    assert(y * (columns + 1) + x < (columns + 1) * (y + 1)) by (nonlinear_arith)
        requires
            x <= columns,
    ;
    assert((columns + 1) * (y + 1) <= (columns + 1) * (rows + 1)) by (nonlinear_arith)
        requires
            y <= rows,
    ;
}

/// Every corner of every quad of a grid is a vertex of the grid.
pub proof fn lemma_grid_quads_in_range(columns: nat, rows: nat, k: int)
    requires
        0 <= k < columns * rows,
        grid_vertices(columns, rows) <= u32::MAX,
    ensures
        grid_quads(columns, rows)[k].x < grid_vertices(columns, rows),
        grid_quads(columns, rows)[k].y < grid_vertices(columns, rows),
        grid_quads(columns, rows)[k].z < grid_vertices(columns, rows),
        grid_quads(columns, rows)[k].w < grid_vertices(columns, rows),
{
    assert(columns > 0) by (nonlinear_arith)
        requires
            0 <= k < columns * rows,
    ;
    let x = (k % columns as int) as nat;
    let y = (k / columns as int) as nat;
    vstd::arithmetic::div_mod::lemma_fundamental_div_mod(k, columns as int);
    assert(y < rows) by (nonlinear_arith)
        requires
            k == columns * y + x,
            k < columns * rows,
            x >= 0,
            columns > 0,
    ;
    lemma_grid_vertex_bound(columns, rows, x, y);
    lemma_grid_vertex_bound(columns, rows, x + 1, y);
    lemma_grid_vertex_bound(columns, rows, x + 1, y + 1);
    lemma_grid_vertex_bound(columns, rows, x, y + 1);
}

/// Cell `y * columns + x` lies in column `x` of row `y`.
pub proof fn lemma_grid_cell(columns: nat, x: nat, y: nat)
    requires
        x < columns,
    ensures
        (y * columns + x) % columns == x,
        (y * columns + x) / columns == y,
{
    vstd::arithmetic::div_mod::lemma_fundamental_div_mod_converse(
        (y * columns + x) as int,
        columns as int,
        y as int,
        x as int,
    );
    assert(columns * y == y * columns) by (nonlinear_arith);
}

/// The quads of a grid of `columns` by `rows` cells, row by row.
fn quad_indices(columns: u32, rows: u32) -> (quads: Vec<Vec4u>)
    requires
        (columns + 1) * (rows + 1) <= u32::MAX,
    ensures
        quads@ == grid_quads(columns as nat, rows as nat),
{
    let mut quads: Vec<Vec4u> = Vec::new();
    let ghost c = columns as nat;
    let ghost r = rows as nat;
    let mut y: u32 = 0;
    // index of the first vertex of row `y`
    let mut base: u32 = 0;
    proof {
        assert(0 * c == 0) by (nonlinear_arith);
        assert(0 * (c + 1) == 0) by (nonlinear_arith);
    }
    while y < rows
        invariant
            y <= rows,
            c == columns,
            r == rows,
            (c + 1) * (r + 1) <= u32::MAX,
            base == y * (c + 1),
            quads@.len() == y * c,
            forall|k: int| 0 <= k < quads@.len() ==> #[trigger] quads@[k] == grid_quad(c, k as nat),
        decreases rows - y,
    {
        proof {
            // the row above row `y` has indices that fit
            assert((y + 2) * (c + 1) <= (c + 1) * (r + 1)) by (nonlinear_arith)
                requires
                    y + 1 <= r,
            ;
            assert((y + 2) * (c + 1) == y * (c + 1) + (c + 1) + (c + 1)) by (nonlinear_arith);
            assert((y + 1) * (c + 1) == y * (c + 1) + (c + 1)) by (nonlinear_arith);
        }
        let above: u32 = base + (columns + 1);
        let mut x: u32 = 0;
        while x < columns
            invariant
                x <= columns,
                c == columns,
                base == y * (c + 1),
                above == base + (c + 1),
                above == (y + 1) * (c + 1),
                above + c + 1 <= u32::MAX,
                quads@.len() == y * c + x,
                forall|k: int|
                    0 <= k < quads@.len() ==> #[trigger] quads@[k] == grid_quad(c, k as nat),
            decreases columns - x,
        {
            proof {
                lemma_grid_cell(c, x as nat, y as nat);
            }
            quads.push(Vec4u::new(base + x, base + (x + 1), above + (x + 1), above + x));
            x = x + 1;
        }
        proof {
            assert((y + 1) * c == y * c + c) by (nonlinear_arith);
        }
        base = above;
        y = y + 1;
    }
    proof {
        assert(r * c == c * r) by (nonlinear_arith);
        assert(quads@ =~= grid_quads(c, r));
    }
    quads
}

/// The lines of `rows` rows of `columns` segments each, row by row.
fn line_indices(columns: u32, rows: u32) -> (lines: Vec<Vec2u>)
    requires
        (columns + 1) * rows <= u32::MAX,
    ensures
        lines@ == grid_lines(columns as nat, rows as nat),
{
    let mut lines: Vec<Vec2u> = Vec::new();
    let ghost c = columns as nat;
    let ghost r = rows as nat;
    let mut y: u32 = 0;
    // index of the first vertex of row `y`
    let mut base: u32 = 0;
    proof {
        assert(0 * c == 0) by (nonlinear_arith);
        assert(0 * (c + 1) == 0) by (nonlinear_arith);
    }
    while y < rows
        invariant
            y <= rows,
            c == columns,
            r == rows,
            (c + 1) * r <= u32::MAX,
            base == y * (c + 1),
            lines@.len() == y * c,
            forall|k: int| 0 <= k < lines@.len() ==> #[trigger] lines@[k] == grid_line(c, k as nat),
        decreases rows - y,
    {
        proof {
            assert((y + 1) * (c + 1) <= (c + 1) * r) by (nonlinear_arith)
                requires
                    y + 1 <= r,
            ;
            assert((y + 1) * (c + 1) == y * (c + 1) + (c + 1)) by (nonlinear_arith);
        }
        let mut x: u32 = 0;
        while x < columns
            invariant
                x <= columns,
                c == columns,
                base == y * (c + 1),
                base + c + 1 <= u32::MAX,
                lines@.len() == y * c + x,
                forall|k: int|
                    0 <= k < lines@.len() ==> #[trigger] lines@[k] == grid_line(c, k as nat),
            decreases columns - x,
        {
            proof {
                lemma_grid_cell(c, x as nat, y as nat);
            }
            lines.push(Vec2u::new(base + x, base + (x + 1)));
            x = x + 1;
        }
        proof {
            assert((y + 1) * c == y * c + c) by (nonlinear_arith);
        }
        base = base + (columns + 1);
        y = y + 1;
    }
    proof {
        assert(r * c == c * r) by (nonlinear_arith);
        assert(lines@ =~= grid_lines(c, r));
    }
    lines
}

/// The buffers that a grid of quads takes, in the order in which they are
/// reserved: positions, normals, texture coordinates and quads.
pub open spec fn quad_requests(steps: Vec2u) -> Seq<Request> {
    let vertices = grid_vertices(steps.x as nat, steps.y as nat);
    seq![
        Request { align: 4, size: 12, count: vertices },
        Request { align: 4, size: 12, count: vertices },
        Request { align: 4, size: 8, count: vertices },
        Request { align: 4, size: 16, count: steps.x as nat * steps.y as nat },
    ]
}

/// Reserves the buffers of a grid of `steps.x` by `steps.y` quads and writes
/// its quads. The attributes of its vertices are reserved and left as they
/// are. Stops at the first buffer that the arena has no room for.
pub fn make_quads(arena: &mut Arena, steps: Vec2u) -> (mesh: Option<Mesh>)
    requires
        old(arena)@.wf(),
        (steps.x + 1) * (steps.y + 1) <= u32::MAX,
    ensures
        match mesh {
            Some(m) => {
                let requests = quad_requests(steps);
                &&& first_refused(old(arena)@, requests) == 4
                &&& m@ == (MeshSpec {
                    vertices: VertexSpec {
                        positions: granted_at(old(arena)@, requests, 0),
                        normals: granted_at(old(arena)@, requests, 1),
                        texcoords: granted_at(old(arena)@, requests, 2),
                    },
                    elements: ElementSpec {
                        kind: ElementType::Quad,
                        indices: granted_at(old(arena)@, requests, 3),
                    },
                })
                &&& final(arena)@ == serve(old(arena)@, requests).write(
                    granted_at(old(arena)@, requests, 3).address,
                    images(grid_quads(steps.x as nat, steps.y as nat)),
                )
            },
            None => {
                &&& first_refused(old(arena)@, quad_requests(steps)) < 4
                &&& final(arena)@ == serve_until_refused(old(arena)@, quad_requests(steps))
            },
        },
        final(arena)@.wf(),
{
    let ghost requests = quad_requests(steps);
    let ghost before = arena@;
    proof {
        assert(steps.x as nat * steps.y as nat <= (steps.x + 1) * (steps.y + 1))
            by (nonlinear_arith);
        assert(steps.x as nat * steps.y as nat >= 0) by (nonlinear_arith);
        assert(steps.x + 1 <= (steps.x + 1) * (steps.y + 1)) by (nonlinear_arith);
        assert(steps.y + 1 <= (steps.x + 1) * (steps.y + 1)) by (nonlinear_arith);
    }
    let vertices = ((steps.x + 1) * (steps.y + 1)) as usize;
    let cells = (steps.x * steps.y) as usize;
    let layouts = [
        Layout { align: 4, size: 12, count: vertices },
        Layout { align: 4, size: 12, count: vertices },
        Layout { align: 4, size: 8, count: vertices },
        Layout { align: 4, size: 16, count: cells },
    ];
    assert(requests_of(layouts@) =~= requests);
    let starts = match arena.reserve_all(layouts.as_slice()) {
        Some(starts) => starts,
        None => {
            return None;
        },
    };
    proof {
        lemma_first_refused(before, requests);
        assert(requests.take(4) =~= requests);
        lemma_granted_span(before, requests, 0);
        lemma_granted_span(before, requests, 1);
        lemma_granted_span(before, requests, 2);
        lemma_granted_span(before, requests, 3);
        lemma_serve_step(before, requests, 3);
    }
    let positions = ArenaSlice::<Vec3u>::at(arena, starts[0], vertices);
    let normals = ArenaSlice::<Vec3u>::at(arena, starts[1], vertices);
    let texcoords = ArenaSlice::<Vec2u>::at(arena, starts[2], vertices);
    let quads = ArenaSlice::<Vec4u>::at(arena, starts[3], cells);
    let corners = quad_indices(steps.x, steps.y);
    arena.write(&quads, 0, corners.as_slice());
    Some(Mesh::new(VertexData::new(positions, normals, texcoords), Element::Quad(quads)))
}

/// A rectangle is a grid of quads.
pub fn make_rect(arena: &mut Arena, steps: Vec2u) -> (mesh: Option<Mesh>)
    requires
        old(arena)@.wf(),
        (steps.x + 1) * (steps.y + 1) <= u32::MAX,
    ensures
        match mesh {
            Some(m) => {
                let requests = quad_requests(steps);
                &&& first_refused(old(arena)@, requests) == 4
                &&& m@ == (MeshSpec {
                    vertices: VertexSpec {
                        positions: granted_at(old(arena)@, requests, 0),
                        normals: granted_at(old(arena)@, requests, 1),
                        texcoords: granted_at(old(arena)@, requests, 2),
                    },
                    elements: ElementSpec {
                        kind: ElementType::Quad,
                        indices: granted_at(old(arena)@, requests, 3),
                    },
                })
                &&& final(arena)@ == serve(old(arena)@, requests).write(
                    granted_at(old(arena)@, requests, 3).address,
                    images(grid_quads(steps.x as nat, steps.y as nat)),
                )
            },
            None => {
                &&& first_refused(old(arena)@, quad_requests(steps)) < 4
                &&& final(arena)@ == serve_until_refused(old(arena)@, quad_requests(steps))
            },
        },
        final(arena)@.wf(),
{
    make_quads(arena, steps)
}

/// The buffers that a grid of lines takes, in the order in which they are
/// reserved: positions, normals, texture coordinates, one word of radius for
/// each vertex, and lines.
pub open spec fn line_requests(steps: Vec2u) -> Seq<Request> {
    let vertices = (steps.x + 1) * steps.y;
    seq![
        Request { align: 4, size: 12, count: vertices as nat },
        Request { align: 4, size: 12, count: vertices as nat },
        Request { align: 4, size: 8, count: vertices as nat },
        Request { align: 4, size: 4, count: vertices as nat },
        Request { align: 4, size: 8, count: steps.x as nat * steps.y as nat },
    ]
}

/// Reserves the buffers of `steps.y` rows of `steps.x` line segments each
/// and writes its lines. The attributes of its vertices are reserved and
/// left as they are. Stops at the first buffer that the arena has no room
/// for.
pub fn make_lines(arena: &mut Arena, steps: Vec2u) -> (mesh: Option<Mesh>)
    requires
        old(arena)@.wf(),
        (steps.x + 1) * steps.y <= u32::MAX,
    ensures
        match mesh {
            Some(m) => {
                let requests = line_requests(steps);
                &&& first_refused(old(arena)@, requests) == 5
                &&& m@ == (MeshSpec {
                    vertices: VertexSpec {
                        positions: granted_at(old(arena)@, requests, 0),
                        normals: granted_at(old(arena)@, requests, 1),
                        texcoords: granted_at(old(arena)@, requests, 2),
                    },
                    elements: ElementSpec {
                        kind: ElementType::Line,
                        indices: granted_at(old(arena)@, requests, 4),
                    },
                })
                &&& final(arena)@ == serve(old(arena)@, requests).write(
                    granted_at(old(arena)@, requests, 4).address,
                    images(grid_lines(steps.x as nat, steps.y as nat)),
                )
            },
            None => {
                &&& first_refused(old(arena)@, line_requests(steps)) < 5
                &&& final(arena)@ == serve_until_refused(old(arena)@, line_requests(steps))
            },
        },
        final(arena)@.wf(),
{
    let ghost requests = line_requests(steps);
    let ghost before = arena@;
    proof {
        assert(steps.x as nat * steps.y as nat <= (steps.x + 1) * steps.y) by (nonlinear_arith);
        assert(steps.x as nat * steps.y as nat >= 0) by (nonlinear_arith);
    }
    if steps.y == 0 {
        assert((steps.x + 1) * steps.y == 0) by (nonlinear_arith)
            requires
                steps.y == 0,
        ;
    } else {
        assert(steps.x + 1 <= (steps.x + 1) * steps.y) by (nonlinear_arith)
            requires
                steps.y >= 1,
        ;
    }
    let vertices = if steps.y == 0 {
        0
    } else {
        ((steps.x + 1) * steps.y) as usize
    };
    let cells = (steps.x * steps.y) as usize;
    let layouts = [
        Layout { align: 4, size: 12, count: vertices },
        Layout { align: 4, size: 12, count: vertices },
        Layout { align: 4, size: 8, count: vertices },
        Layout { align: 4, size: 4, count: vertices },
        Layout { align: 4, size: 8, count: cells },
    ];
    assert(requests_of(layouts@) =~= requests);
    let starts = match arena.reserve_all(layouts.as_slice()) {
        Some(starts) => starts,
        None => {
            return None;
        },
    };
    proof {
        lemma_first_refused(before, requests);
        assert(requests.take(5) =~= requests);
        lemma_granted_span(before, requests, 0);
        lemma_granted_span(before, requests, 1);
        lemma_granted_span(before, requests, 2);
        lemma_granted_span(before, requests, 4);
        lemma_serve_step(before, requests, 4);
    }
    let positions = ArenaSlice::<Vec3u>::at(arena, starts[0], vertices);
    let normals = ArenaSlice::<Vec3u>::at(arena, starts[1], vertices);
    let texcoords = ArenaSlice::<Vec2u>::at(arena, starts[2], vertices);
    let lines = ArenaSlice::<Vec2u>::at(arena, starts[4], cells);
    let corners = line_indices(steps.x, steps.y);
    arena.write(&lines, 0, corners.as_slice());
    Some(Mesh::new(VertexData::new(positions, normals, texcoords), Element::Line(lines)))
}

} // verus!
