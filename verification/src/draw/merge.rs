//! Merging meshes of one kind into a single mesh.

use crate::arena::sequence::{
    first_refused, granted_at, lemma_first_refused_is, lemma_granted_span,
    lemma_serve_grows, lemma_serve_keeps_region, lemma_serve_step, requests_of, serve,
    serve_until_refused, served, Layout, Request,
};
use crate::arena::{
    images, lemma_images_len, lemma_images_take, Arena, ArenaSlice, ArenaState, Span,
};
use crate::draw::{
    Element, ElementSpec, ElementType, Mesh, MeshSpec, VertexData, VertexSpec,
};
use crate::math::{Vec2u, Vec3u, Vec4u};
use crate::plain::{u32_image, u32_value, Plain};
use vstd::prelude::*;

verus! {

/// Number of indices that a primitive of the given kind has.
pub open spec fn arity(kind: ElementType) -> nat {
    match kind {
        ElementType::Point => 1,
        ElementType::Line => 2,
        ElementType::Triangle => 3,
        ElementType::Quad => 4,
    }
}

/// Number of indices that a primitive of the given kind has.
pub fn arity_of(kind: ElementType) -> (n: usize)
    ensures
        n == arity(kind),
{
    match kind {
        ElementType::Point => 1,
        ElementType::Line => 2,
        ElementType::Triangle => 3,
        ElementType::Quad => 4,
    }
}

/// Number of primitives of all the meshes together.
pub open spec fn element_total(meshes: Seq<MeshSpec>) -> nat
    decreases meshes.len(),
{
    if meshes.len() == 0 {
        0
    } else {
        element_total(meshes.drop_last()) + meshes.last().elements.indices.len
    }
}

/// Number of vertices of all the meshes together.
pub open spec fn vertex_total(meshes: Seq<MeshSpec>) -> nat
    decreases meshes.len(),
{
    if meshes.len() == 0 {
        0
    } else {
        vertex_total(meshes.drop_last()) + meshes.last().vertices.len()
    }
}

/// The meshes as specifications see them.
pub open spec fn specs_of(meshes: Seq<Mesh>) -> Seq<MeshSpec> {
    Seq::new(meshes.len(), |i: int| meshes[i]@)
}

/// Whether every mesh has primitives of the given kind.
pub open spec fn of_kind(meshes: Seq<MeshSpec>, kind: ElementType) -> bool {
    forall|i: int| 0 <= i < meshes.len() ==> (#[trigger] meshes[i]).elements.kind == kind
}

/// Whether there is anything to merge: there is a mesh, all meshes are of
/// the given kind, and together they have a primitive and a vertex.
pub open spec fn mergeable(meshes: Seq<MeshSpec>, kind: ElementType) -> bool {
    &&& meshes.len() > 0
    &&& of_kind(meshes, kind)
    &&& element_total(meshes) > 0
    &&& vertex_total(meshes) > 0
}

/// The buffers that the merged mesh takes, in the order in which they are
/// reserved: primitives, positions, normals and texture coordinates.
pub open spec fn merge_requests(meshes: Seq<MeshSpec>, kind: ElementType) -> Seq<Request> {
    seq![
        Request { align: 4, size: 4 * arity(kind), count: element_total(meshes) },
        Request { align: 4, size: 12, count: vertex_total(meshes) },
        Request { align: 4, size: 12, count: vertex_total(meshes) },
        Request { align: 4, size: 8, count: vertex_total(meshes) },
    ]
}

/// The low thirty-two bits of a count.
pub open spec fn low_word(n: nat) -> u32 {
    (n % 0x1_0000_0000) as u32
}

/// The low thirty-two bits of `n`.
pub fn low_word_of(n: usize) -> (word: u32)
    ensures
        word == low_word(n as nat),
{
    (n as u64 % 0x1_0000_0000) as u32
}

/// The words that `bytes` hold, four bytes each, least significant first.
pub open spec fn words_in(bytes: Seq<u8>) -> Seq<u32> {
    Seq::new(bytes.len() / 4, |j: int| u32_value(bytes.subrange(4 * j, 4 * j + 4)))
}

/// The images of words hold those words.
pub proof fn lemma_words_in_images(words: Seq<u32>)
    ensures
        images(words).len() == 4 * words.len(),
        words_in(images(words)) == words,
    decreases words.len(),
{
    lemma_images_len(words);
    if words.len() > 0 {
        let front = words.drop_last();
        lemma_words_in_images(front);
        lemma_images_len(front);
        let all = images(words);
        assert(all == images(front) + u32_image(words.last()));
        assert forall|j: int| 0 <= j < words.len() implies #[trigger] words_in(all)[j]
            == words[j] by {
            if j < front.len() {
                assert(all.subrange(4 * j, 4 * j + 4) =~= images(front).subrange(
                    4 * j,
                    4 * j + 4,
                ));
                assert(words_in(images(front))[j] == front[j]);
            } else {
                assert(all.subrange(4 * j, 4 * j + 4) =~= u32_image(words.last()));
                words.last().lemma_decode_image();
            }
        }
        assert(words_in(all) =~= words);
    } else {
        assert(words_in(images(words)) =~= words);
    }
}

/// Reads the words that `bytes` hold.
pub fn decode_words(bytes: &[u8]) -> (words: Vec<u32>)
    ensures
        words@ == words_in(bytes@),
{
    let count = bytes.len() / 4;
    let mut words: Vec<u32> = Vec::with_capacity(count);
    let mut j: usize = 0;
    while j < count
        invariant
            j <= count,
            count == bytes@.len() / 4,
            4 * count <= bytes.len(),
            words@.len() == j,
            forall|k: int| 0 <= k < j ==> #[trigger] words@[k] == words_in(bytes@)[k],
        decreases count - j,
    {
        // four bytes always hold a word
        let word = u32::load(bytes, 4 * j).unwrap();
        words.push(word);
        j = j + 1;
    }
    assert(words@ =~= words_in(bytes@));
    words
}

/// Writes the images of `words`, one after the other.
pub fn encode_words(words: &Vec<u32>) -> (bytes: Vec<u8>)
    requires
        4 * words@.len() <= usize::MAX,
    ensures
        bytes@ == images(words@),
{
    proof {
        lemma_images_len(words@);
    }
    let mut bytes: Vec<u8> = vec![0u8; 4 * words.len()];
    let ghost zeros = bytes@;
    let mut j: usize = 0;
    assert(words@.take(0) =~= Seq::<u32>::empty());
    while j < words.len()
        invariant
            j <= words@.len(),
            4 * words@.len() <= usize::MAX,
            bytes@.len() == 4 * words@.len(),
            bytes@.subrange(0, 4 * j as int) == images(words@.take(j as int)),
        decreases words@.len() - j,
    {
        let ghost before = bytes@;
        words[j].store(&mut bytes, 4 * j);
        proof {
            lemma_images_take(words@, j as int);
            lemma_images_len(words@.take(j as int));
            crate::plain::lemma_splice(before, 4 * j as int, u32_image(words@[j as int]));
            assert(bytes@.subrange(0, 4 * (j + 1) as int) =~= before.subrange(0, 4 * j as int)
                + u32_image(words@[j as int]));
        }
        j = j + 1;
    }
    assert(words@.take(words@.len() as int) =~= words@);
    assert(bytes@.subrange(0, 4 * words@.len() as int) =~= bytes@);
    bytes
}

/// `buffer` with the words of `source`, each raised by `add`, placed from
/// `at` on.
pub open spec fn place(buffer: Seq<u32>, at: nat, source: Seq<u32>, add: u32) -> Seq<u32> {
    Seq::new(
        buffer.len(),
        |j: int|
            if at <= j < at + source.len() {
                source[j - at].wrapping_add(add)
            } else {
                buffer[j]
            },
    )
}

/// `buffer` with every word raised by `add`.
pub open spec fn shift(buffer: Seq<u32>, add: u32) -> Seq<u32> {
    Seq::new(buffer.len(), |j: int| buffer[j].wrapping_add(add))
}

/// The index words after one more mesh was merged into them. `first` is
/// the number of primitives and `base` the number of vertices of the meshes
/// merged before; `source` holds the indices of the mesh.
///
/// Points are placed as they are, and other primitives with their indices
/// raised by `base`. Unless the mesh is the first to bring primitives, every
/// word of the buffer is then raised once more: by `first` for points, by
/// `base` for other primitives. All sums wrap around.
pub open spec fn merge_step(
    buffer: Seq<u32>,
    kind: ElementType,
    first: nat,
    base: nat,
    source: Seq<u32>,
) -> Seq<u32> {
    let placed = place(
        buffer,
        first * arity(kind),
        source,
        if kind == ElementType::Point {
            0
        } else {
            low_word(base)
        },
    );
    if first > 0 {
        shift(
            placed,
            if kind == ElementType::Point {
                low_word(first)
            } else {
                low_word(base)
            },
        )
    } else {
        placed
    }
}

/// Merges one more mesh into the index words.
pub fn merge_into(
    buffer: &mut Vec<u32>,
    kind: ElementType,
    first: usize,
    base: usize,
    source: &Vec<u32>,
)
    requires
        first * arity(kind) + source@.len() <= old(buffer)@.len(),
    ensures
        final(buffer)@ == merge_step(old(buffer)@, kind, first as nat, base as nat, source@),
{
    assert(first * arity(kind) <= buffer.len());
    let at = first * arity_of(kind);
    let raised = match kind {
        ElementType::Point => 0,
        _ => low_word_of(base),
    };
    let mut j: usize = 0;
    while j < source.len()
        invariant
            j <= source@.len(),
            at == first * arity(kind),
            at + source@.len() <= buffer.len(),
            buffer@.len() == old(buffer)@.len(),
            forall|k: int|
                0 <= k < buffer@.len() ==> #[trigger] buffer@[k] == if at <= k < at + j {
                    source@[k - at].wrapping_add(raised)
                } else {
                    old(buffer)@[k]
                },
        decreases source@.len() - j,
    {
        buffer[at + j] = source[j].wrapping_add(raised);
        j = j + 1;
    }
    assert(buffer@ =~= place(old(buffer)@, at as nat, source@, raised));
    if first > 0 {
        let again = match kind {
            ElementType::Point => low_word_of(first),
            _ => low_word_of(base),
        };
        let ghost placed = buffer@;
        let mut k: usize = 0;
        while k < buffer.len()
            invariant
                k <= buffer@.len(),
                buffer@.len() == placed.len(),
                forall|i: int|
                    0 <= i < buffer@.len() ==> #[trigger] buffer@[i] == if i < k {
                        placed[i].wrapping_add(again)
                    } else {
                        placed[i]
                    },
            decreases buffer@.len() - k,
        {
            let word = buffer[k];
            buffer[k] = word.wrapping_add(again);
            k = k + 1;
        }
        assert(buffer@ =~= shift(placed, again));
    }
}

/// One of the three attributes of a vertex.
#[derive(Clone, Copy, Debug, PartialEq, Eq, Structural)]
pub enum Attribute {
    Position,
    Normal,
    Texcoord,
}

/// Bytes that one attribute of one vertex takes.
pub open spec fn attribute_size(attribute: Attribute) -> nat {
    match attribute {
        Attribute::Position => 12,
        Attribute::Normal => 12,
        Attribute::Texcoord => 8,
    }
}

/// The handle of one attribute buffer of a mesh.
pub open spec fn attribute_span(mesh: MeshSpec, attribute: Attribute) -> Span {
    match attribute {
        Attribute::Position => mesh.vertices.positions,
        Attribute::Normal => mesh.vertices.normals,
        Attribute::Texcoord => mesh.vertices.texcoords,
    }
}

/// Whether an arena holds all four buffers of a mesh whose attribute
/// buffers have a value for each vertex.
pub open spec fn holds_mesh(state: ArenaState, mesh: MeshSpec) -> bool {
    &&& mesh.vertices.is_valid()
    &&& state.holds(mesh.vertices.positions, 12)
    &&& state.holds(mesh.vertices.normals, 12)
    &&& state.holds(mesh.vertices.texcoords, 8)
    &&& state.holds(mesh.elements.indices, 4 * arity(mesh.elements.kind))
}

/// The bytes of one attribute of the first `n` meshes, one mesh after the
/// other.
pub open spec fn joined(bytes: Seq<u8>, meshes: Seq<MeshSpec>, attribute: Attribute, n: nat) -> Seq<
    u8,
>
    decreases n,
{
    if n == 0 {
        Seq::empty()
    } else {
        let span = attribute_span(meshes[n - 1], attribute);
        joined(bytes, meshes, attribute, (n - 1) as nat) + bytes.subrange(
            span.address as int,
            (span.address + span.len * attribute_size(attribute)) as int,
        )
    }
}

/// The bytes that hold the indices of a mesh.
pub open spec fn element_bytes(bytes: Seq<u8>, mesh: MeshSpec) -> Seq<u8> {
    bytes.subrange(
        mesh.elements.indices.address as int,
        (mesh.elements.indices.address + mesh.elements.indices.len * (4 * arity(
            mesh.elements.kind,
        ))) as int,
    )
}

/// The index words of the merged mesh after the first `n` meshes were
/// merged into what the words reserved for them held.
pub open spec fn merged_words(
    bytes: Seq<u8>,
    target: Span,
    meshes: Seq<MeshSpec>,
    kind: ElementType,
    n: nat,
) -> Seq<u32>
    decreases n,
{
    if n == 0 {
        words_in(
            bytes.subrange(
                target.address as int,
                (target.address + target.len * (4 * arity(kind))) as int,
            ),
        )
    } else {
        merge_step(
            merged_words(bytes, target, meshes, kind, (n - 1) as nat),
            kind,
            element_total(meshes.take(n - 1)),
            vertex_total(meshes.take(n - 1)),
            words_in(element_bytes(bytes, meshes[n - 1])),
        )
    }
}

/// The merged mesh: the handles of its four buffers.
pub open spec fn merged_mesh(
    state: ArenaState,
    meshes: Seq<MeshSpec>,
    kind: ElementType,
) -> MeshSpec {
    let requests = merge_requests(meshes, kind);
    MeshSpec {
        elements: ElementSpec { kind, indices: granted_at(state, requests, 0) },
        vertices: VertexSpec {
            positions: granted_at(state, requests, 1),
            normals: granted_at(state, requests, 2),
            texcoords: granted_at(state, requests, 3),
        },
    }
}

/// The arena after the meshes were merged: the four buffers are reserved,
/// the index words are merged into the first, and the attributes of the
/// meshes are copied into the others, one mesh after the other.
pub open spec fn merged(state: ArenaState, meshes: Seq<MeshSpec>, kind: ElementType) -> ArenaState {
    let requests = merge_requests(meshes, kind);
    let target = merged_mesh(state, meshes, kind);
    serve(state, requests).write(
        target.elements.indices.address,
        images(merged_words(state.bytes, target.elements.indices, meshes, kind, meshes.len())),
    ).write(
        target.vertices.positions.address,
        joined(state.bytes, meshes, Attribute::Position, meshes.len()),
    ).write(
        target.vertices.normals.address,
        joined(state.bytes, meshes, Attribute::Normal, meshes.len()),
    ).write(
        target.vertices.texcoords.address,
        joined(state.bytes, meshes, Attribute::Texcoord, meshes.len()),
    )
}

/// The totals of the first meshes do not exceed those of all.
pub proof fn lemma_totals_grow(meshes: Seq<MeshSpec>, n: int)
    requires
        0 <= n <= meshes.len(),
    ensures
        element_total(meshes.take(n)) <= element_total(meshes),
        vertex_total(meshes.take(n)) <= vertex_total(meshes),
    decreases meshes.len(),
{
    if n == meshes.len() {
        assert(meshes.take(n) =~= meshes);
    } else {
        lemma_totals_grow(meshes.drop_last(), n);
        assert(meshes.drop_last().take(n) =~= meshes.take(n));
    }
}

/// The totals of one more mesh are those of the meshes before it and its
/// own.
pub proof fn lemma_totals_step(meshes: Seq<MeshSpec>, n: int)
    requires
        0 <= n < meshes.len(),
    ensures
        element_total(meshes.take(n + 1)) == element_total(meshes.take(n))
            + meshes[n].elements.indices.len,
        vertex_total(meshes.take(n + 1)) == vertex_total(meshes.take(n)) + meshes[n].vertices.len(),
        element_total(meshes.take(0)) == 0,
        vertex_total(meshes.take(0)) == 0,
{
    assert(meshes.take(n + 1).drop_last() =~= meshes.take(n));
    assert(meshes.take(0) =~= Seq::<MeshSpec>::empty());
}

/// The joined bytes of an attribute take one attribute's worth of bytes for
/// each vertex.
pub proof fn lemma_joined_len(
    state: ArenaState,
    meshes: Seq<MeshSpec>,
    attribute: Attribute,
    n: nat,
)
    requires
        state.wf(),
        n <= meshes.len(),
        forall|i: int| 0 <= i < meshes.len() ==> holds_mesh(state, #[trigger] meshes[i]),
    ensures
        joined(state.bytes, meshes, attribute, n).len() == vertex_total(meshes.take(n as int))
            * attribute_size(attribute),
    decreases n,
{
    if n > 0 {
        lemma_joined_len(state, meshes, attribute, (n - 1) as nat);
        lemma_totals_step(meshes, n - 1);
        let mesh = meshes[n - 1];
        assert(holds_mesh(state, mesh));
        let span = attribute_span(mesh, attribute);
        let size = attribute_size(attribute);
        assert(span.len == mesh.vertices.len());
        assert(span.len * size >= 0) by (nonlinear_arith);
        assert((vertex_total(meshes.take(n - 1)) + span.len) * size == vertex_total(
            meshes.take(n - 1),
        ) * size + span.len * size) by (nonlinear_arith);
    } else {
        assert(meshes.take(0) =~= Seq::<MeshSpec>::empty());
        assert(0 * attribute_size(attribute) == 0) by (nonlinear_arith);
    }
}

/// Adds `bytes` to the end of `out`.
fn append(out: &mut Vec<u8>, bytes: &[u8])
    ensures
        final(out)@ == old(out)@ + bytes@,
{
    let mut k: usize = 0;
    while k < bytes.len()
        invariant
            k <= bytes@.len(),
            out@ == old(out)@ + bytes@.take(k as int),
        decreases bytes@.len() - k,
    {
        out.push(bytes[k]);
        assert(out@ =~= old(out)@ + bytes@.take(k + 1));
        k = k + 1;
    }
    assert(bytes@.take(bytes@.len() as int) =~= bytes@);
}

/// The bytes of one attribute of all the meshes, one mesh after the other.
fn gather(arena: &Arena, meshes: &[Mesh], attribute: Attribute) -> (out: Vec<u8>)
    requires
        arena@.wf(),
        forall|i: int| 0 <= i < meshes@.len() ==> holds_mesh(arena@, (#[trigger] meshes@[i])@),
    ensures
        out@ == joined(arena@.bytes, specs_of(meshes@), attribute, meshes@.len()),
{
    let ghost specs = specs_of(meshes@);
    let mut out: Vec<u8> = Vec::new();
    let mut i: usize = 0;
    while i < meshes.len()
        invariant
            i <= meshes@.len(),
            specs == specs_of(meshes@),
            arena@.wf(),
            forall|j: int| 0 <= j < meshes@.len() ==> holds_mesh(arena@, (#[trigger] meshes@[j])@),
            out@ == joined(arena@.bytes, specs, attribute, i as nat),
        decreases meshes@.len() - i,
    {
        let mesh = &meshes[i];
        assert(holds_mesh(arena@, meshes@[i as int]@));
        assert(specs[i as int] == meshes@[i as int]@);
        let bytes = match attribute {
            Attribute::Position => arena.bytes(mesh.positions()),
            Attribute::Normal => arena.bytes(mesh.normals()),
            Attribute::Texcoord => arena.bytes(mesh.texcoords()),
        };
        append(&mut out, bytes);
        i = i + 1;
    }
    out
}

/// Whether every mesh has primitives of the given kind.
fn all_of_kind(meshes: &[Mesh], kind: ElementType) -> (all: bool)
    ensures
        all == of_kind(specs_of(meshes@), kind),
{
    let mut i: usize = 0;
    while i < meshes.len()
        invariant
            i <= meshes@.len(),
            forall|j: int| 0 <= j < i ==> (#[trigger] specs_of(meshes@)[j]).elements.kind == kind,
        decreases meshes@.len() - i,
    {
        if meshes[i].elements().kind() != kind {
            assert(specs_of(meshes@)[i as int].elements.kind != kind);
            return false;
        }
        i = i + 1;
    }
    true
}

/// The numbers of primitives and of vertices of all the meshes together,
/// each `None` when it does not fit in a `usize`.
fn totals(meshes: &[Mesh]) -> (sums: (Option<usize>, Option<usize>))
    ensures
        match sums.0 {
            Some(n) => n == element_total(specs_of(meshes@)),
            None => element_total(specs_of(meshes@)) > usize::MAX,
        },
        match sums.1 {
            Some(n) => n == vertex_total(specs_of(meshes@)),
            None => vertex_total(specs_of(meshes@)) > usize::MAX,
        },
{
    let ghost specs = specs_of(meshes@);
    let mut elements: Option<usize> = Some(0);
    let mut vertices: Option<usize> = Some(0);
    let mut i: usize = 0;
    proof {
        lemma_totals_step_empty(specs);
    }
    while i < meshes.len()
        invariant
            i <= meshes@.len(),
            specs == specs_of(meshes@),
            match elements {
                Some(n) => n == element_total(specs.take(i as int)),
                None => element_total(specs.take(i as int)) > usize::MAX,
            },
            match vertices {
                Some(n) => n == vertex_total(specs.take(i as int)),
                None => vertex_total(specs.take(i as int)) > usize::MAX,
            },
        decreases meshes@.len() - i,
    {
        proof {
            lemma_totals_step(specs, i as int);
        }
        elements = match elements {
            Some(n) => n.checked_add(meshes[i].elements().len()),
            None => None,
        };
        vertices = match vertices {
            Some(n) => n.checked_add(meshes[i].len()),
            None => None,
        };
        i = i + 1;
    }
    assert(specs.take(meshes@.len() as int) =~= specs);
    if meshes.len() == 0 {
        assert(specs =~= Seq::<MeshSpec>::empty());
    }
    (elements, vertices)
}

/// The index words of the merged mesh: what the words reserved for them
/// hold, with the meshes merged into it one after the other.
fn merge_indices(
    arena: &Arena,
    meshes: &[Mesh],
    kind: ElementType,
    target: &Element,
) -> (words: Vec<u32>)
    requires
        arena@.wf(),
        forall|i: int| 0 <= i < meshes@.len() ==> holds_mesh(arena@, (#[trigger] meshes@[i])@),
        of_kind(specs_of(meshes@), kind),
        target@.kind == kind,
        target@.indices.len == element_total(specs_of(meshes@)),
        vertex_total(specs_of(meshes@)) <= usize::MAX,
        arena@.holds(target@.indices, 4 * arity(kind)),
    ensures
        words@ == merged_words(
            arena@.bytes,
            target@.indices,
            specs_of(meshes@),
            kind,
            meshes@.len(),
        ),
        words@.len() == target@.indices.len * arity(kind),
{
    let ghost specs = specs_of(meshes@);
    let width = arity_of(kind);
    let total = target.len();
    proof {
        assert(total * (4 * width) == 4 * (total * width)) by (nonlinear_arith);
        assert(total * width >= 0) by (nonlinear_arith);
    }
    let mut words = decode_words(arena.range(target.address(), total * (4 * width)));
    assert(words@.len() == total * width);
    let mut first: usize = 0;
    let mut base: usize = 0;
    let mut i: usize = 0;
    proof {
        lemma_totals_step_empty(specs);
    }
    while i < meshes.len()
        invariant
            i <= meshes@.len(),
            specs == specs_of(meshes@),
            arena@.wf(),
            forall|j: int| 0 <= j < meshes@.len() ==> holds_mesh(arena@, (#[trigger] meshes@[j])@),
            of_kind(specs, kind),
            width == arity(kind),
            total == element_total(specs),
            words@.len() == total * width,
            first == element_total(specs.take(i as int)),
            vertex_total(specs) <= usize::MAX,
            base == vertex_total(specs.take(i as int)),
            words@ == merged_words(arena@.bytes, target@.indices, specs, kind, i as nat),
        decreases meshes@.len() - i,
    {
        let mesh = &meshes[i];
        let count = mesh.elements().len();
        proof {
            lemma_totals_step(specs, i as int);
            lemma_totals_grow(specs, i as int + 1);
            assert(holds_mesh(arena@, meshes@[i as int]@));
            assert(specs[i as int] == meshes@[i as int]@);
            assert(specs[i as int].elements.kind == kind);
            assert(count * (4 * width) == 4 * (count * width)) by (nonlinear_arith);
            assert(count * width >= 0) by (nonlinear_arith);
            assert((first + count) * width <= total * width) by (nonlinear_arith)
                requires
                    first + count <= total,
            ;
            assert((first + count) * width == first * width + count * width)
                by (nonlinear_arith);
        }
        let source = decode_words(arena.range(mesh.elements().address(), count * (4 * width)));
        assert(source@ == words_in(element_bytes(arena@.bytes, specs[i as int])));
        merge_into(&mut words, kind, first, base, &source);
        first = first + count;
        base = base + mesh.len();
        i = i + 1;
    }
    words
}

/// The totals of no meshes are zero.
pub proof fn lemma_totals_step_empty(meshes: Seq<MeshSpec>)
    ensures
        element_total(meshes.take(0)) == 0,
        vertex_total(meshes.take(0)) == 0,
{
    assert(meshes.take(0) =~= Seq::<MeshSpec>::empty());
}

/// A run of elements that starts beyond what a machine can count does not
/// fit in any arena.
pub proof fn lemma_uncountable_does_not_fit(state: ArenaState, align: nat, size: nat, count: nat)
    requires
        state.wf(),
        align > 0,
        size > 0,
        count > usize::MAX,
    ensures
        !state.fits(align, size, count),
{
    crate::layout::lemma_round_up_bounds(state.occupied, align);
    assert(count * size >= count) by (nonlinear_arith)
        requires
            size >= 1,
    ;
}

/// Reserves the four buffers of the merged mesh in order, and stops at the
/// first that the arena has no room for. Returns where each buffer starts
/// when all were reserved. A total that is `None` is one that no machine
/// word holds.
fn reserve_merged(
    arena: &mut Arena,
    kind: ElementType,
    elements: Option<usize>,
    vertices: Option<usize>,
    Ghost(specs): Ghost<Seq<MeshSpec>>,
) -> (starts: Option<Vec<usize>>)
    requires
        old(arena)@.wf(),
        match elements {
            Some(n) => n == element_total(specs),
            None => element_total(specs) > usize::MAX,
        },
        match vertices {
            Some(n) => n == vertex_total(specs),
            None => vertex_total(specs) > usize::MAX,
        },
    ensures
        final(arena)@ == serve_until_refused(old(arena)@, merge_requests(specs, kind)),
        match starts {
            Some(s) => {
                &&& first_refused(old(arena)@, merge_requests(specs, kind)) == 4
                &&& elements is Some
                &&& vertices is Some
                &&& s@.len() == 4
                &&& forall|k: int|
                    0 <= k < 4 ==> #[trigger] s@[k] == granted_at(
                        old(arena)@,
                        merge_requests(specs, kind),
                        k,
                    ).address
            },
            None => first_refused(old(arena)@, merge_requests(specs, kind)) < 4,
        },
        final(arena)@.wf(),
{
    let ghost before = arena@;
    let ghost requests = merge_requests(specs, kind);
    let width = arity_of(kind);
    proof {
        lemma_serve_step(before, requests, 0);
    }
    let element_count = match elements {
        Some(count) => count,
        None => {
            proof {
                lemma_uncountable_does_not_fit(before, 4, 4 * arity(kind), element_total(specs));
                lemma_first_refused_is(before, requests, 0);
            }
            return None;
        },
    };
    let vertex_count = match vertices {
        Some(count) => count,
        None => {
            match arena.reserve(4, 4 * width, element_count) {
                Some(_) => {
                    proof {
                        lemma_serve_step(before, requests, 1);
                        assert(requests.take(1).take(0) =~= requests.take(0));
                        lemma_serve_keeps_region(before, requests.take(1));
                        lemma_uncountable_does_not_fit(arena@, 4, 12, vertex_total(specs));
                        assert(served(before, requests, 1)) by {
                            assert(serve(before, requests.take(0)).fits(
                                requests[0].align,
                                requests[0].size,
                                requests[0].count,
                            ));
                        }
                        lemma_first_refused_is(before, requests, 1);
                    }
                },
                None => {
                    proof {
                        lemma_first_refused_is(before, requests, 0);
                    }
                },
            }
            return None;
        },
    };
    let layouts = [
        Layout { align: 4, size: 4 * width, count: element_count },
        Layout { align: 4, size: 12, count: vertex_count },
        Layout { align: 4, size: 12, count: vertex_count },
        Layout { align: 4, size: 8, count: vertex_count },
    ];
    assert(requests_of(layouts@) =~= requests);
    arena.reserve_all(layouts.as_slice())
}

/// Fills the four buffers of the merged mesh, which were reserved in the
/// state `before`, and returns the mesh.
#[verifier::rlimit(40)]
fn fill_merged(
    arena: &mut Arena,
    meshes: &[Mesh],
    kind: ElementType,
    starts: &Vec<usize>,
    element_count: usize,
    vertex_count: usize,
    Ghost(before): Ghost<ArenaState>,
) -> (mesh: Mesh)
    requires
        before.wf(),
        old(arena)@.wf(),
        old(arena)@ == serve(before, merge_requests(specs_of(meshes@), kind)),
        first_refused(before, merge_requests(specs_of(meshes@), kind)) == 4,
        forall|i: int| 0 <= i < meshes@.len() ==> holds_mesh(before, (#[trigger] meshes@[i])@),
        of_kind(specs_of(meshes@), kind),
        element_count == element_total(specs_of(meshes@)),
        vertex_count == vertex_total(specs_of(meshes@)),
        starts@.len() == 4,
        forall|k: int|
            0 <= k < 4 ==> #[trigger] starts@[k] == granted_at(
                before,
                merge_requests(specs_of(meshes@), kind),
                k,
            ).address,
    ensures
        mesh@ == merged_mesh(before, specs_of(meshes@), kind),
        final(arena)@ == merged(before, specs_of(meshes@), kind),
        final(arena)@.wf(),
{
    let ghost specs = specs_of(meshes@);
    let ghost requests = merge_requests(specs, kind);
    let ghost reserved = arena@;
    let width = arity_of(kind);
    proof {
        assert(requests.take(4) =~= requests);
        lemma_serve_keeps_region(before, requests);
        lemma_granted_span(before, requests, 0);
        lemma_granted_span(before, requests, 1);
        lemma_granted_span(before, requests, 2);
        lemma_granted_span(before, requests, 3);
        assert forall|i: int| 0 <= i < meshes@.len() implies holds_mesh(
            reserved,
            (#[trigger] meshes@[i])@,
        ) by {
            assert(holds_mesh(before, meshes@[i]@));
            lemma_serve_grows(before, requests, 0);
        }
    }
    let target = match kind {
        ElementType::Point => Element::Point(
            ArenaSlice::<u32>::at(arena, starts[0], element_count),
        ),
        ElementType::Line => Element::Line(
            ArenaSlice::<Vec2u>::at(arena, starts[0], element_count),
        ),
        ElementType::Triangle => Element::Triangle(
            ArenaSlice::<Vec3u>::at(arena, starts[0], element_count),
        ),
        ElementType::Quad => Element::Quad(
            ArenaSlice::<Vec4u>::at(arena, starts[0], element_count),
        ),
    };
    let positions = ArenaSlice::<Vec3u>::at(arena, starts[1], vertex_count);
    let normals = ArenaSlice::<Vec3u>::at(arena, starts[2], vertex_count);
    let texcoords = ArenaSlice::<Vec2u>::at(arena, starts[3], vertex_count);
    assert(target@ == merged_mesh(before, specs, kind).elements);
    assert(positions@ == merged_mesh(before, specs, kind).vertices.positions);
    assert(normals@ == merged_mesh(before, specs, kind).vertices.normals);
    assert(texcoords@ == merged_mesh(before, specs, kind).vertices.texcoords);

    let words = merge_indices(arena, meshes, kind, &target);
    let position_bytes = gather(arena, meshes, Attribute::Position);
    let normal_bytes = gather(arena, meshes, Attribute::Normal);
    let texcoord_bytes = gather(arena, meshes, Attribute::Texcoord);
    proof {
        lemma_joined_len(reserved, specs, Attribute::Position, specs.len());
        lemma_joined_len(reserved, specs, Attribute::Normal, specs.len());
        lemma_joined_len(reserved, specs, Attribute::Texcoord, specs.len());
        assert(specs.take(specs.len() as int) =~= specs);
        lemma_images_len(words@);
        assert(4 * (element_count * width) == element_count * (4 * width)) by (nonlinear_arith);
        assert(element_count * width >= 0) by (nonlinear_arith);
    }
    let index_bytes = encode_words(&words);
    arena.overwrite(starts[0], index_bytes.as_slice());
    arena.overwrite(starts[1], position_bytes.as_slice());
    arena.overwrite(starts[2], normal_bytes.as_slice());
    arena.overwrite(starts[3], texcoord_bytes.as_slice());
    Mesh::new(VertexData::new(positions, normals, texcoords), target)
}

/// Merges meshes of one kind into a single mesh: reserves buffers for all
/// their primitives and vertices, copies the attributes of their vertices
/// one mesh after the other, and merges their indices as `merge_step` says.
///
/// Nothing is merged, and the arena stays as it is, when there is no mesh,
/// when a mesh is not of the given kind, or when the meshes have no
/// primitive or no vertex. Otherwise the four buffers are reserved in order,
/// and the merge fails at the first that the arena has no room for; what
/// was reserved before it stays reserved.
pub fn merge_meshes(arena: &mut Arena, meshes: &[Mesh], element_type: ElementType) -> (mesh:
    Option<Mesh>)
    requires
        old(arena)@.wf(),
        forall|i: int|
            0 <= i < meshes@.len() ==> holds_mesh(old(arena)@, (#[trigger] meshes@[i])@),
    ensures
        match mesh {
            Some(m) => {
                &&& mergeable(specs_of(meshes@), element_type)
                &&& first_refused(
                    old(arena)@,
                    merge_requests(specs_of(meshes@), element_type),
                ) == 4
                &&& m@ == merged_mesh(old(arena)@, specs_of(meshes@), element_type)
                &&& final(arena)@ == merged(old(arena)@, specs_of(meshes@), element_type)
            },
            None => if mergeable(specs_of(meshes@), element_type) {
                &&& first_refused(
                    old(arena)@,
                    merge_requests(specs_of(meshes@), element_type),
                ) < 4
                &&& final(arena)@ == serve_until_refused(
                    old(arena)@,
                    merge_requests(specs_of(meshes@), element_type),
                )
            } else {
                final(arena)@ == old(arena)@
            },
        },
        final(arena)@.wf(),
{
    let ghost specs = specs_of(meshes@);
    let ghost before = arena@;
    if meshes.len() == 0 {
        return None;
    }
    if !all_of_kind(meshes, element_type) {
        return None;
    }
    let (elements, vertices) = totals(meshes);
    if let Some(0) = elements {
        return None;
    }
    if let Some(0) = vertices {
        return None;
    }
    let starts = match reserve_merged(arena, element_type, elements, vertices, Ghost(specs)) {
        Some(starts) => starts,
        None => {
            return None;
        },
    };
    proof {
        assert(merge_requests(specs, element_type).take(4) =~= merge_requests(
            specs,
            element_type,
        ));
    }
    Some(
        fill_merged(
            arena,
            meshes,
            element_type,
            &starts,
            elements.unwrap(),
            vertices.unwrap(),
            Ghost(before),
        ),
    )
}

} // verus!
