//! The per-kind side of instanced drawing: how one instance is packed for
//! the graphics card, what the card has been told, and what a draw call asks.

use vstd::prelude::*;
use crate::data::{ObjectData, TextureCoordinate};
use crate::image::Image;
use crate::scalar::{ONE, TEXCOORD_INSET};

verus! {

/// The shape that an object draws. Chosen once, when the object is made.
#[derive(Clone, Copy, Debug, PartialEq, Eq, Structural)]
pub enum ShapeKind {
    Rectangle,
    Circle,
    Texture,
    Text,
}

impl ShapeKind {
    /// Whether the kind samples a texture image.
    pub open spec fn spec_textured(self) -> bool {
        self is Texture || self is Text
    }

    /// How many scalars one packed instance takes.
    pub open spec fn spec_scalars(self) -> nat {
        if self.spec_textured() {
            13
        } else {
            8
        }
    }

    pub fn textured(&self) -> (res: bool)
        ensures
            res == self.spec_textured(),
    {
        match self {
            ShapeKind::Rectangle => false,
            ShapeKind::Circle => false,
            ShapeKind::Texture => true,
            ShapeKind::Text => true,
        }
    }

    pub fn scalars_per_instance(&self) -> (res: usize)
        ensures
            res == self.spec_scalars(),
    {
        if self.textured() {
            13
        } else {
            8
        }
    }
}

/// One instance as the shader of `kind` reads it. Plain shapes: colour,
/// opacity, offset, size. Textured ones: offset, size, opacity, then the
/// eight texture coordinates.
pub open spec fn encode(kind: ShapeKind, d: ObjectData) -> Seq<i64> {
    if kind.spec_textured() {
        seq![d.offset.0, d.offset.1, d.dim.0, d.dim.1, d.opacity] + d.texcoord@
    } else {
        seq![d.color.r, d.color.g, d.color.b, d.opacity, d.offset.0, d.offset.1, d.dim.0, d.dim.1]
    }
}

/// Every instance of `data`, encoded for `kind`, in order.
pub open spec fn encode_all(kind: ShapeKind, data: Seq<ObjectData>) -> Seq<Seq<i64>> {
    data.map_values(|d: ObjectData| encode(kind, d))
}

/// The records one after another.
pub open spec fn flatten(rows: Seq<Seq<i64>>) -> Seq<i64>
    decreases rows.len(),
{
    if rows.len() == 0 {
        Seq::empty()
    } else {
        flatten(rows.drop_last()) + rows.last()
    }
}

/// Packs one instance.
pub fn encode_instance(kind: ShapeKind, d: &ObjectData) -> (res: Vec<i64>)
    ensures
        res@ == encode(kind, *d),
        res@.len() == kind.spec_scalars(),
{
    let mut out: Vec<i64> = Vec::new();
    if kind.textured() {
        out.push(d.offset.0);
        out.push(d.offset.1);
        out.push(d.dim.0);
        out.push(d.dim.1);
        out.push(d.opacity);
        let mut k: usize = 0;
        while k < 8
            invariant
                k <= 8,
                out@ == seq![d.offset.0, d.offset.1, d.dim.0, d.dim.1, d.opacity]
                    + d.texcoord@.take(k as int),
            decreases 8 - k,
        {
            out.push(d.texcoord[k]);
            assert(d.texcoord@.take(k + 1) == d.texcoord@.take(k as int).push(d.texcoord@[k as int]));
            k = k + 1;
        }
        assert(d.texcoord@.take(8) == d.texcoord@);
    } else {
        out.push(d.color.r);
        out.push(d.color.g);
        out.push(d.color.b);
        out.push(d.opacity);
        out.push(d.offset.0);
        out.push(d.offset.1);
        out.push(d.dim.0);
        out.push(d.dim.1);
        assert(out@ == encode(kind, *d));
    }
    out
}


/// One input of the vertex shader and where its values lie in a buffer.
/// Sizes are in bytes; one scalar reaches the card as four bytes.
#[derive(Clone, Copy, Debug, PartialEq, Eq, Structural)]
pub struct VertexAttribute {
    /// The location that the shader gives the input.
    pub index: u32,
    /// How many scalars the input has.
    pub components: u32,
    /// From the start of one record to the start of the next.
    pub stride: u32,
    /// From the start of a record to this input.
    pub offset: u32,
    /// 0 for an input read once per corner, 1 for one read once per instance.
    pub divisor: u32,
}

/// The per-instance inputs of the shader of `kind`, in the order of
/// [`encode`].
pub open spec fn spec_instance_layout(kind: ShapeKind) -> Seq<VertexAttribute> {
    if kind.spec_textured() {
        seq![
            VertexAttribute { index: 1, components: 2, stride: 52, offset: 0, divisor: 1 },
            VertexAttribute { index: 2, components: 2, stride: 52, offset: 8, divisor: 1 },
            VertexAttribute { index: 3, components: 1, stride: 52, offset: 16, divisor: 1 },
            VertexAttribute { index: 4, components: 4, stride: 52, offset: 20, divisor: 1 },
            VertexAttribute { index: 5, components: 4, stride: 52, offset: 36, divisor: 1 },
        ]
    } else {
        seq![
            VertexAttribute { index: 1, components: 4, stride: 32, offset: 0, divisor: 1 },
            VertexAttribute { index: 2, components: 2, stride: 32, offset: 16, divisor: 1 },
            VertexAttribute { index: 3, components: 2, stride: 32, offset: 24, divisor: 1 },
        ]
    }
}

/// The inputs lie one after another from the start of a record, without a
/// gap, up to `end`; each is read once per instance, steps by `stride`, and
/// has the location that follows its place in the list.
pub open spec fn tiles_record(layout: Seq<VertexAttribute>, stride: int, end: int) -> bool
    decreases layout.len(),
{
    if layout.len() == 0 {
        end == 0
    } else {
        let last = layout.last();
        &&& last.stride == stride
        &&& last.divisor == 1
        &&& last.index == layout.len()
        &&& last.components >= 1
        &&& last.offset + 4 * last.components == end
        &&& tiles_record(layout.drop_last(), stride, last.offset as int)
    }
}

/// The layout of every kind covers its packed record exactly: the inputs
/// follow one another without gap or overlap, and end where the next
/// record begins.
pub proof fn lemma_layout_tiles_record(kind: ShapeKind)
    ensures
        tiles_record(
            spec_instance_layout(kind),
            4 * (kind.spec_scalars() as int),
            4 * (kind.spec_scalars() as int),
        ),
{
    let l = spec_instance_layout(kind);
    reveal_with_fuel(tiles_record, 6);
    if kind.spec_textured() {
        let l4 = l.drop_last();
        let l3 = l4.drop_last();
        let l2 = l3.drop_last();
        let l1 = l2.drop_last();
        let l0 = l1.drop_last();
        assert(l0.len() == 0);
        assert(tiles_record(l0, 52, 0));
        assert(tiles_record(l1, 52, 8));
        assert(tiles_record(l2, 52, 16));
        assert(tiles_record(l3, 52, 20));
        assert(tiles_record(l4, 52, 36));
    } else {
        let l2 = l.drop_last();
        let l1 = l2.drop_last();
        let l0 = l1.drop_last();
        assert(l0.len() == 0);
        assert(tiles_record(l0, 32, 0));
        assert(tiles_record(l1, 32, 16));
        assert(tiles_record(l2, 32, 24));
    }
}

/// The per-instance inputs of the shader of `kind`.
pub fn instance_layout(kind: ShapeKind) -> (res: Vec<VertexAttribute>)
    ensures
        res@ == spec_instance_layout(kind),
{
    let mut out: Vec<VertexAttribute> = Vec::new();
    if kind.textured() {
        out.push(VertexAttribute { index: 1, components: 2, stride: 52, offset: 0, divisor: 1 });
        out.push(VertexAttribute { index: 2, components: 2, stride: 52, offset: 8, divisor: 1 });
        out.push(VertexAttribute { index: 3, components: 1, stride: 52, offset: 16, divisor: 1 });
        out.push(VertexAttribute { index: 4, components: 4, stride: 52, offset: 20, divisor: 1 });
        out.push(VertexAttribute { index: 5, components: 4, stride: 52, offset: 36, divisor: 1 });
    } else {
        out.push(VertexAttribute { index: 1, components: 4, stride: 32, offset: 0, divisor: 1 });
        out.push(VertexAttribute { index: 2, components: 2, stride: 32, offset: 16, divisor: 1 });
        out.push(VertexAttribute { index: 3, components: 2, stride: 32, offset: 24, divisor: 1 });
    }
    assert(out@ =~= spec_instance_layout(kind));
    out
}

/// The four corners that every instance is drawn from, as a fan: top right,
/// top left, bottom left, bottom right of the unit square.
pub open spec fn unit_quad() -> Seq<i64> {
    seq![ONE, 0i64, 0i64, 0i64, 0i64, ONE, ONE, ONE]
}

/// The corners of [`unit_quad`], for the one buffer that all instances share.
pub fn quad_vertices() -> (res: Vec<i64>)
    ensures
        res@ == unit_quad(),
{
    let mut out: Vec<i64> = Vec::new();
    out.push(ONE);
    out.push(0);
    out.push(0);
    out.push(0);
    out.push(0);
    out.push(ONE);
    out.push(ONE);
    out.push(ONE);
    assert(out@ =~= unit_quad());
    out
}


/// The three matrices that every shader of this engine takes.
#[derive(Clone, Copy, Debug, PartialEq, Eq, Structural)]
pub enum UniformName {
    Projection,
    View,
    Model,
}

/// Why an object could not be used as asked.
#[derive(Debug, PartialEq, Eq)]
pub enum ShaderError {
    /// A shader stage did not compile, or the program did not link. Holds
    /// what the compiler said.
    CompileError(String),
    /// The linked program lacks a matrix that the engine must set.
    UniformNotFound(UniformName),
    /// A draw was asked for before the object was loaded.
    NotLoaded,
    /// No instance has this index.
    IndexOutOfRange(usize),
}

/// What the shader compiler hands back for a program that linked: its
/// handle, and where each matrix is, if the program has it.
#[derive(Clone, Copy, Debug, PartialEq, Eq)]
pub struct LinkedProgram {
    pub id: u32,
    pub projection: Option<i32>,
    pub view_matrix: Option<i32>,
    pub model: Option<i32>,
}

/// A program that can be drawn with: all three matrices are there.
#[derive(Clone, Copy, Debug, PartialEq, Eq, Structural)]
pub struct Program {
    pub id: u32,
    pub projection: i32,
    pub view_matrix: i32,
    pub model: i32,
}

/// Reads what the graphics library answers when asked where a uniform is:
/// a location from 0 up, or a negative number where the program has none
/// of that name.
pub fn location_of(raw: i32) -> (res: Option<i32>)
    ensures
        res == if raw < 0 {
            None::<i32>
        } else {
            Some(raw)
        },
{
    if raw < 0 {
        None
    } else {
        Some(raw)
    }
}

/// The texture coordinates that the four corners of the quad sample, in
/// the order of [`unit_quad`]: each corner takes its pair and moves it
/// inwards by the inset.
pub open spec fn spec_sampled(texcoord: Seq<i64>) -> Seq<int> {
    seq![
        texcoord[4] - TEXCOORD_INSET,
        texcoord[5] - TEXCOORD_INSET,
        texcoord[2] + TEXCOORD_INSET,
        texcoord[3] - TEXCOORD_INSET,
        texcoord[0] + TEXCOORD_INSET,
        texcoord[1] + TEXCOORD_INSET,
        texcoord[6] - TEXCOORD_INSET,
        texcoord[7] + TEXCOORD_INSET,
    ]
}

/// The texture coordinates that the corners of a textured instance
/// sample. The coordinates must leave room for the inset at both ends of
/// the number range.
pub fn sampled_texcoord(texcoord: &TextureCoordinate) -> (res: TextureCoordinate)
    requires
        forall|k: int| 0 <= k < 8 ==> i64::MIN < #[trigger] texcoord@[k] < i64::MAX,
    ensures
        res@.len() == 8,
        forall|k: int| 0 <= k < 8 ==> #[trigger] res@[k] == spec_sampled(texcoord@)[k],
{
    assert(forall|k: int| 0 <= k < 8 ==> i64::MIN < #[trigger] texcoord@[k] < i64::MAX);
    assert(i64::MIN < texcoord@[0] < i64::MAX && i64::MIN < texcoord@[1] < i64::MAX);
    assert(i64::MIN < texcoord@[2] < i64::MAX && i64::MIN < texcoord@[3] < i64::MAX);
    assert(i64::MIN < texcoord@[4] < i64::MAX && i64::MIN < texcoord@[5] < i64::MAX);
    assert(i64::MIN < texcoord@[6] < i64::MAX && i64::MIN < texcoord@[7] < i64::MAX);
    [
        texcoord[4] - TEXCOORD_INSET,
        texcoord[5] - TEXCOORD_INSET,
        texcoord[2] + TEXCOORD_INSET,
        texcoord[3] - TEXCOORD_INSET,
        texcoord[0] + TEXCOORD_INSET,
        texcoord[1] + TEXCOORD_INSET,
        texcoord[6] - TEXCOORD_INSET,
        texcoord[7] + TEXCOORD_INSET,
    ]
}

/// What a compile step amounts to: the program, or the first thing that is
/// wrong with it. A missing matrix is looked for in the order projection,
/// view, model.
pub open spec fn spec_accept(compiled: Result<LinkedProgram, String>) -> Result<Program, ShaderError> {
    match compiled {
        Err(message) => Err(ShaderError::CompileError(message)),
        Ok(linked) => match (linked.projection, linked.view_matrix, linked.model) {
            (None, _, _) => Err(ShaderError::UniformNotFound(UniformName::Projection)),
            (Some(_), None, _) => Err(ShaderError::UniformNotFound(UniformName::View)),
            (Some(_), Some(_), None) => Err(ShaderError::UniformNotFound(UniformName::Model)),
            (Some(projection), Some(view_matrix), Some(model)) => Ok(
                Program { id: linked.id, projection, view_matrix, model },
            ),
        },
    }
}

/// Judges what the shader compiler handed back.
pub fn accept_program(compiled: Result<LinkedProgram, String>) -> (res: Result<Program, ShaderError>)
    ensures
        res == spec_accept(compiled),
{
    match compiled {
        Err(message) => Err(ShaderError::CompileError(message)),
        Ok(linked) => {
            match linked.projection {
                None => Err(ShaderError::UniformNotFound(UniformName::Projection)),
                Some(projection) => match linked.view_matrix {
                    None => Err(ShaderError::UniformNotFound(UniformName::View)),
                    Some(view_matrix) => match linked.model {
                        None => Err(ShaderError::UniformNotFound(UniformName::Model)),
                        Some(model) => Ok(Program { id: linked.id, projection, view_matrix, model }),
                    },
                },
            }
        },
    }
}

/// What has to reach the graphics card when a backend is loaded.
pub struct Allocation {
    /// The corners of the quad, for the static buffer.
    pub quad: Vec<i64>,
    /// How the shader reads the quad buffer.
    pub quad_layout: VertexAttribute,
    /// Every instance, packed, for the per-instance buffer.
    pub instances: Vec<i64>,
    /// How the shader reads the per-instance buffer.
    pub instance_layout: Vec<VertexAttribute>,
    /// Whether the backend's image goes into a texture buffer.
    pub texture: bool,
}

/// One instanced draw: a fan of `vertices` corners, `instances` times.
#[derive(Clone, Copy, Debug, PartialEq, Eq, Structural)]
pub struct DrawCall {
    pub program: Program,
    /// Whether the texture buffer is bound for the call.
    pub texture: bool,
    pub vertices: usize,
    pub instances: usize,
}

/// The graphics side of one shape kind: the packed copy of every instance,
/// the program once it is compiled, and a record of what the card holds.
pub struct ShapeBackend {
    kind: ShapeKind,
    rows: Vec<Vec<i64>>,
    image: Option<Image>,
    program: Option<Program>,
    resident: Ghost<Seq<Seq<i64>>>,
}

impl ShapeBackend {
    /// The packed instances, one record each.
    pub closed spec fn mirror(&self) -> Seq<Seq<i64>> {
        self.rows@.map_values(|row: Vec<i64>| row@)
    }

    /// The records that the card's per-instance buffer holds since the last
    /// upload.
    pub closed spec fn resident(&self) -> Seq<Seq<i64>> {
        self.resident@
    }

    pub closed spec fn spec_kind(&self) -> ShapeKind {
        self.kind
    }

    pub closed spec fn spec_program(&self) -> Option<Program> {
        self.program
    }

    pub closed spec fn spec_image(&self) -> Option<Image> {
        self.image
    }

    /// Every record has the length of its kind, and only a textured kind
    /// has an image.
    pub open spec fn wf(&self) -> bool {
        &&& forall|i: int|
            0 <= i < self.mirror().len() ==> (#[trigger] self.mirror()[i]).len()
                == self.spec_kind().spec_scalars()
        &&& self.spec_image() is Some <==> self.spec_kind().spec_textured()
    }

    /// A backend for rectangles, with no instance and no program.
    pub fn rect() -> (res: ShapeBackend)
        ensures
            res.wf(),
            res.spec_kind() == ShapeKind::Rectangle,
            res.mirror() == Seq::<Seq<i64>>::empty(),
            res.spec_program() is None,
            res.spec_image() is None,
    {
        ShapeBackend::plain(ShapeKind::Rectangle)
    }

    /// A backend for circles, with no instance and no program.
    pub fn circle() -> (res: ShapeBackend)
        ensures
            res.wf(),
            res.spec_kind() == ShapeKind::Circle,
            res.mirror() == Seq::<Seq<i64>>::empty(),
            res.spec_program() is None,
            res.spec_image() is None,
    {
        ShapeBackend::plain(ShapeKind::Circle)
    }

    fn plain(kind: ShapeKind) -> (res: ShapeBackend)
        requires
            !kind.spec_textured(),
        ensures
            res.wf(),
            res.spec_kind() == kind,
            res.mirror() == Seq::<Seq<i64>>::empty(),
            res.spec_program() is None,
            res.spec_image() is None,
    {
        let res = ShapeBackend {
            kind,
            rows: Vec::new(),
            image: None,
            program: None,
            resident: Ghost(Seq::empty()),
        };
        assert(res.mirror() =~= Seq::<Seq<i64>>::empty());
        res
    }

    /// A backend that draws parts of `image`; `text` says whether the image
    /// is a rendered line of text.
    pub fn textured(image: Image, text: bool) -> (res: ShapeBackend)
        ensures
            res.wf(),
            res.spec_kind() == if text { ShapeKind::Text } else { ShapeKind::Texture },
            res.mirror() == Seq::<Seq<i64>>::empty(),
            res.spec_program() is None,
            res.spec_image() == Some(image),
    {
        let kind = if text { ShapeKind::Text } else { ShapeKind::Texture };
        let res = ShapeBackend {
            kind,
            rows: Vec::new(),
            image: Some(image),
            program: None,
            resident: Ghost(Seq::empty()),
        };
        assert(res.mirror() =~= Seq::<Seq<i64>>::empty());
        res
    }

    pub fn kind(&self) -> (res: ShapeKind)
        ensures
            res == self.spec_kind(),
    {
        self.kind
    }

    /// How many instances the mirror holds.
    pub fn count(&self) -> (res: usize)
        ensures
            res == self.mirror().len(),
    {
        self.rows.len()
    }

    /// Whether a program has been compiled for this backend.
    pub fn is_loaded(&self) -> (res: bool)
        ensures
            res == self.spec_program() is Some,
    {
        self.program.is_some()
    }

    /// The image that a textured backend samples.
    pub fn image(&self) -> (res: Option<&Image>)
        ensures
            res is Some <==> self.spec_image() is Some,
            res matches Some(image) ==> self.spec_image() == Some(*image),
    {
        self.image.as_ref()
    }

    /// Packs `attr` and puts it behind the last instance. Nothing is sent
    /// to the card.
    pub fn append(&mut self, attr: &ObjectData)
        requires
            old(self).wf(),
        ensures
            final(self).wf(),
            final(self).mirror() == old(self).mirror().push(encode(old(self).spec_kind(), *attr)),
            final(self).spec_kind() == old(self).spec_kind(),
            final(self).spec_program() == old(self).spec_program(),
            final(self).spec_image() == old(self).spec_image(),
            final(self).resident() == old(self).resident(),
    {
        let row = encode_instance(self.kind, attr);
        self.rows.push(row);
        assert(self.mirror() =~= old(self).mirror().push(encode(self.kind, *attr)));
    }

    /// Packs `attr` anew in place of instance `i`. An `i` that names no
    /// instance is refused, and nothing changes.
    pub fn replace(&mut self, i: usize, attr: &ObjectData) -> (res: Result<(), ShaderError>)
        requires
            old(self).wf(),
        ensures
            final(self).wf(),
            i < old(self).mirror().len() ==> res is Ok && final(self).mirror()
                == old(self).mirror().update(i as int, encode(old(self).spec_kind(), *attr)),
            i >= old(self).mirror().len() ==> res == Err::<(), ShaderError>(
                ShaderError::IndexOutOfRange(i),
            ) && *final(self) == *old(self),
            final(self).spec_kind() == old(self).spec_kind(),
            final(self).spec_program() == old(self).spec_program(),
            final(self).spec_image() == old(self).spec_image(),
            final(self).resident() == old(self).resident(),
    {
        if i >= self.rows.len() {
            return Err(ShaderError::IndexOutOfRange(i));
        }
        let row = encode_instance(self.kind, attr);
        self.rows[i] = row;
        assert(self.mirror() =~= old(self).mirror().update(
            i as int,
            encode(self.kind, *attr),
        ));
        Ok(())
    }

    /// Takes instance `i` out; those behind it move one place down. An `i`
    /// that names no instance is refused, and nothing changes.
    pub fn remove(&mut self, i: usize) -> (res: Result<(), ShaderError>)
        requires
            old(self).wf(),
        ensures
            final(self).wf(),
            i < old(self).mirror().len() ==> res is Ok && final(self).mirror()
                == old(self).mirror().remove(i as int),
            i >= old(self).mirror().len() ==> res == Err::<(), ShaderError>(
                ShaderError::IndexOutOfRange(i),
            ) && *final(self) == *old(self),
            final(self).spec_kind() == old(self).spec_kind(),
            final(self).spec_program() == old(self).spec_program(),
            final(self).spec_image() == old(self).spec_image(),
            final(self).resident() == old(self).resident(),
    {
        if i >= self.rows.len() {
            return Err(ShaderError::IndexOutOfRange(i));
        }
        let _ = self.rows.remove(i);
        assert(self.mirror() =~= old(self).mirror().remove(i as int));
        Ok(())
    }

    /// All records of the mirror, one after another.
    pub fn packed(&self) -> (res: Vec<i64>)
        ensures
            res@ == flatten(self.mirror()),
    {
        let mut out: Vec<i64> = Vec::new();
        let mut k: usize = 0;
        while k < self.rows.len()
            invariant
                k <= self.rows.len(),
                out@ == flatten(self.mirror().take(k as int)),
            decreases self.rows.len() - k,
        {
            let row = &self.rows[k];
            let mut j: usize = 0;
            while j < row.len()
                invariant
                    j <= row.len(),
                    k < self.rows.len(),
                    row == &self.rows[k as int],
                    out@ == flatten(self.mirror().take(k as int)) + row@.take(j as int),
                decreases row.len() - j,
            {
                out.push(row[j]);
                assert(row@.take(j + 1) == row@.take(j as int).push(row@[j as int]));
                j = j + 1;
            }
            assert(row@.take(row.len() as int) == row@);
            assert(self.mirror().take(k + 1).drop_last() == self.mirror().take(k as int));
            assert(self.mirror().take(k + 1).last() == row@);
            k = k + 1;
        }
        assert(self.mirror().take(k as int) == self.mirror());
        out
    }

    /// Takes what the shader compiler handed back. A usable program is kept,
    /// and the result says what the card must be given: the quad, every
    /// instance as it stands now, and how the shader reads both. Anything
    /// else is refused with the reason, and the backend stays as it was.
    pub fn compile_and_allocate(&mut self, compiled: Result<LinkedProgram, String>) -> (res: Result<
        Allocation,
        ShaderError,
    >)
        requires
            old(self).wf(),
        ensures
            final(self).wf(),
            final(self).spec_kind() == old(self).spec_kind(),
            final(self).mirror() == old(self).mirror(),
            final(self).spec_image() == old(self).spec_image(),
            match spec_accept(compiled) {
                Ok(program) => {
                    &&& res is Ok
                    &&& final(self).spec_program() == Some(program)
                    &&& final(self).resident() == old(self).mirror()
                    &&& res->Ok_0.quad@ == unit_quad()
                    &&& res->Ok_0.quad_layout == (VertexAttribute {
                        index: 0,
                        components: 2,
                        stride: 8,
                        offset: 0,
                        divisor: 0,
                    })
                    &&& res->Ok_0.instances@ == flatten(old(self).mirror())
                    &&& res->Ok_0.instance_layout@ == spec_instance_layout(old(self).spec_kind())
                    &&& res->Ok_0.texture == old(self).spec_kind().spec_textured()
                },
                Err(error) => res == Err::<Allocation, ShaderError>(error) && *final(self) == *old(self),
            },
    {
        match accept_program(compiled) {
            Err(error) => Err(error),
            Ok(program) => {
                let instances = self.packed();
                self.program = Some(program);
                self.resident = Ghost(self.mirror());
                Ok(
                    Allocation {
                        quad: quad_vertices(),
                        quad_layout: VertexAttribute {
                            index: 0,
                            components: 2,
                            stride: 8,
                            offset: 0,
                            divisor: 0,
                        },
                        instances,
                        instance_layout: instance_layout(self.kind),
                        texture: self.kind.textured(),
                    },
                )
            },
        }
    }

    /// Gives the whole mirror for a fresh upload of the per-instance
    /// buffer; after it the card holds what the mirror holds.
    pub fn resync(&mut self) -> (res: Vec<i64>)
        requires
            old(self).wf(),
            old(self).spec_program() is Some,
        ensures
            final(self).wf(),
            res@ == flatten(old(self).mirror()),
            final(self).resident() == old(self).mirror(),
            final(self).mirror() == old(self).mirror(),
            final(self).spec_kind() == old(self).spec_kind(),
            final(self).spec_program() == old(self).spec_program(),
            final(self).spec_image() == old(self).spec_image(),
    {
        let data = self.packed();
        self.resident = Ghost(self.mirror());
        data
    }

    /// The draw call for what the mirror holds now: one fan of four corners
    /// per instance. Without a program there is nothing to call.
    pub fn draw(&self) -> (res: Result<DrawCall, ShaderError>)
        requires
            self.wf(),
        ensures
            match self.spec_program() {
                Some(program) => {
                    &&& res is Ok
                    &&& res->Ok_0.program == program
                    &&& res->Ok_0.texture == self.spec_kind().spec_textured()
                    &&& res->Ok_0.vertices == 4
                    &&& res->Ok_0.instances == self.mirror().len()
                },
                None => res == Err::<DrawCall, ShaderError>(ShaderError::NotLoaded),
            },
    {
        match self.program {
            None => Err(ShaderError::NotLoaded),
            Some(program) => Ok(
                DrawCall {
                    program,
                    texture: self.kind.textured(),
                    vertices: 4,
                    instances: self.rows.len(),
                },
            ),
        }
    }
}

} // verus!
