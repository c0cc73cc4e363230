//! Objects that draw many instances of one shape in a single call.

use vstd::prelude::*;
use crate::backend::{
    encode, encode_all, flatten, spec_accept, spec_instance_layout, unit_quad, Allocation,
    DrawCall, LinkedProgram, ShaderError, ShapeBackend, ShapeKind,
};
use crate::collision::{point_in_offset_rect, spec_point_in_rect};
use crate::color::Color;
use crate::data::{ObjectData, TextureCoordinate};
use crate::image::Image;
use crate::transform::Transform;

verus! {

/// Whether the graphics card knows what the object holds.
#[derive(Clone, Copy, Debug, PartialEq, Eq, Structural)]
pub enum ObjectState {
    /// No program yet: the object cannot be drawn.
    NotLoaded,
    /// The card's buffer matches the instances.
    Clean,
    /// The instances changed since the last upload.
    Dirty,
}

/// The state after a change to the instances: a loaded object needs a fresh
/// upload, one that is not loaded stays so.
pub open spec fn touched(state: ObjectState) -> ObjectState {
    if state is NotLoaded {
        ObjectState::NotLoaded
    } else {
        ObjectState::Dirty
    }
}

/// What one call of `draw` asks of the renderer, in this order: upload the
/// per-instance buffer if there is one to upload, then issue the call with
/// the model matrix of `model`.
pub struct Frame {
    pub upload: Option<Vec<i64>>,
    pub call: DrawCall,
    pub model: Transform,
}

/// Many instances of one shape, drawn together. Instances are addressed by
/// their index; removing one moves all later ones down by one.
pub struct InstancedShader {
    pub transform: Transform,
    object_data: Vec<ObjectData>,
    object: ShapeBackend,
    state: ObjectState,
}

impl InstancedShader {
    /// The instances, in drawing order.
    pub closed spec fn instances(&self) -> Seq<ObjectData> {
        self.object_data@
    }

    pub closed spec fn backend(&self) -> ShapeBackend {
        self.object
    }

    pub closed spec fn spec_state(&self) -> ObjectState {
        self.state
    }

    /// Where the object stands: the public field `transform`.
    pub closed spec fn spec_transform(&self) -> Transform {
        self.transform
    }

    /// The backend mirrors the instances one for one, the state says whether
    /// a program exists, and a clean object's buffer on the card holds
    /// exactly the mirror.
    pub open spec fn wf(&self) -> bool {
        &&& self.backend().wf()
        &&& self.backend().mirror() == encode_all(self.backend().spec_kind(), self.instances())
        &&& self.spec_state() is NotLoaded <==> self.backend().spec_program() is None
        &&& self.spec_state() is Clean ==> self.backend().resident() == self.backend().mirror()
    }

    /// `self` is `before` with its instances replaced by `instances`, and
    /// marked for upload; nothing else differs.
    pub open spec fn follows(&self, before: &InstancedShader, instances: Seq<ObjectData>) -> bool {
        &&& self.wf()
        &&& self.instances() == instances
        &&& self.spec_state() == touched(before.spec_state())
        &&& self.spec_transform() == before.spec_transform()
        &&& self.backend().spec_kind() == before.backend().spec_kind()
        &&& self.backend().spec_program() == before.backend().spec_program()
        &&& self.backend().spec_image() == before.backend().spec_image()
        &&& self.backend().resident() == before.backend().resident()
    }

    /// `self` is what a draw leaves of the loaded object `before`, and
    /// `frame` is what that draw asks for: the same instances, now clean
    /// and on the card; one call for all of them; and an upload of all of
    /// them exactly where `before` was dirty.
    pub open spec fn drawn(&self, before: &InstancedShader, frame: Frame) -> bool {
        &&& self.wf()
        &&& self.spec_state() is Clean
        &&& self.instances() == before.instances()
        &&& self.spec_transform() == before.spec_transform()
        &&& self.backend().spec_kind() == before.backend().spec_kind()
        &&& self.backend().spec_image() == before.backend().spec_image()
        &&& self.backend().spec_program() == before.backend().spec_program()
        &&& self.backend().resident() == encode_all(
            before.backend().spec_kind(),
            before.instances(),
        )
        &&& self.backend().mirror().len() == before.instances().len()
        &&& frame.call.program == before.backend().spec_program()->Some_0
        &&& frame.call.texture == before.backend().spec_kind().spec_textured()
        &&& frame.call.vertices == 4
        &&& frame.call.instances == before.instances().len()
        &&& frame.model == before.spec_transform()
        &&& before.spec_state() is Clean ==> frame.upload is None
        &&& before.spec_state() is Dirty ==> frame.upload is Some && frame.upload->Some_0@
            == flatten(encode_all(before.backend().spec_kind(), before.instances()))
    }

    /// Whether the point hits instance `i`: the rectangle starts at the
    /// object's position plus the instance's offset and has its size.
    pub open spec fn hits(&self, i: int, x: i64, y: i64) -> bool {
        spec_point_in_rect(
            x as int,
            y as int,
            self.spec_transform().x + self.instances()[i].offset.0,
            self.spec_transform().y + self.instances()[i].offset.1,
            self.instances()[i].dim.0 as int,
            self.instances()[i].dim.1 as int,
        )
    }

    fn with_backend(object: ShapeBackend) -> (res: InstancedShader)
        requires
            object.wf(),
            object.mirror() == Seq::<Seq<i64>>::empty(),
            object.spec_program() is None,
        ensures
            res.wf(),
            res.backend() == object,
            res.instances() == Seq::<ObjectData>::empty(),
            res.spec_state() is NotLoaded,
            res.spec_transform() == Transform::spec_new(),
    {
        let res = InstancedShader {
            transform: Transform::new(),
            object_data: Vec::new(),
            object,
            state: ObjectState::NotLoaded,
        };
        assert(res.backend().mirror() =~= encode_all(res.backend().spec_kind(), res.instances()));
        res
    }

    /// An empty object that draws rectangles.
    pub fn rect() -> (res: Result<InstancedShader, ShaderError>)
        ensures
            res matches Ok(object) && object.wf() && object.instances() == Seq::<
                ObjectData,
            >::empty() && object.spec_state() is NotLoaded && object.backend().spec_kind()
                == ShapeKind::Rectangle && object.spec_transform() == Transform::spec_new(),
    {
        Ok(InstancedShader::with_backend(ShapeBackend::rect()))
    }

    /// An empty object that draws circles.
    pub fn circle() -> (res: Result<InstancedShader, ShaderError>)
        ensures
            res matches Ok(object) && object.wf() && object.instances() == Seq::<
                ObjectData,
            >::empty() && object.spec_state() is NotLoaded && object.backend().spec_kind()
                == ShapeKind::Circle && object.spec_transform() == Transform::spec_new(),
    {
        Ok(InstancedShader::with_backend(ShapeBackend::circle()))
    }

    /// An empty object that draws parts of `image`.
    pub fn texture(image: Image) -> (res: Result<InstancedShader, ShaderError>)
        ensures
            res matches Ok(object) && object.wf() && object.instances() == Seq::<
                ObjectData,
            >::empty() && object.spec_state() is NotLoaded && object.backend().spec_kind()
                == ShapeKind::Texture && object.backend().spec_image() == Some(image)
                && object.spec_transform() == Transform::spec_new(),
    {
        Ok(InstancedShader::with_backend(ShapeBackend::textured(image, false)))
    }

    /// An empty object that draws `image`, a rendered line of text.
    pub fn text(image: Image) -> (res: Result<InstancedShader, ShaderError>)
        ensures
            res matches Ok(object) && object.wf() && object.instances() == Seq::<
                ObjectData,
            >::empty() && object.spec_state() is NotLoaded && object.backend().spec_kind()
                == ShapeKind::Text && object.backend().spec_image() == Some(image)
                && object.spec_transform() == Transform::spec_new(),
    {
        Ok(InstancedShader::with_backend(ShapeBackend::textured(image, true)))
    }

    /// Where the object stands.
    pub fn get_transform(&self) -> (res: Transform)
        ensures
            res == self.spec_transform(),
    {
        self.transform
    }

    /// Puts the object elsewhere. The instances and the card are not
    /// touched: the transform reaches the card with every draw.
    pub fn set_transform(&mut self, transform: Transform)
        requires
            old(self).wf(),
        ensures
            final(self).wf(),
            final(self).spec_transform() == transform,
            final(self).instances() == old(self).instances(),
            final(self).spec_state() == old(self).spec_state(),
            final(self).backend() == old(self).backend(),
    {
        self.transform = transform;
    }

    /// How many instances there are.
    pub fn len(&self) -> (res: usize)
        ensures
            res == self.instances().len(),
    {
        self.object_data.len()
    }

    pub fn state(&self) -> (res: ObjectState)
        ensures
            res == self.spec_state(),
    {
        self.state
    }

    pub fn kind(&self) -> (res: ShapeKind)
        ensures
            res == self.backend().spec_kind(),
    {
        self.object.kind()
    }

    /// The image that a textured object samples.
    pub fn image(&self) -> (res: Option<&Image>)
        ensures
            res is Some <==> self.backend().spec_image() is Some,
            res matches Some(image) ==> self.backend().spec_image() == Some(*image),
    {
        self.object.image()
    }

    /// How many instances the backend holds.
    pub fn backend_count(&self) -> (res: usize)
        ensures
            res == self.backend().mirror().len(),
    {
        self.object.count()
    }

    fn touch(&mut self)
        ensures
            final(self).state == touched(old(self).state),
            final(self).object == old(self).object,
            final(self).object_data == old(self).object_data,
            final(self).transform == old(self).transform,
    {
        match self.state {
            ObjectState::NotLoaded => {},
            _ => {
                self.state = ObjectState::Dirty;
            },
        }
    }

    fn index_oob(&self, i: usize) -> (res: Result<(), ShaderError>)
        ensures
            i < self.instances().len() ==> res is Ok,
            i >= self.instances().len() ==> res == Err::<(), ShaderError>(
                ShaderError::IndexOutOfRange(i),
            ),
    {
        if i >= self.object_data.len() {
            Err(ShaderError::IndexOutOfRange(i))
        } else {
            Ok(())
        }
    }

    fn store(&mut self, i: usize, data: ObjectData)
        requires
            old(self).wf(),
            i < old(self).instances().len(),
        ensures
            final(self).follows(old(self), old(self).instances().update(i as int, data)),
    {
        self.object_data[i] = data;
        let replaced = self.object.replace(i, &data);
        self.touch();
        assert(self.backend().mirror() =~= encode_all(
            self.backend().spec_kind(),
            self.instances(),
        ));
    }

    /// Adds an instance behind the last one.
    pub fn add(&mut self, object_data: &ObjectData)
        requires
            old(self).wf(),
        ensures
            final(self).follows(old(self), old(self).instances().push(*object_data)),
    {
        self.object_data.push(*object_data);
        self.object.append(object_data);
        self.touch();
        assert(self.backend().mirror() =~= encode_all(
            self.backend().spec_kind(),
            self.instances(),
        ));
    }

    /// Takes instance `i` out, here and in the backend. An `i` that names no
    /// instance is refused and changes nothing.
    pub fn remove(&mut self, i: usize) -> (res: Result<(), ShaderError>)
        requires
            old(self).wf(),
        ensures
            i < old(self).instances().len() ==> res is Ok && final(self).follows(
                old(self),
                old(self).instances().remove(i as int),
            ),
            i >= old(self).instances().len() ==> res == Err::<(), ShaderError>(
                ShaderError::IndexOutOfRange(i),
            ) && *final(self) == *old(self),
    {
        match self.index_oob(i) {
            Err(error) => {
                return Err(error);
            },
            Ok(()) => {},
        }
        let _ = self.object_data.remove(i);
        let removed = self.object.remove(i);
        self.touch();
        assert(self.backend().mirror() =~= encode_all(
            self.backend().spec_kind(),
            self.instances(),
        ));
        Ok(())
    }

    /// Takes what the shader compiler handed back for this object's kind.
    /// With a usable program the object becomes clean, and the result says
    /// what the card must be given. Otherwise the reason is returned and the
    /// object stays as it was.
    pub fn load(&mut self, compiled: Result<LinkedProgram, String>) -> (res: Result<
        Allocation,
        ShaderError,
    >)
        requires
            old(self).wf(),
        ensures
            final(self).wf(),
            match spec_accept(compiled) {
                Ok(program) => {
                    &&& res is Ok
                    &&& final(self).spec_state() is Clean
                    &&& final(self).instances() == old(self).instances()
                    &&& final(self).spec_transform() == old(self).spec_transform()
                    &&& final(self).backend().spec_kind() == old(self).backend().spec_kind()
                    &&& final(self).backend().spec_image() == old(self).backend().spec_image()
                    &&& final(self).backend().spec_program() == Some(program)
                    &&& res->Ok_0.quad@ == unit_quad()
                    &&& res->Ok_0.instances@ == flatten(
                        encode_all(old(self).backend().spec_kind(), old(self).instances()),
                    )
                    &&& res->Ok_0.instance_layout@ == spec_instance_layout(
                        old(self).backend().spec_kind(),
                    )
                    &&& res->Ok_0.texture == old(self).backend().spec_kind().spec_textured()
                },
                Err(error) => res == Err::<Allocation, ShaderError>(error) && *final(self) == *old(self),
            },
    {
        match self.object.compile_and_allocate(compiled) {
            Err(error) => Err(error),
            Ok(allocation) => {
                self.state = ObjectState::Clean;
                Ok(allocation)
            },
        }
    }

    /// Draws every instance in one call. A dirty object first hands over its
    /// instances for upload and becomes clean; a clean one has nothing to
    /// upload. An object that is not loaded is refused and stays untouched.
    pub fn draw(&mut self) -> (res: Result<Frame, ShaderError>)
        requires
            old(self).wf(),
        ensures
            final(self).wf(),
            old(self).spec_state() is NotLoaded ==> res is Err && res->Err_0 == ShaderError::NotLoaded
                && *final(self) == *old(self),
            !(old(self).spec_state() is NotLoaded) ==> res is Ok && final(self).drawn(
                old(self),
                res->Ok_0,
            ),
    {
        let upload = match self.state {
            ObjectState::NotLoaded => {
                return Err(ShaderError::NotLoaded);
            },
            ObjectState::Clean => None,
            ObjectState::Dirty => {
                let data = self.object.resync();
                self.state = ObjectState::Clean;
                Some(data)
            },
        };
        match self.object.draw() {
            Ok(call) => Ok(Frame { upload, call, model: self.transform }),
            Err(error) => Err(error),
        }
    }

    /// Sets the width and the height of instance `i`. An `i` that names no
    /// instance is refused and
    /// changes nothing.
    pub fn set_dim(&mut self, i: usize, width: i64, height: i64) -> (res: Result<(), ShaderError>)
        requires
            old(self).wf(),
        ensures
            i < old(self).instances().len() ==> res is Ok && final(self).follows(
                old(self),
                old(self).instances().update(
                    i as int,
                    (ObjectData { dim: (width, height), ..old(self).instances()[i as int] }),
                ),
            ),
            i >= old(self).instances().len() ==> res == Err::<(), ShaderError>(
                ShaderError::IndexOutOfRange(i),
            ) && *final(self) == *old(self),
    {
        match self.index_oob(i) {
            Err(error) => {
                return Err(error);
            },
            Ok(()) => {},
        }
        let mut data = self.object_data[i];
        data.dim = (width, height);
        self.store(i, data);
        Ok(())
    }

    /// The width and the height of instance `i`.
    pub fn dim(&self, i: usize) -> (res: Result<(i64, i64), ShaderError>)
        ensures
            i < self.instances().len() ==> res == Ok::<(i64, i64), ShaderError>(
                self.instances()[i as int].dim,
            ),
            i >= self.instances().len() ==> res == Err::<(i64, i64), ShaderError>(
                ShaderError::IndexOutOfRange(i),
            ),
    {
        match self.index_oob(i) {
            Err(error) => Err(error),
            Ok(()) => Ok(self.object_data[i].dim),
        }
    }

    /// Sets the width of instance `i`. An `i` that names no instance is refused
    /// and
    /// changes nothing.
    pub fn set_width(&mut self, i: usize, width: i64) -> (res: Result<(), ShaderError>)
        requires
            old(self).wf(),
        ensures
            i < old(self).instances().len() ==> res is Ok && final(self).follows(
                old(self),
                old(self).instances().update(
                    i as int,
                    (ObjectData {
                        dim: (width, old(self).instances()[i as int].dim.1),
                        ..old(self).instances()[i as int]
                    }),
                ),
            ),
            i >= old(self).instances().len() ==> res == Err::<(), ShaderError>(
                ShaderError::IndexOutOfRange(i),
            ) && *final(self) == *old(self),
    {
        match self.index_oob(i) {
            Err(error) => {
                return Err(error);
            },
            Ok(()) => {},
        }
        let mut data = self.object_data[i];
        data.dim = (width, data.dim.1);
        self.store(i, data);
        Ok(())
    }

    /// The width of instance `i`.
    pub fn width(&self, i: usize) -> (res: Result<i64, ShaderError>)
        ensures
            i < self.instances().len() ==> res == Ok::<i64, ShaderError>(
                self.instances()[i as int].dim.0,
            ),
            i >= self.instances().len() ==> res == Err::<i64, ShaderError>(
                ShaderError::IndexOutOfRange(i),
            ),
    {
        match self.index_oob(i) {
            Err(error) => Err(error),
            Ok(()) => Ok(self.object_data[i].dim.0),
        }
    }

    /// Sets the height of instance `i`. An `i` that names no instance is refused
    /// and
    /// changes nothing.
    pub fn set_height(&mut self, i: usize, height: i64) -> (res: Result<(), ShaderError>)
        requires
            old(self).wf(),
        ensures
            i < old(self).instances().len() ==> res is Ok && final(self).follows(
                old(self),
                old(self).instances().update(
                    i as int,
                    (ObjectData {
                        dim: (old(self).instances()[i as int].dim.0, height),
                        ..old(self).instances()[i as int]
                    }),
                ),
            ),
            i >= old(self).instances().len() ==> res == Err::<(), ShaderError>(
                ShaderError::IndexOutOfRange(i),
            ) && *final(self) == *old(self),
    {
        match self.index_oob(i) {
            Err(error) => {
                return Err(error);
            },
            Ok(()) => {},
        }
        let mut data = self.object_data[i];
        data.dim = (data.dim.0, height);
        self.store(i, data);
        Ok(())
    }

    /// The height of instance `i`.
    pub fn height(&self, i: usize) -> (res: Result<i64, ShaderError>)
        ensures
            i < self.instances().len() ==> res == Ok::<i64, ShaderError>(
                self.instances()[i as int].dim.1,
            ),
            i >= self.instances().len() ==> res == Err::<i64, ShaderError>(
                ShaderError::IndexOutOfRange(i),
            ),
    {
        match self.index_oob(i) {
            Err(error) => Err(error),
            Ok(()) => Ok(self.object_data[i].dim.1),
        }
    }

    /// Sets the colour of instance `i`. An `i` that names no instance is refused
    /// and
    /// changes nothing.
    pub fn set_color(&mut self, i: usize, color: &Color) -> (res: Result<(), ShaderError>)
        requires
            old(self).wf(),
        ensures
            i < old(self).instances().len() ==> res is Ok && final(self).follows(
                old(self),
                old(self).instances().update(
                    i as int,
                    (ObjectData { color: *color, ..old(self).instances()[i as int] }),
                ),
            ),
            i >= old(self).instances().len() ==> res == Err::<(), ShaderError>(
                ShaderError::IndexOutOfRange(i),
            ) && *final(self) == *old(self),
    {
        match self.index_oob(i) {
            Err(error) => {
                return Err(error);
            },
            Ok(()) => {},
        }
        let mut data = self.object_data[i];
        data.color = *color;
        self.store(i, data);
        Ok(())
    }

    /// The colour of instance `i`.
    pub fn color(&self, i: usize) -> (res: Result<Color, ShaderError>)
        ensures
            i < self.instances().len() ==> res == Ok::<Color, ShaderError>(
                self.instances()[i as int].color,
            ),
            i >= self.instances().len() ==> res == Err::<Color, ShaderError>(
                ShaderError::IndexOutOfRange(i),
            ),
    {
        match self.index_oob(i) {
            Err(error) => Err(error),
            Ok(()) => Ok(self.object_data[i].color),
        }
    }

    /// Sets the opacity of instance `i`. An `i` that names no instance is refused
    /// and
    /// changes nothing.
    pub fn set_opacity(&mut self, i: usize, opacity: i64) -> (res: Result<(), ShaderError>)
        requires
            old(self).wf(),
        ensures
            i < old(self).instances().len() ==> res is Ok && final(self).follows(
                old(self),
                old(self).instances().update(
                    i as int,
                    (ObjectData { opacity: opacity, ..old(self).instances()[i as int] }),
                ),
            ),
            i >= old(self).instances().len() ==> res == Err::<(), ShaderError>(
                ShaderError::IndexOutOfRange(i),
            ) && *final(self) == *old(self),
    {
        match self.index_oob(i) {
            Err(error) => {
                return Err(error);
            },
            Ok(()) => {},
        }
        let mut data = self.object_data[i];
        data.opacity = opacity;
        self.store(i, data);
        Ok(())
    }

    /// The opacity of instance `i`.
    pub fn opacity(&self, i: usize) -> (res: Result<i64, ShaderError>)
        ensures
            i < self.instances().len() ==> res == Ok::<i64, ShaderError>(
                self.instances()[i as int].opacity,
            ),
            i >= self.instances().len() ==> res == Err::<i64, ShaderError>(
                ShaderError::IndexOutOfRange(i),
            ),
    {
        match self.index_oob(i) {
            Err(error) => Err(error),
            Ok(()) => Ok(self.object_data[i].opacity),
        }
    }

    /// Sets the offset of instance `i` from where the object stands. An `i` that
    /// names no instance is refused and
    /// changes nothing.
    pub fn set_offset(&mut self, i: usize, x_offset: i64, y_offset: i64) -> (res: Result<(), ShaderError>)
        requires
            old(self).wf(),
        ensures
            i < old(self).instances().len() ==> res is Ok && final(self).follows(
                old(self),
                old(self).instances().update(
                    i as int,
                    (ObjectData { offset: (x_offset, y_offset), ..old(self).instances()[i as int] }),
                ),
            ),
            i >= old(self).instances().len() ==> res == Err::<(), ShaderError>(
                ShaderError::IndexOutOfRange(i),
            ) && *final(self) == *old(self),
    {
        match self.index_oob(i) {
            Err(error) => {
                return Err(error);
            },
            Ok(()) => {},
        }
        let mut data = self.object_data[i];
        data.offset = (x_offset, y_offset);
        self.store(i, data);
        Ok(())
    }

    /// The offset of instance `i`.
    pub fn offset(&self, i: usize) -> (res: Result<(i64, i64), ShaderError>)
        ensures
            i < self.instances().len() ==> res == Ok::<(i64, i64), ShaderError>(
                self.instances()[i as int].offset,
            ),
            i >= self.instances().len() ==> res == Err::<(i64, i64), ShaderError>(
                ShaderError::IndexOutOfRange(i),
            ),
    {
        match self.index_oob(i) {
            Err(error) => Err(error),
            Ok(()) => Ok(self.object_data[i].offset),
        }
    }

    /// Sets the texture coordinates of instance `i`. An `i` that names no
    /// instance is refused and
    /// changes nothing.
    pub fn set_texcoord(&mut self, i: usize, texcoord: TextureCoordinate) -> (res: Result<(), ShaderError>)
        requires
            old(self).wf(),
        ensures
            i < old(self).instances().len() ==> res is Ok && final(self).follows(
                old(self),
                old(self).instances().update(
                    i as int,
                    (ObjectData { texcoord: texcoord, ..old(self).instances()[i as int] }),
                ),
            ),
            i >= old(self).instances().len() ==> res == Err::<(), ShaderError>(
                ShaderError::IndexOutOfRange(i),
            ) && *final(self) == *old(self),
    {
        match self.index_oob(i) {
            Err(error) => {
                return Err(error);
            },
            Ok(()) => {},
        }
        let mut data = self.object_data[i];
        data.texcoord = texcoord;
        self.store(i, data);
        Ok(())
    }

    /// The texture coordinates of instance `i`.
    pub fn texcoord(&self, i: usize) -> (res: Result<TextureCoordinate, ShaderError>)
        ensures
            i < self.instances().len() ==> res == Ok::<TextureCoordinate, ShaderError>(
                self.instances()[i as int].texcoord,
            ),
            i >= self.instances().len() ==> res == Err::<TextureCoordinate, ShaderError>(
                ShaderError::IndexOutOfRange(i),
            ),
    {
        match self.index_oob(i) {
            Err(error) => Err(error),
            Ok(()) => Ok(self.object_data[i].texcoord),
        }
    }

    /// Whether the point hits instance `i`, edges included.
    pub fn instance_collides(&self, i: usize, x: i64, y: i64) -> (res: Result<bool, ShaderError>)
        ensures
            i < self.instances().len() ==> res == Ok::<bool, ShaderError>(self.hits(i as int, x, y)),
            i >= self.instances().len() ==> res == Err::<bool, ShaderError>(
                ShaderError::IndexOutOfRange(i),
            ),
    {
        match self.index_oob(i) {
            Err(error) => Err(error),
            Ok(()) => {
                let data = &self.object_data[i];
                Ok(
                    point_in_offset_rect(
                        (x, y),
                        (self.transform.x, self.transform.y),
                        data.offset,
                        data.dim,
                    ),
                )
            },
        }
    }

    /// The first instance that the point hits, going up from index 0, or
    /// `None` where it hits none. Never fails.
    pub fn collides(&self, x: i64, y: i64) -> (res: Result<Option<usize>, ShaderError>)
        ensures
            res is Ok,
            match res->Ok_0 {
                Some(k) => k < self.instances().len() && self.hits(k as int, x, y) && forall|j: int|
                    0 <= j < k ==> !self.hits(j, x, y),
                None => forall|j: int| 0 <= j < self.instances().len() ==> !self.hits(j, x, y),
            },
    {
        let mut i: usize = 0;
        while i < self.object_data.len()
            invariant
                i <= self.instances().len(),
                forall|j: int| 0 <= j < i ==> !self.hits(j, x, y),
            decreases self.instances().len() - i,
        {
            match self.instance_collides(i, x, y) {
                Ok(true) => {
                    return Ok(Some(i));
                },
                Ok(false) => {},
                Err(error) => {
                    return Err(error);
                },
            }
            i = i + 1;
        }
        Ok(None)
    }
}

/// In every well-formed object the backend holds as many instances as the
/// object, in the same order, each packed for the object's kind. After a
/// draw the card's buffer holds them too.
pub proof fn lemma_backend_mirrors_instances(object: InstancedShader)
    requires
        object.wf(),
    ensures
        object.backend().mirror().len() == object.instances().len(),
        forall|i: int|
            0 <= i < object.instances().len() ==> object.backend().mirror()[i] == encode(
                object.backend().spec_kind(),
                object.instances()[i],
            ),
        object.spec_state() is Clean ==> object.backend().resident().len()
            == object.instances().len(),
{
}

/// Setting the colour of instance `i` and then reading it gives the colour
/// that was set; every other instance, and every other attribute of
/// instance `i`, is as before, and setting the same colour again changes
/// nothing more.
pub proof fn lemma_set_color_round_trip(before: Seq<ObjectData>, i: int, color: Color)
    requires
        0 <= i < before.len(),
    ensures
        ({
            let after = before.update(i, ObjectData { color, ..before[i] });
            &&& after.len() == before.len()
            &&& after[i].color == color
            &&& after[i].dim == before[i].dim
            &&& after[i].opacity == before[i].opacity
            &&& after[i].offset == before[i].offset
            &&& after[i].texcoord == before[i].texcoord
            &&& forall|j: int| 0 <= j < before.len() && j != i ==> after[j] == before[j]
            &&& after.update(i, ObjectData { color, ..after[i] }) == after
        }),
{
    let after = before.update(i, ObjectData { color, ..before[i] });
    assert(after.update(i, ObjectData { color, ..after[i] }) =~= after);
}

} // verus!
