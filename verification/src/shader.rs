//! Objects that draw a single shape.

use vstd::prelude::*;
use crate::backend::{
    encode_all, flatten, spec_accept, Allocation, LinkedProgram, ShaderError, ShapeKind,
};
use crate::color::Color;
use crate::data::{ObjectData, TextureCoordinate};
use crate::image::Image;
use crate::instanced::{Frame, InstancedShader};
use crate::scalar::ONE;
use crate::transform::Transform;

verus! {

/// One shape on the screen: an instanced object that always holds exactly
/// one instance and is loaded from the start.
pub struct Shader {
    object: InstancedShader,
}

/// The size of an image in scalars: one unit per pixel.
pub open spec fn spec_image_dim(image: Image) -> (i64, i64) {
    ((image.spec_width() * 1_000_000) as i64, (image.spec_height() * 1_000_000) as i64)
}

/// The size of an image in scalars.
pub fn image_dim(image: &Image) -> (res: (i64, i64))
    ensures
        res == spec_image_dim(*image),
{
    let width: i64 = image.width() as i64;
    let height: i64 = image.height() as i64;
    (width * ONE, height * ONE)
}

impl Shader {
    /// The instanced object that does the work.
    pub closed spec fn inner(&self) -> InstancedShader {
        self.object
    }

    /// The attributes of the shape.
    pub open spec fn data(&self) -> ObjectData {
        self.inner().instances()[0]
    }

    /// There is exactly one instance, and a program.
    pub open spec fn wf(&self) -> bool {
        &&& self.inner().wf()
        &&& self.inner().instances().len() == 1
        &&& !(self.inner().spec_state() is NotLoaded)
    }

    /// `self` is `before` with the attributes replaced by `data`, and
    /// marked for upload.
    pub open spec fn follows(&self, before: &Shader, data: ObjectData) -> bool {
        &&& self.wf()
        &&& self.data() == data
        &&& self.inner().spec_state() is Dirty
        &&& self.inner().spec_transform() == before.inner().spec_transform()
        &&& self.inner().backend().spec_kind() == before.inner().backend().spec_kind()
        &&& self.inner().backend().spec_program() == before.inner().backend().spec_program()
        &&& self.inner().backend().spec_image() == before.inner().backend().spec_image()
    }

    /// Whether the point hits the shape, edges included.
    pub open spec fn hits(&self, x: i64, y: i64) -> bool {
        self.inner().hits(0, x, y)
    }

    fn build(object: InstancedShader, data: ObjectData, compiled: Result<LinkedProgram, String>) -> (res:
        Result<(Shader, Allocation), ShaderError>)
        requires
            object.wf(),
            object.instances() == Seq::<ObjectData>::empty(),
        ensures
            match spec_accept(compiled) {
                Ok(program) => {
                    &&& res is Ok
                    &&& res->Ok_0.0.wf()
                    &&& res->Ok_0.0.data() == data
                    &&& res->Ok_0.0.inner().spec_state() is Clean
                    &&& res->Ok_0.0.inner().spec_transform() == object.spec_transform()
                    &&& res->Ok_0.0.inner().backend().spec_kind() == object.backend().spec_kind()
                    &&& res->Ok_0.0.inner().backend().spec_image() == object.backend().spec_image()
                    &&& res->Ok_0.0.inner().backend().spec_program() == Some(program)
                    &&& res->Ok_0.1.instances@ == flatten(
                        encode_all(object.backend().spec_kind(), seq![data]),
                    )
                    &&& res->Ok_0.1.texture == object.backend().spec_kind().spec_textured()
                },
                Err(error) => res is Err && res->Err_0 == error,
            },
    {
        let mut object = object;
        object.add(&data);
        assert(object.instances() =~= seq![data]);
        match object.load(compiled) {
            Ok(allocation) => Ok((Shader { object }, allocation)),
            Err(error) => Err(error),
        }
    }

    /// A rectangle with the default attributes. Takes what the shader compiler
    /// handed back for the kind; fails
    /// as loading does.
    pub fn rect(compiled: Result<LinkedProgram, String>) -> (res: Result<
        (Shader, Allocation),
        ShaderError,
    >)
        ensures
            match spec_accept(compiled) {
                Ok(program) => {
                    &&& res is Ok
                    &&& res->Ok_0.0.wf()
                    &&& res->Ok_0.0.data() == ObjectData::spec_default()
                    &&& res->Ok_0.0.inner().spec_state() is Clean
                    &&& res->Ok_0.0.inner().spec_transform() == Transform::spec_new()
                    &&& res->Ok_0.0.inner().backend().spec_kind() == ShapeKind::Rectangle
                    &&& res->Ok_0.0.inner().backend().spec_program() == Some(program)
                },
                Err(error) => res is Err && res->Err_0 == error,
            },
    {
        let data = ObjectData::default();
        match InstancedShader::rect() {
            Ok(object) => Shader::build(object, data, compiled),
            Err(error) => Err(error),
        }
    }

    /// A circle with the default attributes. Takes what the shader compiler
    /// handed back for the kind; fails
    /// as loading does.
    pub fn circle(compiled: Result<LinkedProgram, String>) -> (res: Result<
        (Shader, Allocation),
        ShaderError,
    >)
        ensures
            match spec_accept(compiled) {
                Ok(program) => {
                    &&& res is Ok
                    &&& res->Ok_0.0.wf()
                    &&& res->Ok_0.0.data() == ObjectData::spec_default()
                    &&& res->Ok_0.0.inner().spec_state() is Clean
                    &&& res->Ok_0.0.inner().spec_transform() == Transform::spec_new()
                    &&& res->Ok_0.0.inner().backend().spec_kind() == ShapeKind::Circle
                    &&& res->Ok_0.0.inner().backend().spec_program() == Some(program)
                },
                Err(error) => res is Err && res->Err_0 == error,
            },
    {
        let data = ObjectData::default();
        match InstancedShader::circle() {
            Ok(object) => Shader::build(object, data, compiled),
            Err(error) => Err(error),
        }
    }

    /// The whole of `image`, at its own size. Takes what the shader compiler
    /// handed back for the kind; fails
    /// as loading does.
    pub fn texture(image: Image, compiled: Result<LinkedProgram, String>) -> (res: Result<
        (Shader, Allocation),
        ShaderError,
    >)
        ensures
            match spec_accept(compiled) {
                Ok(program) => {
                    &&& res is Ok
                    &&& res->Ok_0.0.wf()
                    &&& res->Ok_0.0.data() == (ObjectData {
                        dim: spec_image_dim(image),
                        ..ObjectData::spec_default()
                    })
                    &&& res->Ok_0.0.inner().spec_state() is Clean
                    &&& res->Ok_0.0.inner().spec_transform() == Transform::spec_new()
                    &&& res->Ok_0.0.inner().backend().spec_kind() == ShapeKind::Texture
                    &&& res->Ok_0.0.inner().backend().spec_program() == Some(program)
                    &&& res->Ok_0.0.inner().backend().spec_image() == Some(image)
                },
                Err(error) => res is Err && res->Err_0 == error,
            },
    {
        let mut data = ObjectData::default();
        data.dim = image_dim(&image);
        match InstancedShader::texture(image) {
            Ok(object) => Shader::build(object, data, compiled),
            Err(error) => Err(error),
        }
    }

    /// A rendered line of text, `image`, at its own size and in `color`. Takes
    /// what the shader compiler handed back for the kind; fails
    /// as loading does.
    pub fn text(image: Image, color: &Color, compiled: Result<LinkedProgram, String>) -> (res: Result<
        (Shader, Allocation),
        ShaderError,
    >)
        ensures
            match spec_accept(compiled) {
                Ok(program) => {
                    &&& res is Ok
                    &&& res->Ok_0.0.wf()
                    &&& res->Ok_0.0.data() == (ObjectData {
                        dim: spec_image_dim(image),
                        color: *color,
                        ..ObjectData::spec_default()
                    })
                    &&& res->Ok_0.0.inner().spec_state() is Clean
                    &&& res->Ok_0.0.inner().spec_transform() == Transform::spec_new()
                    &&& res->Ok_0.0.inner().backend().spec_kind() == ShapeKind::Text
                    &&& res->Ok_0.0.inner().backend().spec_program() == Some(program)
                    &&& res->Ok_0.0.inner().backend().spec_image() == Some(image)
                },
                Err(error) => res is Err && res->Err_0 == error,
            },
    {
        let mut data = ObjectData::default();
        data.dim = image_dim(&image);
        data.color = *color;
        match InstancedShader::text(image) {
            Ok(object) => Shader::build(object, data, compiled),
            Err(error) => Err(error),
        }
    }

    /// Draws the shape: with its attributes for upload where they changed
    /// since the last draw. Never fails.
    pub fn draw(&mut self) -> (res: Result<Frame, ShaderError>)
        requires
            old(self).wf(),
        ensures
            final(self).wf(),
            res is Ok,
            final(self).data() == old(self).data(),
            final(self).inner().spec_state() is Clean,
            final(self).inner().spec_transform() == old(self).inner().spec_transform(),
            final(self).inner().backend().spec_kind() == old(self).inner().backend().spec_kind(),
            final(self).inner().backend().spec_program() == old(self).inner().backend().spec_program(),
            res->Ok_0.call.instances == 1,
            res->Ok_0.call.vertices == 4,
            res->Ok_0.call.program == old(self).inner().backend().spec_program()->Some_0,
            res->Ok_0.model == old(self).inner().spec_transform(),
            old(self).inner().spec_state() is Clean ==> res->Ok_0.upload is None,
            old(self).inner().spec_state() is Dirty ==> res->Ok_0.upload is Some
                && res->Ok_0.upload->Some_0@ == flatten(
                encode_all(old(self).inner().backend().spec_kind(), seq![old(self).data()]),
            ),
    {
        assert(self.inner().instances() =~= seq![self.data()]);
        self.object.draw()
    }

    /// Where the shape stands.
    pub fn transform(&self) -> (res: Transform)
        ensures
            res == self.inner().spec_transform(),
    {
        self.object.get_transform()
    }

    /// Puts the shape elsewhere.
    pub fn set_transform(&mut self, transform: Transform)
        requires
            old(self).wf(),
        ensures
            final(self).wf(),
            final(self).inner().spec_transform() == transform,
            final(self).data() == old(self).data(),
            final(self).inner().spec_state() == old(self).inner().spec_state(),
            final(self).inner().backend() == old(self).inner().backend(),
    {
        self.object.set_transform(transform);
    }

    /// Whether the point hits the shape: its rectangle starts at the
    /// position plus the offset and has the shape's size, edges included.
    pub fn collides(&self, x: i64, y: i64) -> (res: bool)
        requires
            self.wf(),
        ensures
            res == self.hits(x, y),
    {
        self.object.instance_collides(0, x, y).unwrap()
    }

    /// Sets the width and the height.
    pub fn set_dim(&mut self, width: i64, height: i64)
        requires
            old(self).wf(),
        ensures
            final(self).follows(
                old(self),
                (ObjectData { dim: (width, height), ..old(self).data() }),
            ),
    {
        let done = self.object.set_dim(0, width, height);
    }

    /// The width and the height.
    pub fn dim(&self) -> (res: (i64, i64))
        requires
            self.wf(),
        ensures
            res == self.data().dim,
    {
        self.object.dim(0).unwrap()
    }

    /// Sets the width.
    pub fn set_width(&mut self, width: i64)
        requires
            old(self).wf(),
        ensures
            final(self).follows(
                old(self),
                (ObjectData { dim: (width, old(self).data().dim.1), ..old(self).data() }),
            ),
    {
        let done = self.object.set_width(0, width);
    }

    /// The width.
    pub fn width(&self) -> (res: i64)
        requires
            self.wf(),
        ensures
            res == self.data().dim.0,
    {
        self.object.width(0).unwrap()
    }

    /// Sets the height.
    pub fn set_height(&mut self, height: i64)
        requires
            old(self).wf(),
        ensures
            final(self).follows(
                old(self),
                (ObjectData { dim: (old(self).data().dim.0, height), ..old(self).data() }),
            ),
    {
        let done = self.object.set_height(0, height);
    }

    /// The height.
    pub fn height(&self) -> (res: i64)
        requires
            self.wf(),
        ensures
            res == self.data().dim.1,
    {
        self.object.height(0).unwrap()
    }

    /// Sets the colour.
    pub fn set_color(&mut self, color: &Color)
        requires
            old(self).wf(),
        ensures
            final(self).follows(
                old(self),
                (ObjectData { color: *color, ..old(self).data() }),
            ),
    {
        let done = self.object.set_color(0, color);
    }

    /// The colour.
    pub fn color(&self) -> (res: Color)
        requires
            self.wf(),
        ensures
            res == self.data().color,
    {
        self.object.color(0).unwrap()
    }

    /// Sets the opacity.
    pub fn set_opacity(&mut self, opacity: i64)
        requires
            old(self).wf(),
        ensures
            final(self).follows(
                old(self),
                (ObjectData { opacity: opacity, ..old(self).data() }),
            ),
    {
        let done = self.object.set_opacity(0, opacity);
    }

    /// The opacity.
    pub fn opacity(&self) -> (res: i64)
        requires
            self.wf(),
        ensures
            res == self.data().opacity,
    {
        self.object.opacity(0).unwrap()
    }

    /// Sets the offset from where the shape stands.
    pub fn set_offset(&mut self, x_offset: i64, y_offset: i64)
        requires
            old(self).wf(),
        ensures
            final(self).follows(
                old(self),
                (ObjectData { offset: (x_offset, y_offset), ..old(self).data() }),
            ),
    {
        let done = self.object.set_offset(0, x_offset, y_offset);
    }

    /// The offset.
    pub fn offset(&self) -> (res: (i64, i64))
        requires
            self.wf(),
        ensures
            res == self.data().offset,
    {
        self.object.offset(0).unwrap()
    }

    /// Sets the texture coordinates.
    pub fn set_texcoord(&mut self, texcoord: TextureCoordinate)
        requires
            old(self).wf(),
        ensures
            final(self).follows(
                old(self),
                (ObjectData { texcoord: texcoord, ..old(self).data() }),
            ),
    {
        let done = self.object.set_texcoord(0, texcoord);
    }

    /// The texture coordinates.
    pub fn texcoord(&self) -> (res: TextureCoordinate)
        requires
            self.wf(),
        ensures
            res == self.data().texcoord,
    {
        self.object.texcoord(0).unwrap()
    }
}

} // verus!
