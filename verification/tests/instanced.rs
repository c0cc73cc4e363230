use d7engine::backend::{
    encode_instance, instance_layout, location_of, quad_vertices, sampled_texcoord, LinkedProgram,
    Program, ShaderError, ShapeBackend, ShapeKind, UniformName, VertexAttribute,
};
use d7engine::collision::point_in_rect;
use d7engine::color::Color;
use d7engine::data::ObjectData;
use d7engine::image::Image;
use d7engine::instanced::{InstancedShader, ObjectState};
use d7engine::scalar::{ONE, TEXCOORD_INSET};
use d7engine::shader::Shader;
use d7engine::transform::Transform;

fn linked() -> Result<LinkedProgram, String> {
    Ok(LinkedProgram { id: 7, projection: Some(0), view_matrix: Some(1), model: Some(2) })
}

fn instance(x: i64, y: i64, w: i64, h: i64) -> ObjectData {
    let mut data = ObjectData::default();
    data.offset = (x * ONE, y * ONE);
    data.dim = (w * ONE, h * ONE);
    data
}

fn picture() -> Image {
    Image::new(2, 1, vec![255, 0, 0, 255, 0, 255, 0, 255]).unwrap()
}

#[test]
fn default_object_data() {
    let data = ObjectData::default();
    assert_eq!(data.color, Color { r: 0, g: 0, b: 0, a: 0 });
    assert_eq!(data.dim, (0, 0));
    assert_eq!(data.opacity, ONE);
    assert_eq!(data.offset, (0, 0));
    assert_eq!(data.texcoord, [0, 0, 0, ONE, ONE, ONE, ONE, 0]);
}

#[test]
fn draw_count_follows_adds_and_removes() {
    let mut object = InstancedShader::rect().unwrap();
    for i in 0..5 {
        object.add(&instance(i, i, 1, 1));
    }
    let allocation = object.load(linked()).unwrap();
    assert_eq!(allocation.instances.len(), 5 * 8);
    assert_eq!(object.state(), ObjectState::Clean);
    assert_eq!(object.remove(1), Ok(()));
    assert_eq!(object.remove(3), Ok(()));
    assert_eq!(object.state(), ObjectState::Dirty);
    let frame = object.draw().unwrap();
    assert_eq!(frame.call.instances, 3);
    assert_eq!(frame.call.vertices, 4);
    assert_eq!(object.backend_count(), 3);
    assert_eq!(object.len(), 3);
    let upload = frame.upload.unwrap();
    assert_eq!(upload.len(), 3 * 8);
    assert_eq!(upload[4], 0);
    assert_eq!(upload[8 + 4], 2 * ONE);
    assert_eq!(upload[16 + 4], 3 * ONE);
    assert_eq!(object.state(), ObjectState::Clean);
}

#[test]
fn clean_object_draws_without_upload() {
    let mut object = InstancedShader::circle().unwrap();
    object.add(&instance(0, 0, 1, 1));
    object.load(linked()).unwrap();
    let frame = object.draw().unwrap();
    assert!(frame.upload.is_none());
    assert_eq!(frame.call.instances, 1);
    assert!(!frame.call.texture);
    assert_eq!(
        frame.call.program,
        Program { id: 7, projection: 0, view_matrix: 1, model: 2 }
    );
    object.set_opacity(0, ONE / 2).unwrap();
    let frame = object.draw().unwrap();
    assert_eq!(frame.upload.unwrap()[3], ONE / 2);
    let frame = object.draw().unwrap();
    assert!(frame.upload.is_none());
}

#[test]
fn add_then_remove_leaves_a_zero_instance_draw() {
    let mut object = InstancedShader::rect().unwrap();
    let allocation = object.load(linked()).unwrap();
    assert!(allocation.instances.is_empty());
    object.add(&instance(0, 0, 1, 1));
    assert_eq!(object.len(), 1);
    assert_eq!(object.remove(0), Ok(()));
    assert_eq!(object.len(), 0);
    assert_eq!(object.backend_count(), 0);
    let frame = object.draw().unwrap();
    assert_eq!(frame.call.instances, 0);
    assert_eq!(frame.upload, Some(vec![]));
}

#[test]
fn collides_returns_the_first_hit() {
    let mut object = InstancedShader::rect().unwrap();
    object.add(&instance(0, 0, 10, 10));
    object.add(&instance(20, 20, 5, 5));
    assert_eq!(object.collides(5 * ONE, 5 * ONE), Ok(Some(0)));
    assert_eq!(object.collides(22 * ONE, 22 * ONE), Ok(Some(1)));
    assert_eq!(object.collides(100 * ONE, 100 * ONE), Ok(None));
    assert_eq!(object.instance_collides(1, 22 * ONE, 22 * ONE), Ok(true));
    assert_eq!(object.instance_collides(0, 22 * ONE, 22 * ONE), Ok(false));
    assert_eq!(
        object.instance_collides(2, 0, 0),
        Err(ShaderError::IndexOutOfRange(2))
    );
}

#[test]
fn collides_prefers_the_lower_index_on_a_shared_edge() {
    let mut object = InstancedShader::rect().unwrap();
    object.add(&instance(0, 0, 10, 10));
    object.add(&instance(10, 0, 10, 10));
    assert_eq!(object.collides(10 * ONE, 5 * ONE), Ok(Some(0)));
    assert_eq!(object.collides(10 * ONE + 1, 5 * ONE), Ok(Some(1)));
}

#[test]
fn collides_counts_from_where_the_object_stands() {
    let mut object = InstancedShader::rect().unwrap();
    object.add(&instance(1, 1, 2, 2));
    object.transform.set(100 * ONE, 200 * ONE, 0);
    assert_eq!(object.collides(2 * ONE, 2 * ONE), Ok(None));
    assert_eq!(object.collides(101 * ONE, 201 * ONE), Ok(Some(0)));
    assert_eq!(object.collides(103 * ONE, 203 * ONE), Ok(Some(0)));
    assert_eq!(object.collides(103 * ONE + 1, 203 * ONE), Ok(None));
}

#[test]
fn collides_at_the_ends_of_the_number_range() {
    let mut object = InstancedShader::rect().unwrap();
    let mut data = ObjectData::default();
    data.offset = (i64::MAX, i64::MAX);
    data.dim = (i64::MAX, i64::MAX);
    object.add(&data);
    object.transform.set(i64::MAX, i64::MAX, 0);
    assert_eq!(object.collides(i64::MAX, i64::MAX), Ok(None));
    object.transform.set(0, 0, 0);
    assert_eq!(object.collides(i64::MAX, i64::MAX), Ok(Some(0)));
}

#[test]
fn test_point_in_rect() {
    let rect_x = 1 * ONE;
    let rect_y = 1 * ONE;
    let rect_width = 100 * ONE;
    let rect_height = 100 * ONE;

    assert_eq!(true, point_in_rect(2 * ONE, 1 * ONE, rect_x, rect_y, rect_width, rect_height));
    assert_eq!(false, point_in_rect(ONE / 2, 50 * ONE, rect_x, rect_y, rect_width, rect_height));
    assert_eq!(true, point_in_rect(101 * ONE, 101 * ONE, rect_x, rect_y, rect_width, rect_height));
    assert_eq!(false, point_in_rect(101 * ONE, 102 * ONE, rect_x, rect_y, rect_width, rect_height));
    assert_eq!(true, point_in_rect(1 * ONE, 1 * ONE, rect_x, rect_y, rect_width, rect_height));
}

#[test]
fn point_in_rect_includes_its_edges() {
    let one = ONE;
    assert!(point_in_rect(one, one, one, one, 100 * one, 100 * one));
    assert!(point_in_rect(101 * one, 101 * one, one, one, 100 * one, 100 * one));
    assert!(!point_in_rect(999_000, one, one, one, 100 * one, 100 * one));
    assert!(!point_in_rect(one, 101 * one + 1, one, one, 100 * one, 100 * one));
}

#[test]
fn set_color_round_trip() {
    let mut object = InstancedShader::rect().unwrap();
    object.add(&instance(0, 0, 1, 1));
    object.add(&instance(1, 1, 2, 2));
    object.add(&instance(2, 2, 3, 3));
    let red = Color::rgb(255, 0, 0);
    assert_eq!(object.set_color(1, &red), Ok(()));
    assert_eq!(object.color(1), Ok(red));
    assert_eq!(object.color(0), Ok(Color::default()));
    assert_eq!(object.color(2), Ok(Color::default()));
    assert_eq!(object.dim(1), Ok((2 * ONE, 2 * ONE)));
    assert_eq!(object.offset(1), Ok((ONE, ONE)));
    assert_eq!(object.set_color(1, &red), Ok(()));
    assert_eq!(object.color(1), Ok(red));
    assert_eq!(object.len(), 3);
}

#[test]
fn setters_and_getters() {
    let mut object = InstancedShader::rect().unwrap();
    object.add(&ObjectData::default());
    object.add(&ObjectData::default());
    object.set_dim(0, 3, 4).unwrap();
    assert_eq!(object.dim(0), Ok((3, 4)));
    object.set_width(0, 5).unwrap();
    assert_eq!(object.dim(0), Ok((5, 4)));
    assert_eq!(object.width(0), Ok(5));
    object.set_height(0, 6).unwrap();
    assert_eq!(object.dim(0), Ok((5, 6)));
    assert_eq!(object.height(0), Ok(6));
    object.set_opacity(0, 7).unwrap();
    assert_eq!(object.opacity(0), Ok(7));
    object.set_offset(0, 8, 9).unwrap();
    assert_eq!(object.offset(0), Ok((8, 9)));
    object.set_texcoord(0, [1, 2, 3, 4, 5, 6, 7, 8]).unwrap();
    assert_eq!(object.texcoord(0), Ok([1, 2, 3, 4, 5, 6, 7, 8]));
    assert_eq!(object.dim(1), Ok((0, 0)));
    assert_eq!(object.opacity(1), Ok(ONE));
    assert_eq!(object.texcoord(1), Ok([0, 0, 0, ONE, ONE, ONE, ONE, 0]));
    assert_eq!(object.state(), ObjectState::NotLoaded);
}

#[test]
fn draw_before_load_is_refused() {
    let mut object = InstancedShader::rect().unwrap();
    object.add(&instance(0, 0, 1, 1));
    assert_eq!(object.state(), ObjectState::NotLoaded);
    match object.draw() {
        Err(error) => assert_eq!(error, ShaderError::NotLoaded),
        Ok(_) => panic!("an object that is not loaded was drawn"),
    }
    assert_eq!(object.state(), ObjectState::NotLoaded);
    assert_eq!(object.len(), 1);
    assert_eq!(object.backend_count(), 1);
}

#[test]
fn index_out_of_range_changes_nothing() {
    let mut object = InstancedShader::rect().unwrap();
    object.add(&instance(1, 2, 3, 4));
    object.load(linked()).unwrap();
    let red = Color::rgb(255, 0, 0);
    assert_eq!(object.remove(1), Err(ShaderError::IndexOutOfRange(1)));
    assert_eq!(object.set_dim(1, 1, 1), Err(ShaderError::IndexOutOfRange(1)));
    assert_eq!(object.set_width(7, 1), Err(ShaderError::IndexOutOfRange(7)));
    assert_eq!(object.set_height(1, 1), Err(ShaderError::IndexOutOfRange(1)));
    assert_eq!(object.set_color(1, &red), Err(ShaderError::IndexOutOfRange(1)));
    assert_eq!(object.set_opacity(1, 0), Err(ShaderError::IndexOutOfRange(1)));
    assert_eq!(object.set_offset(1, 0, 0), Err(ShaderError::IndexOutOfRange(1)));
    assert_eq!(
        object.set_texcoord(usize::MAX, [0; 8]),
        Err(ShaderError::IndexOutOfRange(usize::MAX))
    );
    assert_eq!(object.dim(1), Err(ShaderError::IndexOutOfRange(1)));
    assert_eq!(object.color(1), Err(ShaderError::IndexOutOfRange(1)));
    assert_eq!(object.state(), ObjectState::Clean);
    assert_eq!(object.len(), 1);
    assert_eq!(object.backend_count(), 1);
    assert_eq!(object.dim(0), Ok((3 * ONE, 4 * ONE)));
    let frame = object.draw().unwrap();
    assert!(frame.upload.is_none());
    assert_eq!(frame.call.instances, 1);
}

#[test]
fn load_reports_what_the_compiler_said() {
    let mut object = InstancedShader::rect().unwrap();
    match object.load(Err("0:1: syntax error".to_string())) {
        Err(error) => assert_eq!(error, ShaderError::CompileError("0:1: syntax error".to_string())),
        Ok(_) => panic!("a program that did not compile was taken"),
    }
    assert_eq!(object.state(), ObjectState::NotLoaded);
}

#[test]
fn load_names_the_first_missing_uniform() {
    let mut object = InstancedShader::rect().unwrap();
    let cases = [
        (None, Some(1), Some(2), UniformName::Projection),
        (Some(0), None, Some(2), UniformName::View),
        (Some(0), Some(1), None, UniformName::Model),
        (None, None, None, UniformName::Projection),
        (Some(0), None, None, UniformName::View),
    ];
    for (projection, view_matrix, model, missing) in cases {
        let compiled = Ok(LinkedProgram { id: 1, projection, view_matrix, model });
        match object.load(compiled) {
            Err(error) => assert_eq!(error, ShaderError::UniformNotFound(missing)),
            Ok(_) => panic!("a program without a matrix was taken"),
        }
        assert_eq!(object.state(), ObjectState::NotLoaded);
    }
}

#[test]
fn load_hands_over_quad_layout_and_instances() {
    let mut object = InstancedShader::rect().unwrap();
    let mut data = instance(4, 5, 6, 7);
    data.color = Color { r: 1, g: 2, b: 3, a: 9 };
    data.opacity = 8;
    object.add(&data);
    let allocation = object.load(linked()).unwrap();
    assert_eq!(allocation.quad, vec![ONE, 0, 0, 0, 0, ONE, ONE, ONE]);
    assert_eq!(
        allocation.quad_layout,
        VertexAttribute { index: 0, components: 2, stride: 8, offset: 0, divisor: 0 }
    );
    assert_eq!(
        allocation.instances,
        vec![1, 2, 3, 8, 4 * ONE, 5 * ONE, 6 * ONE, 7 * ONE]
    );
    assert_eq!(allocation.instance_layout, instance_layout(ShapeKind::Rectangle));
    assert!(!allocation.texture);
}

#[test]
fn textured_object_packs_thirteen_scalars() {
    let mut object = InstancedShader::texture(picture()).unwrap();
    assert_eq!(object.kind(), ShapeKind::Texture);
    let mut data = instance(4, 5, 6, 7);
    data.opacity = 8;
    data.texcoord = [10, 11, 12, 13, 14, 15, 16, 17];
    object.add(&data);
    let allocation = object.load(linked()).unwrap();
    assert_eq!(
        allocation.instances,
        vec![4 * ONE, 5 * ONE, 6 * ONE, 7 * ONE, 8, 10, 11, 12, 13, 14, 15, 16, 17]
    );
    assert!(allocation.texture);
    assert_eq!(object.image().unwrap().width(), 2);
    let frame = object.draw().unwrap();
    assert!(frame.call.texture);
    let text = InstancedShader::text(picture()).unwrap();
    assert_eq!(text.kind(), ShapeKind::Text);
    assert!(InstancedShader::rect().unwrap().image().is_none());
}

#[test]
fn layouts_of_the_kinds() {
    assert_eq!(
        instance_layout(ShapeKind::Circle),
        vec![
            VertexAttribute { index: 1, components: 4, stride: 32, offset: 0, divisor: 1 },
            VertexAttribute { index: 2, components: 2, stride: 32, offset: 16, divisor: 1 },
            VertexAttribute { index: 3, components: 2, stride: 32, offset: 24, divisor: 1 },
        ]
    );
    assert_eq!(
        instance_layout(ShapeKind::Text),
        vec![
            VertexAttribute { index: 1, components: 2, stride: 52, offset: 0, divisor: 1 },
            VertexAttribute { index: 2, components: 2, stride: 52, offset: 8, divisor: 1 },
            VertexAttribute { index: 3, components: 1, stride: 52, offset: 16, divisor: 1 },
            VertexAttribute { index: 4, components: 4, stride: 52, offset: 20, divisor: 1 },
            VertexAttribute { index: 5, components: 4, stride: 52, offset: 36, divisor: 1 },
        ]
    );
    assert_eq!(ShapeKind::Rectangle.scalars_per_instance(), 8);
    assert_eq!(ShapeKind::Circle.scalars_per_instance(), 8);
    assert_eq!(ShapeKind::Texture.scalars_per_instance(), 13);
    assert_eq!(ShapeKind::Text.scalars_per_instance(), 13);
    assert_eq!(quad_vertices().len(), 8);
    assert_eq!(encode_instance(ShapeKind::Circle, &ObjectData::default()).len(), 8);
}

#[test]
fn backend_alone() {
    let mut backend = ShapeBackend::rect();
    assert_eq!(backend.draw(), Err(ShaderError::NotLoaded));
    backend.append(&instance(1, 1, 1, 1));
    backend.append(&instance(2, 2, 2, 2));
    assert_eq!(backend.replace(2, &instance(0, 0, 0, 0)), Err(ShaderError::IndexOutOfRange(2)));
    assert_eq!(backend.remove(2), Err(ShaderError::IndexOutOfRange(2)));
    assert_eq!(backend.count(), 2);
    assert_eq!(backend.replace(0, &instance(3, 3, 3, 3)), Ok(()));
    assert_eq!(backend.remove(1), Ok(()));
    assert_eq!(backend.packed(), vec![0, 0, 0, ONE, 3 * ONE, 3 * ONE, 3 * ONE, 3 * ONE]);
    assert!(!backend.is_loaded());
    assert!(backend.compile_and_allocate(linked()).is_ok());
    assert!(backend.is_loaded());
    assert_eq!(backend.resync().len(), 8);
    assert_eq!(backend.draw().unwrap().instances, 1);
    assert_eq!(backend.kind(), ShapeKind::Rectangle);
}

#[test]
fn uniform_locations() {
    assert_eq!(location_of(-1), None);
    assert_eq!(location_of(i32::MIN), None);
    assert_eq!(location_of(0), Some(0));
    assert_eq!(location_of(12), Some(12));
}

#[test]
fn sampled_texcoords_move_inwards() {
    assert_eq!(TEXCOORD_INSET, 1);
    let whole = ObjectData::default().texcoord;
    assert_eq!(
        sampled_texcoord(&whole),
        [ONE - 1, ONE - 1, 1, ONE - 1, 1, 1, ONE - 1, 1]
    );
    assert_eq!(
        sampled_texcoord(&[10, 20, 30, 40, 50, 60, 70, 80]),
        [49, 59, 31, 39, 11, 21, 69, 81]
    );
}

#[test]
fn single_shape_is_loaded_with_one_instance() {
    let (mut rect, allocation) = Shader::rect(linked()).unwrap();
    assert_eq!(allocation.instances, vec![0, 0, 0, ONE, 0, 0, 0, 0]);
    assert_eq!(rect.dim(), (0, 0));
    assert_eq!(rect.opacity(), ONE);
    let frame = rect.draw().unwrap();
    assert!(frame.upload.is_none());
    assert_eq!(frame.call.instances, 1);
    rect.set_dim(100 * ONE, 75 * ONE);
    rect.set_color(&Color::grey(44));
    rect.set_offset(ONE, 2 * ONE);
    rect.set_opacity(ONE / 2);
    rect.set_texcoord([1, 2, 3, 4, 5, 6, 7, 8]);
    assert_eq!(rect.dim(), (100 * ONE, 75 * ONE));
    assert_eq!(rect.width(), 100 * ONE);
    assert_eq!(rect.height(), 75 * ONE);
    assert_eq!(rect.color(), Color::grey(44));
    assert_eq!(rect.offset(), (ONE, 2 * ONE));
    assert_eq!(rect.opacity(), ONE / 2);
    assert_eq!(rect.texcoord(), [1, 2, 3, 4, 5, 6, 7, 8]);
    rect.set_width(ONE);
    rect.set_height(2 * ONE);
    assert_eq!(rect.dim(), (ONE, 2 * ONE));
    let frame = rect.draw().unwrap();
    let grey = Color::grey(44);
    assert_eq!(
        frame.upload,
        Some(vec![grey.r, grey.g, grey.b, ONE / 2, ONE, 2 * ONE, ONE, 2 * ONE])
    );
    assert!(rect.draw().unwrap().upload.is_none());
}

#[test]
fn single_shape_collides_where_it_stands() {
    let (mut circle, _) = Shader::circle(linked()).unwrap();
    circle.set_dim(10 * ONE, 10 * ONE);
    let mut transform = Transform::new();
    transform.set(50 * ONE, 50 * ONE, 0);
    circle.set_transform(transform);
    assert_eq!(circle.transform().pos(), (50 * ONE, 50 * ONE, 0));
    assert!(circle.collides(50 * ONE, 50 * ONE));
    assert!(circle.collides(60 * ONE, 60 * ONE));
    assert!(!circle.collides(60 * ONE + 1, 60 * ONE));
    assert!(!circle.collides(0, 0));
}

#[test]
fn single_texture_has_the_size_of_its_image() {
    let (texture, allocation) = Shader::texture(picture(), linked()).unwrap();
    assert_eq!(texture.dim(), (2 * ONE, ONE));
    assert!(allocation.texture);
    assert_eq!(allocation.instances.len(), 13);
    let red = Color::rgb(255, 0, 0);
    let (text, _) = Shader::text(picture(), &red, linked()).unwrap();
    assert_eq!(text.dim(), (2 * ONE, ONE));
    assert_eq!(text.color(), red);
}

#[test]
fn single_shape_fails_as_loading_does() {
    assert!(matches!(
        Shader::rect(Err("bad".to_string())),
        Err(ShaderError::CompileError(_))
    ));
    let missing = Ok(LinkedProgram { id: 1, projection: Some(0), view_matrix: None, model: Some(2) });
    assert!(matches!(
        Shader::circle(missing),
        Err(ShaderError::UniformNotFound(UniformName::View))
    ));
}
