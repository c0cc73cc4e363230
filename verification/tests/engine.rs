use d7engine::backend::{LinkedProgram, ShaderError};
use d7engine::color::Color;
use d7engine::container::ComponentContainer;
use d7engine::csv::Csv;
use d7engine::data::ObjectData;
use d7engine::event::Event;
use d7engine::file::path_as_string;
use d7engine::image::{crop_image, Image};
use d7engine::installation::Installation;
use d7engine::instanced::{InstancedShader, ObjectState};
use d7engine::layer::LayerName;
use d7engine::mouse::{wheel_state, Mouse, MouseWheelState};
use d7engine::scalar::{channel_from_u8, ONE};
use d7engine::tilemap::{TileData, TileDataRotation};
use d7engine::transform::Transform;
use std::path::{Path, PathBuf};

fn loaded(n: usize) -> InstancedShader {
    let mut object = InstancedShader::rect().unwrap();
    for _ in 0..n {
        object.add(&ObjectData::default());
    }
    let linked = LinkedProgram { id: 1, projection: Some(0), view_matrix: Some(1), model: Some(2) };
    object.load(Ok(linked)).unwrap();
    object
}

#[test]
fn test_color() {
    let default = Color::default();
    assert_eq!(default.r, 0);
    assert_eq!(default.g, 0);
    assert_eq!(default.b, 0);
    assert_eq!(default.a, 0);

    let some_grey = Color::grey(77);
    let assert_color = 77 * ONE / 255;
    assert_eq!(some_grey.r, assert_color);
    assert_eq!(some_grey.g, assert_color);
    assert_eq!(some_grey.b, assert_color);
    assert_eq!(some_grey.a, ONE);

    let red = Color::rgb(255, 0, 0);
    assert_eq!(red.r, ONE);
    assert_eq!(red.g, 0);
    assert_eq!(red.b, 0);
    assert_eq!(red.a, ONE);
}

#[test]
fn channels_round_towards_zero() {
    assert_eq!(channel_from_u8(77), 301_960);
    assert_eq!(channel_from_u8(1), 3_921);
    assert_eq!(channel_from_u8(254), 996_078);
    assert_eq!(Color::rgb(1, 128, 254), Color { r: 3_921, g: 501_960, b: 996_078, a: ONE });
}

#[test]
fn test_mouse() {
    let mouse = Mouse::new(100 * ONE, 250 * ONE, false, true, MouseWheelState::Idle);
    assert_eq!(mouse.pos(), (100 * ONE, 250 * ONE));
    assert_eq!(mouse.left(), false);
    assert_eq!(mouse.right(), true);
    assert_eq!(mouse.mws(), MouseWheelState::Idle);
}

#[test]
fn transform_moves_and_keeps_the_rest() {
    let mut transform = Transform::new();
    assert_eq!(transform.pos(), (0, 0, 0));
    assert_eq!(transform.scale, (ONE, ONE, ONE));
    transform.set(1, 2, 3);
    transform.add(10, 20, 30);
    assert_eq!(transform.pos(), (11, 22, 33));
    transform.set_rotation(5, 0, 0, ONE);
    transform.set_scale(2 * ONE, 3 * ONE, ONE);
    assert_eq!(transform.pos(), (11, 22, 33));
    assert_eq!(transform.rotation, (5, 0, 0, ONE));
    assert_eq!(transform.scale, (2 * ONE, 3 * ONE, ONE));
}

#[test]
fn tile_texcoords_turn_by_quarters() {
    let tile = TileData::new("grass".to_string(), 1, 2, 3, 4);
    assert_eq!(tile.texcoord(&TileDataRotation::Bottom), [1, 4, 1, 2, 3, 2, 3, 4]);
    assert_eq!(tile.texcoord(&TileDataRotation::Left), [3, 4, 1, 4, 1, 2, 3, 2]);
    assert_eq!(tile.texcoord(&TileDataRotation::Top), [3, 2, 3, 4, 1, 4, 1, 2]);
    assert_eq!(tile.texcoord(&TileDataRotation::Right), [1, 2, 3, 2, 3, 4, 1, 4]);
    assert_eq!(tile.name, "grass");
}

#[test]
fn image_wants_four_bytes_a_pixel() {
    assert!(Image::new(2, 2, vec![0; 16]).is_some());
    assert!(Image::new(2, 2, vec![0; 15]).is_none());
    assert!(Image::new(0, 5, vec![]).is_some());
    assert!(Image::new(u32::MAX, u32::MAX, vec![0; 4]).is_none());
    let image = Image::new(1, 2, vec![1, 2, 3, 4, 5, 6, 7, 8]).unwrap();
    assert_eq!(image.width(), 1);
    assert_eq!(image.height(), 2);
    assert_eq!(image.data(), &vec![1, 2, 3, 4, 5, 6, 7, 8]);
}

#[test]
fn container_keeps_one_object_per_name() {
    let mut container = ComponentContainer::new();
    assert_eq!(container.len(), 0);
    assert!(container.get("a").is_none());
    container.insert("a", loaded(1));
    container.insert("b", loaded(2));
    container.insert("a", loaded(3));
    assert_eq!(container.len(), 2);
    assert_eq!(container.get("a").unwrap().len(), 3);
    assert_eq!(container.get("b").unwrap().len(), 2);
    assert!(container.get("c").is_none());
    container.get_mut("b").unwrap().add(&ObjectData::default());
    assert_eq!(container.get("b").unwrap().len(), 3);
    assert_eq!(container.get("b").unwrap().state(), ObjectState::Dirty);
    assert!(container.get_mut("c").is_none());
}

#[test]
fn container_draws_all() {
    let mut container = ComponentContainer::new();
    container.insert("a", loaded(1));
    container.insert("b", loaded(2));
    container.get_mut("b").unwrap().add(&ObjectData::default());
    let pass = container.draw();
    assert_eq!(pass.outcome, Ok(()));
    assert_eq!(pass.frames.len(), 2);
    assert_eq!(pass.frames[0].call.instances, 1);
    assert!(pass.frames[0].upload.is_none());
    assert_eq!(pass.frames[1].call.instances, 3);
    assert!(pass.frames[1].upload.is_some());
    assert_eq!(container.get("b").unwrap().state(), ObjectState::Clean);
    let empty = ComponentContainer::new().draw();
    assert_eq!(empty.outcome, Ok(()));
    assert!(empty.frames.is_empty());
}

#[test]
fn container_stops_at_the_first_failure() {
    let mut container = ComponentContainer::new();
    container.insert("a", loaded(1));
    container.get_mut("a").unwrap().add(&ObjectData::default());
    container.insert("b", InstancedShader::rect().unwrap());
    container.insert("c", loaded(1));
    container.get_mut("c").unwrap().add(&ObjectData::default());
    let pass = container.draw();
    assert_eq!(pass.outcome, Err(ShaderError::NotLoaded));
    assert_eq!(pass.frames.len(), 1);
    assert_eq!(pass.frames[0].call.instances, 2);
    assert_eq!(container.get("a").unwrap().state(), ObjectState::Clean);
    assert_eq!(container.get("b").unwrap().state(), ObjectState::NotLoaded);
    assert_eq!(container.get("c").unwrap().state(), ObjectState::Dirty);
}

#[test]
fn installation_has_no_path_at_first() {
    let mut installation = Installation::new("game");
    assert_eq!(installation.title(), "game");
    assert_eq!(installation.path(), Err("No installation path.".to_string()));
    assert_eq!(installation.path_text(), Err("No installation path.".to_string()));
    installation.set_path("/tmp/d7engine/game".to_string());
    assert_eq!(installation.path(), Ok(PathBuf::from("/tmp/d7engine/game")));
    assert_eq!(installation.path_text(), Ok(&"/tmp/d7engine/game".to_string()));
}

#[test]
fn path_as_string_gives_the_text() {
    assert_eq!(path_as_string(Path::new("/a/b.txt")), Ok("/a/b.txt".to_string()));
    assert_eq!(path_as_string(Path::new("")), Ok("".to_string()));
}

#[test]
fn csv_starts_empty() {
    let mut csv = Csv::new();
    assert_eq!(csv.len(), 0);
    csv.read_file("table.csv");
    assert_eq!(csv.len(), 0);
}

#[test]
fn names_of_layers_and_events() {
    assert_ne!(LayerName::BACK, LayerName::FRONT);
    assert_ne!(LayerName::MIDDLE, LayerName::FRONT);
    assert_ne!(Event::KeyLeft, Event::KeyRight);
    assert_eq!(Event::Idle, Event::Idle);
}

fn numbered(width: u32, height: u32) -> Image {
    let mut data = vec![];
    for y in 0..height {
        for x in 0..width {
            data.push(x as u8);
            data.push(y as u8);
            data.push(0);
            data.push(255);
        }
    }
    Image::new(width, height, data).unwrap()
}

#[test]
fn image_crop_takes_the_rectangle() {
    let image = numbered(4, 3);
    let part = image.crop(1, 1, 2, 2);
    assert_eq!(part.width(), 2);
    assert_eq!(part.height(), 2);
    assert_eq!(
        part.data(),
        &vec![1, 1, 0, 255, 2, 1, 0, 255, 1, 2, 0, 255, 2, 2, 0, 255]
    );
    let whole = image.crop(0, 0, 4, 3);
    assert_eq!(whole.data(), image.data());
}

#[test]
fn image_crop_is_cut_down_to_the_picture() {
    let image = numbered(4, 3);
    let part = image.crop(3, 2, 10, 10);
    assert_eq!((part.width(), part.height()), (1, 1));
    assert_eq!(part.data(), &vec![3, 2, 0, 255]);
    let none = image.crop(9, 9, 2, 2);
    assert_eq!((none.width(), none.height()), (0, 0));
    assert!(none.data().is_empty());
    let edge = image.crop(4, 0, 1, 3);
    assert_eq!((edge.width(), edge.height()), (0, 3));
}

#[test]
fn crop_image_reads_its_numbers_as_unsigned() {
    let image = numbered(4, 3);
    let part = crop_image(&image, 2, 0, 2, 1);
    assert_eq!(part.data(), &vec![2, 0, 0, 255, 3, 0, 0, 255]);
    let all = crop_image(&image, 0, 0, -1, -1);
    assert_eq!((all.width(), all.height()), (4, 3));
    let none = crop_image(&image, -1, 0, 2, 2);
    assert_eq!((none.width(), none.height()), (0, 2));
}

#[test]
fn image_flips_its_rows() {
    let image = numbered(2, 3);
    let flipped = image.flip_vertical();
    assert_eq!((flipped.width(), flipped.height()), (2, 3));
    assert_eq!(
        flipped.data(),
        &vec![
            0, 2, 0, 255, 1, 2, 0, 255, 0, 1, 0, 255, 1, 1, 0, 255, 0, 0, 0, 255, 1, 0, 0, 255
        ]
    );
    assert_eq!(flipped.flip_vertical().data(), image.data());
}

#[test]
fn wheel_goes_down_below_zero() {
    assert_eq!(wheel_state(-1), MouseWheelState::Down);
    assert_eq!(wheel_state(i32::MIN), MouseWheelState::Down);
    assert_eq!(wheel_state(0), MouseWheelState::Up);
    assert_eq!(wheel_state(3), MouseWheelState::Up);
}
