use d7engine::image::Image;
use d7engine::scalar::ONE;
use d7engine::text::{parse_number, split, split_lines};
use d7engine::tilemap::{corners, parse_line, TileDataRotation, TileMap, TileMapError};

fn atlas(width: u32, height: u32) -> Image {
    Image::new(width, height, vec![0; (width * height * 4) as usize]).unwrap()
}

#[test]
fn split_keeps_empty_parts() {
    assert_eq!(split(b"a,b,c", b','), vec![b"a".to_vec(), b"b".to_vec(), b"c".to_vec()]);
    assert_eq!(split(b"", b','), vec![b"".to_vec()]);
    assert_eq!(split(b",", b','), vec![b"".to_vec(), b"".to_vec()]);
    assert_eq!(split(b"a,,b,", b','), vec![b"a".to_vec(), b"".to_vec(), b"b".to_vec(), b"".to_vec()]);
    assert_eq!(split(b"abc", b','), vec![b"abc".to_vec()]);
}

#[test]
fn lines_end_at_line_feeds() {
    assert_eq!(split_lines(b"a\nb\n"), vec![b"a".to_vec(), b"b".to_vec()]);
    assert_eq!(split_lines(b"a\nb"), vec![b"a".to_vec(), b"b".to_vec()]);
    assert_eq!(split_lines(b"a\r\nb\r\n"), vec![b"a".to_vec(), b"b".to_vec()]);
    assert_eq!(split_lines(b""), Vec::<Vec<u8>>::new());
    assert_eq!(split_lines(b"\n"), vec![b"".to_vec()]);
    assert_eq!(split_lines(b"\n\n"), vec![b"".to_vec(), b"".to_vec()]);
    assert_eq!(split_lines(b"a\n\nb"), vec![b"a".to_vec(), b"".to_vec(), b"b".to_vec()]);
    assert_eq!(split_lines(b"a\r\r\n"), vec![b"a\r".to_vec()]);
}

#[test]
fn numbers_are_digits_with_or_without_a_plus() {
    assert_eq!(parse_number(b"0"), Some(0));
    assert_eq!(parse_number(b"32"), Some(32));
    assert_eq!(parse_number(b"+7"), Some(7));
    assert_eq!(parse_number(b"007"), Some(7));
    assert_eq!(parse_number(b""), None);
    assert_eq!(parse_number(b"+"), None);
    assert_eq!(parse_number(b"-1"), None);
    assert_eq!(parse_number(b"1a"), None);
    assert_eq!(parse_number(b" 1"), None);
    assert_eq!(parse_number(b"++1"), None);
    assert_eq!(parse_number(b"18446744073709551615"), Some(usize::MAX));
    assert_eq!(parse_number(b"18446744073709551616"), None);
    assert_eq!(parse_number(b"99999999999999999999999"), None);
}

#[test]
fn tilemap_lines() {
    assert_eq!(parse_line(b"grass,32,64"), Some((b"grass".to_vec(), 32, 64)));
    assert_eq!(parse_line(b"grass,32,64,rest"), Some((b"grass".to_vec(), 32, 64)));
    assert_eq!(parse_line(b",0,0"), Some((b"".to_vec(), 0, 0)));
    assert_eq!(parse_line(b"grass,32"), None);
    assert_eq!(parse_line(b"grass"), None);
    assert_eq!(parse_line(b""), None);
    assert_eq!(parse_line(b"grass,a,64"), None);
    assert_eq!(parse_line(b"grass,32,"), None);
    assert_eq!(parse_line(b"grass, 32,64"), None);
}

#[test]
fn tile_corners_count_rows_from_the_bottom() {
    assert_eq!(corners(0, 0, 32, 64, 64), Some((0, ONE, ONE / 2, ONE / 2)));
    assert_eq!(corners(32, 32, 32, 64, 64), Some((ONE / 2, ONE / 2, ONE, 0)));
    assert_eq!(corners(1, 2, 1, 3, 3), Some((333_333, 333_334, 666_666, 0)));
    assert_eq!(corners(64, 0, 64, 64, 64), Some((ONE, ONE, 2 * ONE, 0)));
    assert_eq!(corners(0, 0, 32, 0, 64), None);
    assert_eq!(corners(0, 0, 32, 64, 0), None);
    assert_eq!(corners(usize::MAX, 0, 1, 1, 1), None);
}

#[test]
fn tilemap_reads_its_file() {
    let text = b"grass,0,0\nwater,32,0\r\nstone,0,32,extra\n";
    let map = TileMap::new(text, atlas(64, 64), 32).unwrap();
    assert_eq!(map.dim, 32);
    assert_eq!(map.image().width(), 64);
    assert_eq!(map.as_vec().len(), 3);
    let grass = map.get("grass").unwrap();
    assert_eq!(
        grass.texcoord(&TileDataRotation::Right),
        [0, ONE, ONE / 2, ONE, ONE / 2, ONE / 2, 0, ONE / 2]
    );
    let water = map.get("water").unwrap();
    assert_eq!(
        water.texcoord(&TileDataRotation::Bottom),
        [ONE / 2, ONE / 2, ONE / 2, ONE, ONE, ONE, ONE, ONE / 2]
    );
    let stone = map.get("stone").unwrap();
    assert_eq!(
        stone.texcoord(&TileDataRotation::Right),
        [0, ONE / 2, ONE / 2, ONE / 2, ONE / 2, 0, 0, 0]
    );
    assert_eq!(stone.name, "stone");
    assert!(matches!(map.get("sand"), Err(TileMapError::Missing)));
}

#[test]
fn tilemap_takes_the_first_of_a_name() {
    let map = TileMap::new(b"a,0,0\na,32,32", atlas(64, 64), 32).unwrap();
    let tile = map.get("a").unwrap();
    assert_eq!(tile.texcoord(&TileDataRotation::Right)[0], 0);
}

#[test]
fn tilemap_names_the_line_that_failed() {
    assert!(matches!(
        TileMap::new(b"a,1,2\nb,x,2\nc,1", atlas(4, 4), 1),
        Err(TileMapError::Line(1))
    ));
    assert!(matches!(TileMap::new(b"a,1", atlas(4, 4), 1), Err(TileMapError::Line(0))));
    assert!(matches!(
        TileMap::new(b"a,1,2\n\nb,1,2", atlas(4, 4), 1),
        Err(TileMapError::Line(1))
    ));
    assert!(matches!(TileMap::new(b"a,1,2", atlas(0, 0), 1), Err(TileMapError::Line(0))));
    let empty = TileMap::new(b"", atlas(0, 0), 1).unwrap();
    assert!(empty.as_vec().is_empty());
}

#[test]
fn tilemap_keeps_names_that_are_not_ascii() {
    let map = TileMap::new("gräs,0,0".as_bytes(), atlas(2, 2), 1).unwrap();
    assert!(map.get("gräs").is_ok());
}
