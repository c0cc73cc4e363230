use d7engine::font::{glyph_width, snapshot, Bounds, Dot, FontError, Glyph, MARGIN};

fn boxed(min_x: i32, min_y: i32, max_x: i32, max_y: i32, dots: Vec<Dot>) -> Glyph {
    Glyph { bounds: Some(Bounds { min_x, min_y, max_x, max_y }), dots }
}

fn space() -> Glyph {
    Glyph { bounds: None, dots: vec![Dot { x: 0, y: 0, alpha: 200 }] }
}

#[test]
fn width_runs_from_the_first_glyph_to_the_last() {
    assert_eq!(glyph_width(&vec![]), None);
    assert_eq!(glyph_width(&vec![space()]), None);
    assert_eq!(glyph_width(&vec![boxed(1, 0, 5, 3, vec![])]), Some(4));
    let line = vec![boxed(2, 0, 5, 3, vec![]), space(), boxed(9, 0, 14, 3, vec![])];
    assert_eq!(glyph_width(&line), Some(12));
    assert_eq!(glyph_width(&vec![space(), boxed(9, 0, 14, 3, vec![])]), None);
    assert_eq!(glyph_width(&vec![boxed(9, 0, 14, 3, vec![]), space()]), None);
    assert_eq!(glyph_width(&vec![boxed(5, 0, 4, 3, vec![])]), Some(u32::MAX));
    assert_eq!(glyph_width(&vec![boxed(i32::MIN, 0, i32::MAX, 3, vec![])]), Some(u32::MAX));
}

#[test]
fn snapshot_inks_the_dots_upside_down() {
    let dots = vec![Dot { x: 0, y: 0, alpha: 255 }, Dot { x: 1, y: 1, alpha: 128 }];
    let line = vec![boxed(0, 0, 2, 2, dots), space()];
    assert_eq!(glyph_width(&line), None);
    let line = vec![line.into_iter().next().unwrap()];
    let image = snapshot(&line, 2).unwrap();
    assert_eq!(MARGIN, 10);
    assert_eq!((image.width(), image.height()), (12, 12));
    let data = image.data();
    let at = |x: usize, y: usize| &data[(y * 12 + x) * 4..(y * 12 + x) * 4 + 4];
    assert_eq!(at(0, 11), &[255, 255, 255, 255]);
    assert_eq!(at(1, 10), &[255, 255, 255, 128]);
    assert_eq!(at(0, 0), &[0, 0, 0, 0]);
    assert_eq!(at(1, 11), &[0, 0, 0, 0]);
    let inked = data.chunks(4).filter(|pixel| pixel[3] != 0).count();
    assert_eq!(inked, 2);
}

#[test]
fn snapshot_places_dots_by_the_box() {
    let first = boxed(-1, 2, 3, 4, vec![Dot { x: 1, y: 0, alpha: 9 }]);
    let gap = space();
    let last = boxed(4, 1, 6, 4, vec![Dot { x: 1, y: 2, alpha: 7 }, Dot { x: 1, y: 2, alpha: 8 }]);
    let image = snapshot(&vec![first, gap, last], 4).unwrap();
    assert_eq!((image.width(), image.height()), (17, 14));
    let data = image.data();
    let at = |x: usize, y: usize| &data[(y * 17 + x) * 4..(y * 17 + x) * 4 + 4];
    assert_eq!(at(0, 13 - 2), &[255, 255, 255, 9]);
    assert_eq!(at(5, 13 - 3), &[255, 255, 255, 8]);
    let inked = data.chunks(4).filter(|pixel| pixel[3] != 0).count();
    assert_eq!(inked, 2);
}

#[test]
fn snapshot_refuses_what_it_cannot_draw() {
    assert_eq!(snapshot(&vec![], 5).err(), Some(FontError::NoWidth));
    assert_eq!(snapshot(&vec![space()], 5).err(), Some(FontError::NoWidth));
    let outside = boxed(-1, 0, 3, 4, vec![Dot { x: 0, y: 0, alpha: 1 }]);
    assert_eq!(snapshot(&vec![outside], 5).err(), Some(FontError::Outside));
    let below = boxed(0, 0, 3, 4, vec![Dot { x: 0, y: 15, alpha: 1 }]);
    assert_eq!(snapshot(&vec![below], 5).err(), Some(FontError::Outside));
    let right = boxed(0, 0, 3, 4, vec![Dot { x: 13, y: 0, alpha: 1 }]);
    assert_eq!(snapshot(&vec![right], 5).err(), Some(FontError::Outside));
    let tall = boxed(0, 0, 3, 4, vec![]);
    assert_eq!(snapshot(&vec![tall], u32::MAX - 9).err(), Some(FontError::TooLarge));
    let wide = boxed(5, 0, 4, 4, vec![]);
    assert_eq!(snapshot(&vec![wide], 5).err(), Some(FontError::TooLarge));
    let fits = boxed(0, 0, 3, 4, vec![Dot { x: 12, y: 14, alpha: 1 }]);
    assert!(snapshot(&vec![fits], 5).is_ok());
}
