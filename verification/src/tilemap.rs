//! Tiles of a texture atlas.

use vstd::prelude::*;
use crate::data::TextureCoordinate;
use crate::image::Image;
use crate::text::{fields, lines, number, parse_number, split, split_lines, views};

verus! {

/// Which side of a tile points down when it is drawn.
#[derive(Clone, Copy, Debug, PartialEq, Eq, Structural)]
pub enum TileDataRotation {
    Bottom,
    Left,
    Top,
    Right,
}

/// One tile of an atlas: its name and two opposite corners in texture
/// space, `(x1, y1)` at the top left and `(x2, y2)` at the bottom right.
pub struct TileData {
    pub name: String,
    x1: i64,
    y1: i64,
    x2: i64,
    y2: i64,
}

impl TileData {
    /// The name of the tile.
    pub closed spec fn spec_name(&self) -> Seq<char> {
        self.name@
    }

    /// The corners as (x1, y1, x2, y2).
    pub closed spec fn corners(&self) -> (i64, i64, i64, i64) {
        (self.x1, self.y1, self.x2, self.y2)
    }

    /// The texture coordinates of a tile with the given corners: the four
    /// corner pairs of the unrotated tile, begun one pair later for each
    /// quarter turn.
    pub open spec fn spec_texcoord(c: (i64, i64, i64, i64), rotation: TileDataRotation) -> Seq<i64> {
        let (x1, y1, x2, y2) = c;
        match rotation {
            TileDataRotation::Bottom => seq![x1, y2, x1, y1, x2, y1, x2, y2],
            TileDataRotation::Left => seq![x2, y2, x1, y2, x1, y1, x2, y1],
            TileDataRotation::Top => seq![x2, y1, x2, y2, x1, y2, x1, y1],
            TileDataRotation::Right => seq![x1, y1, x2, y1, x2, y2, x1, y2],
        }
    }

    pub fn new(name: String, x1: i64, y1: i64, x2: i64, y2: i64) -> (res: TileData)
        ensures
            res.spec_name() == name@,
            res.corners() == (x1, y1, x2, y2),
    {
        TileData { name, x1, y1, x2, y2 }
    }

    /// The texture coordinates of the tile, turned as asked. `Bottom` is
    /// the tile as it lies in the atlas.
    pub fn texcoord(&self, tile_data_rotation: &TileDataRotation) -> (res: TextureCoordinate)
        ensures
            res@ == TileData::spec_texcoord(self.corners(), *tile_data_rotation),
    {
        let res = match tile_data_rotation {
            TileDataRotation::Bottom => [
                self.x1,
                self.y2,
                self.x1,
                self.y1,
                self.x2,
                self.y1,
                self.x2,
                self.y2,
            ],
            TileDataRotation::Left => [
                self.x2,
                self.y2,
                self.x1,
                self.y2,
                self.x1,
                self.y1,
                self.x2,
                self.y1,
            ],
            TileDataRotation::Top => [
                self.x2,
                self.y1,
                self.x2,
                self.y2,
                self.x1,
                self.y2,
                self.x1,
                self.y1,
            ],
            TileDataRotation::Right => [
                self.x1,
                self.y1,
                self.x2,
                self.y1,
                self.x2,
                self.y2,
                self.x1,
                self.y2,
            ],
        };
        assert(res@ =~= TileData::spec_texcoord(self.corners(), *tile_data_rotation));
        res
    }
}

/// A quarter turn moves every corner pair one place on: the coordinates of
/// a tile turned to `Left` are those of the unrotated tile, begun with its
/// last pair.
pub proof fn lemma_quarter_turn(c: (i64, i64, i64, i64))
    ensures
        TileData::spec_texcoord(c, TileDataRotation::Left) == TileData::spec_texcoord(
            c,
            TileDataRotation::Bottom,
        ).subrange(6, 8) + TileData::spec_texcoord(c, TileDataRotation::Bottom).subrange(0, 6),
        TileData::spec_texcoord(c, TileDataRotation::Top) == TileData::spec_texcoord(
            c,
            TileDataRotation::Left,
        ).subrange(6, 8) + TileData::spec_texcoord(c, TileDataRotation::Left).subrange(0, 6),
        TileData::spec_texcoord(c, TileDataRotation::Right) == TileData::spec_texcoord(
            c,
            TileDataRotation::Top,
        ).subrange(6, 8) + TileData::spec_texcoord(c, TileDataRotation::Top).subrange(0, 6),
{
    let b = TileData::spec_texcoord(c, TileDataRotation::Bottom);
    let l = TileData::spec_texcoord(c, TileDataRotation::Left);
    let t = TileData::spec_texcoord(c, TileDataRotation::Top);
    let r = TileData::spec_texcoord(c, TileDataRotation::Right);
    assert(l =~= b.subrange(6, 8) + b.subrange(0, 6));
    assert(t =~= l.subrange(6, 8) + l.subrange(0, 6));
    assert(r =~= t.subrange(6, 8) + t.subrange(0, 6));
}

/// Calls `String::from_utf8_lossy` of std on the bytes and takes the text
/// as a `String`. Trusted: where every byte is ASCII, the text has one
/// character for each byte, with the byte's code.
#[verifier::external_body]
fn text_of(bytes: &[u8]) -> (res: String)
    ensures
        all_ascii(bytes@) ==> res@ == chars_of(bytes@),
{
    String::from_utf8_lossy(bytes).into_owned()
}

/// Every byte is below 128.
pub open spec fn all_ascii(bytes: Seq<u8>) -> bool {
    forall|i: int| 0 <= i < bytes.len() ==> bytes[i] < 128
}

/// The characters whose codes the bytes are.
pub open spec fn chars_of(bytes: Seq<u8>) -> Seq<char> {
    bytes.map_values(|b: u8| b as char)
}

/// What a line of a tilemap file says: a name, then the x and the y of the
/// tile's top left corner in pixels, with commas between them. What
/// follows a third comma is not read. `None` where the line has fewer than
/// three parts, or the second or third is no number.
pub open spec fn parsed_line(line: Seq<u8>) -> Option<(Seq<u8>, nat, nat)> {
    let parts = fields(line, 44u8);
    if parts.len() < 3 {
        None
    } else {
        match (number(parts[1]), number(parts[2])) {
            (Some(x), Some(y)) => Some((parts[0], x, y)),
            _ => None,
        }
    }
}

/// `a / b` as a scalar, rounded towards zero.
pub open spec fn ratio(a: int, b: int) -> int {
    a * 1_000_000 / b
}

/// The corners, in texture space, of the square tile of `dim` pixels whose
/// top left corner is at x, y in an image of the given size. The image
/// counts its rows from the top, texture space from the bottom. `None`
/// where the image has no pixels or a corner lies beyond the scalars.
pub open spec fn spec_corners(x: nat, y: nat, dim: nat, width: nat, height: nat) -> Option<
    (i64, i64, i64, i64),
> {
    if width == 0 || height == 0 {
        None
    } else if ratio(x as int, width as int) > i64::MAX || ratio((x + dim) as int, width as int) > i64::MAX
        || ratio(y as int, height as int) > i64::MAX || ratio((y + dim) as int, height as int)
        > i64::MAX {
        None
    } else {
        Some(
            (
                ratio(x as int, width as int) as i64,
                (1_000_000 - ratio(y as int, height as int)) as i64,
                ratio((x + dim) as int, width as int) as i64,
                (1_000_000 - ratio((y + dim) as int, height as int)) as i64,
            ),
        )
    }
}

/// The tile that a line describes, by name and corners.
pub open spec fn spec_tile(line: Seq<u8>, dim: nat, width: nat, height: nat) -> Option<
    (Seq<u8>, (i64, i64, i64, i64)),
> {
    match parsed_line(line) {
        Some((name, x, y)) => match spec_corners(x, y, dim, width, height) {
            Some(corners) => Some((name, corners)),
            None => None,
        },
        None => None,
    }
}

/// Reads one line of a tilemap file.
pub fn parse_line(line: &[u8]) -> (res: Option<(Vec<u8>, usize, usize)>)
    ensures
        match parsed_line(line@) {
            Some((name, x, y)) => res is Some && res->Some_0.0@ == name && res->Some_0.1 == x
                && res->Some_0.2 == y,
            None => res is None,
        },
{
    let mut parts = split(line, 44);
    assert(views(parts@)[0] == parts@[0]@);
    if parts.len() < 3 {
        return None;
    }
    assert(views(parts@)[1] == parts@[1]@);
    assert(views(parts@)[2] == parts@[2]@);
    let x = parse_number(parts[1].as_slice());
    let y = parse_number(parts[2].as_slice());
    match (x, y) {
        (Some(x), Some(y)) => {
            let name = parts.swap_remove(0);
            Some((name, x, y))
        },
        _ => None,
    }
}

fn scaled(a: u128, b: u32) -> (res: Option<i64>)
    requires
        b > 0,
        a <= 0x2_0000_0000_0000_0000,
    ensures
        match res {
            Some(v) => v == ratio(a as int, b as int),
            None => ratio(a as int, b as int) > i64::MAX,
        },
{
    let q: u128 = a * 1_000_000 / (b as u128);
    if q > i64::MAX as u128 {
        None
    } else {
        Some(q as i64)
    }
}

/// The corners of a tile in texture space.
pub fn corners(x: usize, y: usize, dim: usize, width: u32, height: u32) -> (res: Option<
    (i64, i64, i64, i64),
>)
    ensures
        res == spec_corners(x as nat, y as nat, dim as nat, width as nat, height as nat),
{
    if width == 0 || height == 0 {
        return None;
    }
    let x1 = scaled(x as u128, width);
    let x2 = scaled(x as u128 + dim as u128, width);
    let y1 = scaled(y as u128, height);
    let y2 = scaled(y as u128 + dim as u128, height);
    match (x1, x2, y1, y2) {
        (Some(x1), Some(x2), Some(y1), Some(y2)) => {
            assert(0 <= ratio(y as int, height as int)) by (nonlinear_arith)
                requires
                    0 <= y,
                    0 < height,
            ;
            assert(0 <= ratio((y + dim) as int, height as int)) by (nonlinear_arith)
                requires
                    0 <= y + dim,
                    0 < height,
            ;
            Some((x1, 1_000_000 - y1, x2, 1_000_000 - y2))
        },
        _ => None,
    }
}

/// Why a tilemap could not be read or asked.
#[derive(Clone, Copy, Debug, PartialEq, Eq, Structural)]
pub enum TileMapError {
    /// The line with this index, counted from 0, describes no tile.
    Line(usize),
    /// No tile has the name asked for.
    Missing,
}

/// The tiles of an atlas, as a tilemap file lists them, with the image they
/// lie in and the side of a tile in pixels.
pub struct TileMap {
    tiles: Vec<TileData>,
    image: Image,
    pub dim: usize,
}

impl TileMap {
    /// The tiles, in the order of the file.
    pub closed spec fn spec_tiles(&self) -> Seq<TileData> {
        self.tiles@
    }

    pub closed spec fn spec_image(&self) -> Image {
        self.image
    }

    pub closed spec fn spec_dim(&self) -> usize {
        self.dim
    }

    /// The tile is the one that the line describes.
    pub open spec fn describes(tile: TileData, line: Seq<u8>, dim: nat, width: nat, height: nat) -> bool {
        match spec_tile(line, dim, width, height) {
            Some((name, corners)) => tile.corners() == corners && (all_ascii(name)
                ==> tile.spec_name() == chars_of(name)),
            None => false,
        }
    }

    /// Reads a tilemap from the text of its file: one tile for each line.
    /// Fails at the first line that describes no tile.
    pub fn new(text: &[u8], image: Image, dim: usize) -> (res: Result<TileMap, TileMapError>)
        ensures
            match res {
                Ok(map) => {
                    &&& map.spec_image() == image
                    &&& map.spec_dim() == dim
                    &&& map.spec_tiles().len() == lines(text@).len()
                    &&& forall|i: int|
                        0 <= i < lines(text@).len() ==> TileMap::describes(
                            #[trigger] map.spec_tiles()[i],
                            lines(text@)[i],
                            dim as nat,
                            image.spec_width(),
                            image.spec_height(),
                        )
                },
                Err(error) => exists|k: int|
                    {
                        &&& 0 <= k < lines(text@).len()
                        &&& error == TileMapError::Line(k as usize)
                        &&& spec_tile(
                            #[trigger] lines(text@)[k],
                            dim as nat,
                            image.spec_width(),
                            image.spec_height(),
                        ) is None
                        &&& forall|j: int|
                            0 <= j < k ==> spec_tile(
                                #[trigger] lines(text@)[j],
                                dim as nat,
                                image.spec_width(),
                                image.spec_height(),
                            ) is Some
                    },
            },
    {
        let rows = split_lines(text);
        let width = image.width();
        let height = image.height();
        let mut tiles: Vec<TileData> = Vec::new();
        let mut k: usize = 0;
        while k < rows.len()
            invariant
                k <= rows.len(),
                views(rows@) == lines(text@),
                width == image.spec_width(),
                height == image.spec_height(),
                tiles@.len() == k,
                forall|i: int|
                    0 <= i < k ==> TileMap::describes(
                        #[trigger] tiles@[i],
                        lines(text@)[i],
                        dim as nat,
                        width as nat,
                        height as nat,
                    ),
            decreases rows.len() - k,
        {
            assert(views(rows@)[k as int] == rows@[k as int]@);
            let tile = match parse_line(rows[k].as_slice()) {
                Some((name, x, y)) => match corners(x, y, dim, width, height) {
                    Some((x1, y1, x2, y2)) => Some(
                        TileData::new(text_of(name.as_slice()), x1, y1, x2, y2),
                    ),
                    None => None,
                },
                None => None,
            };
            match tile {
                Some(tile) => {
                    let ghost before = tiles@;
                    tiles.push(tile);
                    assert forall|i: int| 0 <= i < k + 1 implies TileMap::describes(
                        #[trigger] tiles@[i],
                        lines(text@)[i],
                        dim as nat,
                        width as nat,
                        height as nat,
                    ) by {
                        if i < k {
                            assert(tiles@[i] == before[i]);
                        }
                    }
                },
                None => {
                    assert forall|j: int| 0 <= j < k implies spec_tile(
                        #[trigger] lines(text@)[j],
                        dim as nat,
                        width as nat,
                        height as nat,
                    ) is Some by {
                        assert(TileMap::describes(
                            tiles@[j],
                            lines(text@)[j],
                            dim as nat,
                            width as nat,
                            height as nat,
                        ));
                    }
                    return Err(TileMapError::Line(k));
                },
            }
            k = k + 1;
        }
        Ok(TileMap { tiles, image, dim })
    }

    /// The image that the tiles lie in.
    pub fn image(&self) -> (res: &Image)
        ensures
            *res == self.spec_image(),
    {
        &self.image
    }

    /// All the tiles, in the order of the file.
    pub fn as_vec(&self) -> (res: &Vec<TileData>)
        ensures
            res@ == self.spec_tiles(),
    {
        &self.tiles
    }

    /// The first tile of the given name.
    pub fn get(&self, name: &str) -> (res: Result<&TileData, TileMapError>)
        ensures
            match res {
                Ok(tile) => exists|i: int|
                    {
                        &&& 0 <= i < self.spec_tiles().len()
                        &&& *tile == #[trigger] self.spec_tiles()[i]
                        &&& tile.spec_name() == name@
                        &&& forall|j: int| 0 <= j < i ==> self.spec_tiles()[j].spec_name() != name@
                    },
                Err(error) => error == TileMapError::Missing && forall|j: int|
                    0 <= j < self.spec_tiles().len() ==> self.spec_tiles()[j].spec_name() != name@,
            },
    {
        let wanted = name.to_owned();
        let mut i: usize = 0;
        while i < self.tiles.len()
            invariant
                i <= self.tiles.len(),
                wanted@ == name@,
                forall|j: int| 0 <= j < i ==> self.spec_tiles()[j].spec_name() != name@,
            decreases self.tiles.len() - i,
        {
            if self.tiles[i].name == wanted {
                assert(self.spec_tiles()[i as int].spec_name() == name@);
                return Ok(&self.tiles[i]);
            }
            i = i + 1;
        }
        Err(TileMapError::Missing)
    }
}

} // verus!
