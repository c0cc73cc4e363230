//! A star pathfinding over a maze of tiles.

use vstd::prelude::*;
use vstd::set_lib::{lemma_int_range, lemma_len_subset, set_int_range};

verus! {

/// Implement `Maze` for an object to search paths through it.
pub trait Maze {
    /// The number of tiles in x direction.
    spec fn spec_width(&self) -> usize;

    /// The number of tiles in y direction.
    spec fn spec_height(&self) -> usize;

    /// Whether the tile at x, y blocks the way.
    spec fn spec_solid(&self, x: usize, y: usize) -> bool;

    /// The number of tiles in x direction.
    fn width(&self) -> (res: usize)
        ensures
            res == self.spec_width(),
    ;

    /// The number of tiles in y direction.
    fn height(&self) -> (res: usize)
        ensures
            res == self.spec_height(),
    ;

    /// Whether the tile at x, y blocks the way.
    fn solid(&self, x: usize, y: usize) -> (res: bool)
        ensures
            res == self.spec_solid(x, y),
    ;
}

/// Two different tiles that touch, by an edge or by a corner.
pub open spec fn adjacent(a: (usize, usize), b: (usize, usize)) -> bool {
    &&& a != b
    &&& -1 <= a.0 - b.0 <= 1
    &&& -1 <= a.1 - b.1 <= 1
}

/// The path leads from `start` to `end`, each step to a touching tile.
pub open spec fn connects(path: Seq<(usize, usize)>, start: (usize, usize), end: (usize, usize)) -> bool {
    &&& path.len() >= 1
    &&& path[0] == start
    &&& path.last() == end
    &&& forall|i: int| 0 <= i < path.len() - 1 ==> adjacent(#[trigger] path[i], path[i + 1])
}

/// A tile of the maze that does not block the way.
pub open spec fn walkable<M: Maze>(maze: &M, p: (usize, usize)) -> bool {
    p.0 < maze.spec_width() && p.1 < maze.spec_height() && !maze.spec_solid(p.0, p.1)
}

/// The path leads from `start` to `end`, each step to a touching tile that
/// can be walked on. Nothing is asked of the start itself.
pub open spec fn walks<M: Maze>(
    maze: &M,
    path: Seq<(usize, usize)>,
    start: (usize, usize),
    end: (usize, usize),
) -> bool {
    &&& connects(path, start, end)
    &&& forall|i: int| 1 <= i < path.len() ==> walkable(maze, #[trigger] path[i])
}

/// A tile that the search has reached: the visited tile it was reached
/// from, by its place among the visited, and the three scores.
#[derive(Clone, Copy)]
struct Node {
    parent: Option<usize>,
    pos: (usize, usize),
    g: u128,
    h: u128,
    f: u128,
}

impl Node {
    fn new(parent: Option<usize>, pos: (usize, usize), g: u128, h: u128, f: u128) -> (res: Node)
        ensures
            res == (Node { parent, pos, g, h, f }),
    {
        Node { parent, pos, g, h, f }
    }
}

/// A number for each tile of the maze, and one more for every tile outside.
spec fn code(w: int, h: int, p: (usize, usize)) -> int {
    if p.0 < w && p.1 < h {
        p.1 * w + p.0
    } else {
        w * h
    }
}

/// The node is the start, or a walkable tile that was reached from a
/// visited tile that touches it.
spec fn rooted<M: Maze>(
    maze: &M,
    node: Node,
    visited: Seq<Node>,
    bound: int,
    start: (usize, usize),
) -> bool {
    match node.parent {
        None => node.pos == start,
        Some(p) => p < bound && bound <= visited.len() && adjacent(visited[p as int].pos, node.pos)
            && walkable(maze, node.pos),
    }
}

/// Some visited node stands on the tile.
spec fn is_visited(visited: Seq<Node>, v: (usize, usize)) -> bool {
    exists|a: int| 0 <= a < visited.len() && (#[trigger] visited[a]).pos == v
}

/// Some waiting node stands on the tile.
spec fn is_waiting(open: Seq<Node>, v: (usize, usize)) -> bool {
    exists|b: int| 0 <= b < open.len() && (#[trigger] open[b]).pos == v
}

/// Every walkable tile that touches one of the first `upto` visited tiles
/// is visited or waiting.
#[verifier::opaque]
spec fn frontier<M: Maze>(maze: &M, open: Seq<Node>, visited: Seq<Node>, upto: int) -> bool {
    forall|k: int, v: (usize, usize)|
        0 <= k < upto && #[trigger] adjacent(visited[k].pos, v) && walkable(maze, v) ==> is_visited(
            visited,
            v,
        ) || is_waiting(open, v)
}

/// Where every walkable tile next to a visited tile is visited too, a walk
/// that begins on a visited tile never leaves the visited tiles.
proof fn lemma_walk_stays_visited<M: Maze>(
    maze: &M,
    visited: Seq<Node>,
    path: Seq<(usize, usize)>,
    i: int,
)
    requires
        frontier(maze, Seq::<Node>::empty(), visited, visited.len() as int),
        0 <= i < path.len(),
        is_visited(visited, path[0]),
        forall|j: int| 0 <= j < path.len() - 1 ==> adjacent(#[trigger] path[j], path[j + 1]),
        forall|j: int| 1 <= j < path.len() ==> walkable(maze, #[trigger] path[j]),
    ensures
        is_visited(visited, path[i]),
    decreases i,
{
    reveal(frontier);
    if i > 0 {
        lemma_walk_stays_visited(maze, visited, path, i - 1);
        let a = choose|a: int| 0 <= a < visited.len() && (#[trigger] visited[a]).pos == path[i - 1];
        assert(adjacent(path[i - 1], path[i - 1 + 1]));
        assert(adjacent(visited[a].pos, path[i]));
        assert(!is_waiting(Seq::<Node>::empty(), path[i]));
    }
}

/// A tile of the maze, or the start.
spec fn in_area(w: int, h: int, start: (usize, usize), p: (usize, usize)) -> bool {
    (p.0 < w && p.1 < h) || p == start
}

/// How many waiting nodes stand on a tile that was visited already.
spec fn stale(open: Seq<Node>, codes: Set<int>, w: int, h: int) -> nat
    decreases open.len(),
{
    if open.len() == 0 {
        0
    } else {
        let one: nat = if codes.contains(code(w, h, open.last().pos)) {
            1
        } else {
            0
        };
        stale(open.drop_last(), codes, w, h) + one
    }
}

proof fn lemma_code_range(w: int, h: int, p: (usize, usize))
    requires
        0 <= w,
        0 <= h,
    ensures
        0 <= code(w, h, p) <= w * h,
        p.0 < w && p.1 < h ==> code(w, h, p) < w * h,
{
    assert(0 <= w * h) by (nonlinear_arith)
        requires
            0 <= w,
            0 <= h,
    ;
    if p.0 < w && p.1 < h {
        let x = p.0 as int;
        let y = p.1 as int;
        assert(0 <= y * w + x < w * h) by (nonlinear_arith)
            requires
                0 <= x < w,
                0 <= y < h,
        ;
    }
}

proof fn lemma_code_injective(w: int, h: int, p: (usize, usize), q: (usize, usize))
    requires
        0 <= w,
        0 <= h,
        p.0 < w && p.1 < h,
        code(w, h, p) == code(w, h, q),
    ensures
        q.0 < w && q.1 < h,
        p == q,
{
    lemma_code_range(w, h, p);
    let x1 = p.0 as int;
    let y1 = p.1 as int;
    let x2 = q.0 as int;
    let y2 = q.1 as int;
    assert(y1 == y2 && x1 == x2) by (nonlinear_arith)
        requires
            0 <= x1 < w,
            0 <= x2 < w,
            0 <= y1,
            0 <= y2,
            y1 * w + x1 == y2 * w + x2,
    ;
}

proof fn lemma_stale_push(open: Seq<Node>, node: Node, codes: Set<int>, w: int, h: int)
    ensures
        stale(open.push(node), codes, w, h) == stale(open, codes, w, h) + (if codes.contains(
            code(w, h, node.pos),
        ) {
            1nat
        } else {
            0nat
        }),
{
    assert(open.push(node).drop_last() == open);
}

proof fn lemma_stale_update(open: Seq<Node>, at: int, node: Node, codes: Set<int>, w: int, h: int)
    requires
        0 <= at < open.len(),
    ensures
        stale(open.update(at, node), codes, w, h) + (if codes.contains(code(w, h, open[at].pos)) {
            1nat
        } else {
            0nat
        }) == stale(open, codes, w, h) + (if codes.contains(code(w, h, node.pos)) {
            1nat
        } else {
            0nat
        }),
    decreases open.len(),
{
    if at == open.len() - 1 {
        assert(open.update(at, node).drop_last() == open.drop_last());
    } else {
        assert(open.update(at, node).drop_last() == open.drop_last().update(at, node));
        lemma_stale_update(open.drop_last(), at, node, codes, w, h);
    }
}

/// Taking a node out by putting the last in its place lowers the count by
/// one exactly where the node taken was stale.
proof fn lemma_stale_swap_remove(open: Seq<Node>, at: int, codes: Set<int>, w: int, h: int)
    requires
        0 <= at < open.len(),
    ensures
        stale(open.update(at, open.last()).drop_last(), codes, w, h) + (if codes.contains(
            code(w, h, open[at].pos),
        ) {
            1nat
        } else {
            0nat
        }) == stale(open, codes, w, h),
{
    lemma_stale_update(open, at, open.last(), codes, w, h);
    let moved = open.update(at, open.last());
    if at == open.len() - 1 {
        assert(moved == open);
    } else {
        assert(moved.last() == open.last());
    }
}

/// The square of the distance between two coordinates.
fn square_of_difference(a: usize, b: usize) -> (res: u128)
    ensures
        res == (a - b) * (a - b),
{
    let d: usize = if a > b {
        a - b
    } else {
        b - a
    };
    assert(0 <= (d as int) * (d as int) <= u128::MAX && (d as int) * (d as int) == (a - b) * (a - b))
        by (nonlinear_arith)
        requires
            0 <= d <= 0xFFFF_FFFF_FFFF_FFFF,
            d == a - b || d == b - a,
    ;
    (d as u128) * (d as u128)
}

/// The sum, or the largest number where the sum is larger.
fn capped_sum(a: u128, b: u128) -> (res: u128)
    ensures
        res == if a + b > u128::MAX {
            u128::MAX as int
        } else {
            a + b
        },
{
    if a > u128::MAX - b {
        u128::MAX
    } else {
        a + b
    }
}


/// Once the waiting node `at` has moved to the visited and its tile's code
/// into `codes`, the lists are orderly still.
proof fn lemma_orderly_after_pop<M: Maze>(
    maze: &M,
    waiting: Seq<Node>,
    visited: Seq<Node>,
    codes: Set<int>,
    w: int,
    h: int,
    start: (usize, usize),
    at: int,
)
    requires
        0 <= at < waiting.len(),
        orderly(maze, waiting, visited, codes, w, h, start),
    ensures
        orderly(
            maze,
            waiting.update(at, waiting.last()).drop_last(),
            visited.push(waiting[at]),
            codes.insert(code(w, h, waiting[at].pos)),
            w,
            h,
            start,
        ),
{
    reveal(orderly);
    let open = waiting.update(at, waiting.last()).drop_last();
    let after = visited.push(waiting[at]);
    let c = code(w, h, waiting[at].pos);
    let wider = codes.insert(c);
    assert(rooted(maze, waiting[at], visited, visited.len() as int, start));
    assert forall|k: int| 0 <= k < after.len() implies rooted(
        maze,
        #[trigger] after[k],
        after,
        k,
        start,
    ) && in_area(w, h, start, after[k].pos) && wider.contains(code(w, h, after[k].pos)) by {
        if k < visited.len() {
            assert(rooted(maze, visited[k], visited, k, start));
        }
    }
    assert forall|c2: int| #[trigger] wider.contains(c2) implies exists|k: int|
        0 <= k < after.len() && code(w, h, (#[trigger] after[k]).pos) == c2 by {
        if c2 == c {
            assert(code(w, h, after[visited.len() as int].pos) == c2);
        } else {
            assert(codes.contains(c2));
            let k = choose|k: int|
                0 <= k < visited.len() && code(w, h, (#[trigger] visited[k]).pos) == c2;
            assert(after[k] == visited[k]);
        }
    }
    assert forall|k: int| 0 <= k < open.len() implies rooted(
        maze,
        #[trigger] open[k],
        after,
        after.len() as int,
        start,
    ) && in_area(w, h, start, open[k].pos) by {
        let from = if k == at {
            waiting.len() - 1
        } else {
            k
        };
        assert(open[k] == waiting[from]);
        assert(rooted(maze, waiting[from], visited, visited.len() as int, start));
    }
}

/// A walkable tile on which no visited node stands has no code in `codes`.
proof fn lemma_fresh_code<M: Maze>(
    maze: &M,
    open: Seq<Node>,
    visited: Seq<Node>,
    codes: Set<int>,
    start: (usize, usize),
    p: (usize, usize),
)
    requires
        orderly(maze, open, visited, codes, maze.spec_width() as int, maze.spec_height() as int, start),
        walkable(maze, p),
        !is_visited(visited, p),
    ensures
        !codes.contains(code(maze.spec_width() as int, maze.spec_height() as int, p)),
{
    reveal(orderly);
    let w = maze.spec_width() as int;
    let h = maze.spec_height() as int;
    if codes.contains(code(w, h, p)) {
        let k = choose|k: int|
            0 <= k < visited.len() && code(w, h, (#[trigger] visited[k]).pos) == code(w, h, p);
        lemma_code_injective(w, h, p, visited[k].pos);
        assert(false);
    }
}

/// A node that hangs on a visited tile may join the waiting.
proof fn lemma_orderly_push<M: Maze>(
    maze: &M,
    open: Seq<Node>,
    visited: Seq<Node>,
    codes: Set<int>,
    w: int,
    h: int,
    start: (usize, usize),
    node: Node,
)
    requires
        orderly(maze, open, visited, codes, w, h, start),
        rooted(maze, node, visited, visited.len() as int, start),
        in_area(w, h, start, node.pos),
    ensures
        orderly(maze, open.push(node), visited, codes, w, h, start),
{
    reveal(orderly);
    let after = open.push(node);
    assert forall|k: int| 0 <= k < after.len() implies rooted(
        maze,
        #[trigger] after[k],
        visited,
        visited.len() as int,
        start,
    ) && in_area(w, h, start, after[k].pos) by {
        if k < open.len() {
            assert(after[k] == open[k]);
            assert(rooted(maze, open[k], visited, visited.len() as int, start));
        }
    }
}

/// What the search keeps true of its two lists: every node is the start or
/// hangs on a visited tile next to it, lies in the maze or on the start,
/// and `codes` holds exactly the tiles visited.
#[verifier::opaque]
spec fn orderly<M: Maze>(
    maze: &M,
    open: Seq<Node>,
    visited: Seq<Node>,
    codes: Set<int>,
    w: int,
    h: int,
    start: (usize, usize),
) -> bool {
    &&& forall|k: int|
        0 <= k < visited.len() ==> rooted(maze, #[trigger] visited[k], visited, k, start) && in_area(
            w,
            h,
            start,
            visited[k].pos,
        ) && codes.contains(code(w, h, visited[k].pos))
    &&& forall|c: int| #[trigger]
        codes.contains(c) ==> exists|k: int|
            0 <= k < visited.len() && code(w, h, (#[trigger] visited[k]).pos) == c
    &&& forall|k: int|
        0 <= k < open.len() ==> rooted(
            maze,
            #[trigger] open[k],
            visited,
            visited.len() as int,
            start,
        )
            && in_area(w, h, start, open[k].pos)
}

/// The tiles from the visited node `from` back to the start, turned round.
fn trace<M: Maze>(maze: &M, visited: &Vec<Node>, from: usize, Ghost(start): Ghost<(usize, usize)>) -> (path:
    Vec<(usize, usize)>)
    requires
        from < visited.len(),
        forall|k: int|
            0 <= k < visited.len() ==> rooted(maze, #[trigger] visited[k], visited@, k, start),
    ensures
        walks(maze, path@, start, visited[from as int].pos),
{
    let mut back: Vec<(usize, usize)> = Vec::new();
    let mut at: usize = from;
    back.push(visited[at].pos);
    let mut parent = visited[at].parent;
    while parent.is_some()
        invariant
            at < visited.len(),
            parent == visited[at as int].parent,
            forall|k: int|
                0 <= k < visited.len() ==> rooted(maze, #[trigger] visited[k], visited@, k, start),
            back@.len() >= 1,
            back@[0] == visited[from as int].pos,
            back@.last() == visited[at as int].pos,
            forall|i: int| 0 <= i < back@.len() - 1 ==> adjacent(back@[i + 1], #[trigger] back@[i]),
            forall|i: int| 0 <= i < back@.len() - 1 ==> walkable(maze, #[trigger] back@[i]),
        decreases at,
    {
        let p = parent.unwrap();
        assert(rooted(maze, visited[at as int], visited@, at as int, start));
        at = p;
        back.push(visited[at].pos);
        parent = visited[at].parent;
    }
    assert(rooted(maze, visited[at as int], visited@, at as int, start));
    let mut path: Vec<(usize, usize)> = Vec::new();
    let mut j: usize = back.len();
    while j > 0
        invariant
            j <= back.len(),
            path@.len() == back.len() - j,
            forall|i: int| 0 <= i < path@.len() ==> path@[i] == back@[back.len() - 1 - i],
        decreases j,
    {
        j = j - 1;
        path.push(back[j]);
    }
    assert forall|i: int| 0 <= i < path@.len() - 1 implies adjacent(
        #[trigger] path@[i],
        path@[i + 1],
    ) by {
        let m = back.len() - 2 - i;
        assert(adjacent(back@[m + 1], back@[m]));
    }
    assert forall|i: int| 1 <= i < path@.len() implies walkable(maze, #[trigger] path@[i]) by {
        let m = back.len() - 1 - i;
        assert(walkable(maze, back@[m]));
    }
    path
}

/// The place of a neighbour among the nine tiles round a tile: row above,
/// same row, row below, each from left to right.
spec fn direction(from: (usize, usize), to: (usize, usize)) -> int {
    (to.1 - from.1 + 1) * 3 + (to.0 - from.0 + 1)
}

/// The coordinate one lower, the same or one higher, as `step` is 0, 1 or
/// 2; `None` where that leaves the number range.
fn shifted(at: usize, step: u8) -> (res: Option<usize>)
    requires
        step <= 2,
    ensures
        res is Some <==> 0 <= at + step - 1 <= usize::MAX,
        res matches Some(to) ==> to == at + step - 1,
{
    if step == 0 {
        if at == 0 {
            None
        } else {
            Some(at - 1)
        }
    } else if step == 1 {
        Some(at)
    } else {
        if at == usize::MAX {
            None
        } else {
            Some(at + 1)
        }
    }
}

/// The neighbours of `current` that can be walked on, in the order row
/// above, same row, row below, each from left to right.
fn neighbours<M: Maze>(maze: &M, width: usize, height: usize, current: Node, index: usize) -> (children:
    Vec<Node>)
    requires
        width == maze.spec_width(),
        height == maze.spec_height(),
    ensures
        forall|k: int|
            0 <= k < children.len() ==> {
                &&& (#[trigger] children[k]).parent == Some(index)
                &&& adjacent(current.pos, children[k].pos)
                &&& walkable(maze, children[k].pos)
            },
        forall|v: (usize, usize)| #[trigger]
            adjacent(current.pos, v) && walkable(maze, v) ==> is_waiting(children@, v),
{
    let mut children: Vec<Node> = Vec::new();
    let (px, py) = current.pos;
    let mut d: u8 = 0;
    while d < 9
        invariant
            d <= 9,
            (px, py) == current.pos,
            width == maze.spec_width(),
            height == maze.spec_height(),
            forall|k: int|
                0 <= k < children.len() ==> {
                    &&& (#[trigger] children[k]).parent == Some(index)
                    &&& adjacent(current.pos, children[k].pos)
                    &&& walkable(maze, children[k].pos)
                },
            forall|v: (usize, usize)| #[trigger]
                adjacent(current.pos, v) && walkable(maze, v) && direction(current.pos, v) < d
                    ==> is_waiting(children@, v),
        decreases 9 - d,
    {
        let dx: u8 = d % 3;
        let dy: u8 = d / 3;
        let ghost before = children@;
        let mut found: Option<(usize, usize)> = None;
        if !(dx == 1 && dy == 1) {
            match shifted(px, dx) {
                Some(x) => {
                    if x < width {
                        match shifted(py, dy) {
                            Some(y) => {
                                if y < height {
                                    if !maze.solid(x, y) {
                                        found = Some((x, y));
                                    }
                                }
                            },
                            None => {},
                        }
                    }
                },
                None => {},
            }
        }
        match found {
            Some(pos) => {
                children.push(Node::new(Some(index), pos, 0, 0, 0));
            },
            None => {},
        }
        proof {
            assert forall|v: (usize, usize)| #[trigger]
                adjacent(current.pos, v) && walkable(maze, v) && direction(current.pos, v) < d
                    + 1 implies is_waiting(children@, v) by {
                if direction(current.pos, v) < d {
                    assert(is_waiting(before, v));
                    let b = choose|b: int| 0 <= b < before.len() && (#[trigger] before[b]).pos == v;
                    assert(children@[b].pos == v);
                } else {
                    assert(v.0 == px + dx - 1);
                    assert(v.1 == py + dy - 1);
                    assert(found == Some(v));
                    assert(children@[children@.len() - 1].pos == v);
                }
            }
        }
        d = d + 1;
    }
    children
}

/// Finds a path from one tile to another with the A star algorithm: from
/// tile to touching tile, over tiles of the maze that are not solid. The
/// start is taken as it is, walkable or not. A path is found exactly where
/// there is one; `None` says that `end` cannot be reached.
pub fn astar<M: Maze>(maze: &M, start: (usize, usize), end: (usize, usize)) -> (res: Option<
    Vec<(usize, usize)>,
>)
    ensures
        match res {
            Some(path) => walks(maze, path@, start, end),
            None => forall|path: Seq<(usize, usize)>| !walks(maze, path, start, end),
        },
{
    let width = maze.width();
    let height = maze.height();
    let ghost w = width as int;
    let ghost h = height as int;
    let ghost n = w * h;
    let mut open_list: Vec<Node> = Vec::new();
    open_list.push(Node::new(None, start, 0, 0, 0));
    let mut closed_list: Vec<Node> = Vec::new();
    let ghost mut codes: Set<int> = Set::empty();
    proof {
        lemma_code_range(w, h, start);
        lemma_int_range(0, n + 1);
        assert(open_list@[0].pos == start);
        assert(frontier(maze, open_list@, closed_list@, 0)) by {
            reveal(frontier);
        }
        assert(orderly(maze, open_list@, closed_list@, codes, w, h, start)) by {
            reveal(orderly);
        }
        assert(!is_visited(closed_list@, end));
    }
    loop
        invariant
            w == width,
            h == height,
            w == maze.spec_width(),
            h == maze.spec_height(),
            n == w * h,
            0 <= n,
            codes.finite(),
            codes.subset_of(set_int_range(0, n + 1)),
            codes.len() <= n + 1,
            orderly(maze, open_list@, closed_list@, codes, w, h, start),
            frontier(maze, open_list@, closed_list@, closed_list@.len() as int),
            is_visited(closed_list@, start) || is_waiting(open_list@, start),
            !is_visited(closed_list@, end),
        decreases n + 1 - codes.len(), stale(open_list@, codes, w, h),
    {
        if open_list.len() == 0 {
            proof {
                assert(open_list@ =~= Seq::<Node>::empty());
                assert forall|path: Seq<(usize, usize)>| !walks(maze, path, start, end) by {
                    if walks(maze, path, start, end) {
                        lemma_walk_stays_visited(maze, closed_list@, path, path.len() - 1);
                    }
                }
            }
            return None;
        }
        let mut remove: usize = 0;
        let mut i: usize = 1;
        while i < open_list.len()
            invariant
                remove < open_list.len(),
                1 <= i,
            decreases open_list.len() - i,
        {
            if open_list[i].f < open_list[remove].f {
                remove = i;
            }
            i = i + 1;
        }
        let ghost waiting = open_list@;
        let ghost old_codes = codes;
        let ghost old_visited = closed_list@;
        let current_node = open_list.swap_remove(remove);
        let index: usize = closed_list.len();
        closed_list.push(current_node);
        let ghost c = code(w, h, current_node.pos);
        proof {
            lemma_stale_swap_remove(waiting, remove as int, old_codes, w, h);
            lemma_code_range(w, h, current_node.pos);
            lemma_int_range(0, n + 1);
            codes = old_codes.insert(c);
            lemma_len_subset(codes, set_int_range(0, n + 1));
            if old_codes.contains(c) {
                assert(codes =~= old_codes);
            }
            lemma_orderly_after_pop(maze, waiting, old_visited, old_codes, w, h, start, remove as int);
            lemma_moved_to_visited(waiting, old_visited, remove as int, start);
            lemma_frontier_after_pop(maze, waiting, old_visited, remove as int);
        }
        if current_node.pos.0 == end.0 && current_node.pos.1 == end.1 {
            assert(forall|k: int|
                0 <= k < closed_list@.len() ==> rooted(
                    maze,
                    #[trigger] closed_list@[k],
                    closed_list@,
                    k,
                    start,
                )) by {
                reveal(orderly);
            }
            let path = trace(maze, &closed_list, index, Ghost(start));
            return Some(path);
        }
        proof {
            if is_visited(closed_list@, end) {
                let a = choose|a: int|
                    0 <= a < closed_list@.len() && (#[trigger] closed_list@[a]).pos == end;
                if a < index {
                    assert(old_visited[a].pos == end);
                }
            }
        }
        let children = neighbours(maze, width, height, current_node, index);
        let ghost settled = stale(open_list@, codes, w, h);
        let mut at: usize = 0;
        while at < children.len()
            invariant
                w == width,
                h == height,
                w == maze.spec_width(),
                h == maze.spec_height(),
                0 <= w,
                0 <= h,
                at <= children.len(),
                index + 1 == closed_list.len(),
                closed_list[index as int] == current_node,
                orderly(maze, open_list@, closed_list@, codes, w, h, start),
                frontier(maze, open_list@, closed_list@, index as int),
                is_visited(closed_list@, start) || is_waiting(open_list@, start),
                stale(open_list@, codes, w, h) == settled,
                forall|k: int|
                    0 <= k < children.len() ==> {
                        &&& (#[trigger] children[k]).parent == Some(index)
                        &&& adjacent(current_node.pos, children[k].pos)
                        &&& walkable(maze, children[k].pos)
                    },
                forall|k: int|
                    0 <= k < at ==> is_visited(closed_list@, (#[trigger] children[k]).pos)
                        || is_waiting(open_list@, children[k].pos),
            decreases children.len() - at,
        {
            let mut child = children[at];
            at = at + 1;
            let mut seen = false;
            let mut k: usize = 0;
            while k < closed_list.len() && !seen
                invariant
                    k <= closed_list.len(),
                    !seen ==> forall|j: int| 0 <= j < k ==> closed_list[j].pos != child.pos,
                    seen ==> is_visited(closed_list@, child.pos),
                decreases closed_list.len() - k + (if seen { 0int } else { 1int }),
            {
                if closed_list[k].pos.0 == child.pos.0 && closed_list[k].pos.1 == child.pos.1 {
                    seen = true;
                    assert(closed_list@[k as int].pos == child.pos);
                } else {
                    k = k + 1;
                }
            }
            if seen {
                continue ;
            }
            child.g = capped_sum(current_node.g, 1);
            let x = square_of_difference(child.pos.0, end.0);
            let y = square_of_difference(child.pos.1, end.1);
            child.h = capped_sum(x, y);
            child.f = capped_sum(child.g, child.h);
            let mut worse = false;
            let mut o: usize = 0;
            while o < open_list.len() && !worse
                invariant
                    o <= open_list.len(),
                    worse ==> is_waiting(open_list@, child.pos),
                decreases open_list.len() - o + (if worse { 0int } else { 1int }),
            {
                let on = &open_list[o];
                if on.pos.0 == child.pos.0 && on.pos.1 == child.pos.1 && child.g > on.g {
                    worse = true;
                    assert(open_list@[o as int].pos == child.pos);
                } else {
                    o = o + 1;
                }
            }
            if worse {
                continue ;
            }
            let ghost before = open_list@;
            proof {
                lemma_stale_push(before, child, codes, w, h);
                lemma_fresh_code(maze, before, closed_list@, codes, start, child.pos);
                assert(rooted(maze, child, closed_list@, closed_list@.len() as int, start));
                lemma_orderly_push(maze, before, closed_list@, codes, w, h, start, child);
            }
            open_list.push(child);
            proof {
                lemma_waiting_push(before, child, start);
                lemma_frontier_push(maze, before, closed_list@, index as int, child);
                assert forall|k: int|
                    0 <= k < at implies is_visited(closed_list@, (#[trigger] children[k]).pos)
                    || is_waiting(open_list@, children[k].pos) by {
                    lemma_waiting_push(before, child, children[k].pos);
                }
            }
        }
        proof {
            lemma_frontier_close(maze, open_list@, closed_list@, children@);
        }
    }
}

/// A waiting tile still waits once another node waits too.
proof fn lemma_waiting_push(open: Seq<Node>, node: Node, v: (usize, usize))
    ensures
        is_waiting(open, v) ==> is_waiting(open.push(node), v),
        is_waiting(open.push(node), node.pos),
{
    let after = open.push(node);
    assert(after[open.len() as int].pos == node.pos);
    if is_waiting(open, v) {
        let b = choose|b: int| 0 <= b < open.len() && (#[trigger] open[b]).pos == v;
        assert(after[b].pos == v);
    }
}

proof fn lemma_frontier_push<M: Maze>(
    maze: &M,
    open: Seq<Node>,
    visited: Seq<Node>,
    upto: int,
    node: Node,
)
    requires
        frontier(maze, open, visited, upto),
    ensures
        frontier(maze, open.push(node), visited, upto),
{
    reveal(frontier);
    assert forall|k: int, v: (usize, usize)|
        0 <= k < upto && #[trigger] adjacent(visited[k].pos, v) && walkable(
            maze,
            v,
        ) implies is_visited(visited, v) || is_waiting(open.push(node), v) by {
        lemma_waiting_push(open, node, v);
    }
}

proof fn lemma_frontier_after_pop<M: Maze>(
    maze: &M,
    waiting: Seq<Node>,
    visited: Seq<Node>,
    at: int,
)
    requires
        0 <= at < waiting.len(),
        frontier(maze, waiting, visited, visited.len() as int),
    ensures
        frontier(
            maze,
            waiting.update(at, waiting.last()).drop_last(),
            visited.push(waiting[at]),
            visited.len() as int,
        ),
{
    reveal(frontier);
    let after = visited.push(waiting[at]);
    assert forall|k: int, v: (usize, usize)|
        0 <= k < visited.len() && #[trigger] adjacent(after[k].pos, v) && walkable(
            maze,
            v,
        ) implies is_visited(after, v) || is_waiting(
        waiting.update(at, waiting.last()).drop_last(),
        v,
    ) by {
        assert(after[k] == visited[k]);
        assert(adjacent(visited[k].pos, v));
        lemma_moved_to_visited(waiting, visited, at, v);
    }
}

/// Once every walkable neighbour of the last visited tile is visited or
/// waiting, the frontier holds of all visited tiles.
proof fn lemma_frontier_close<M: Maze>(
    maze: &M,
    open: Seq<Node>,
    visited: Seq<Node>,
    children: Seq<Node>,
)
    requires
        visited.len() >= 1,
        frontier(maze, open, visited, visited.len() - 1),
        forall|v: (usize, usize)| #[trigger]
            adjacent(visited.last().pos, v) && walkable(maze, v) ==> is_waiting(children, v),
        forall|k: int|
            0 <= k < children.len() ==> is_visited(visited, (#[trigger] children[k]).pos)
                || is_waiting(open, children[k].pos),
    ensures
        frontier(maze, open, visited, visited.len() as int),
{
    reveal(frontier);
    assert forall|k: int, v: (usize, usize)|
        0 <= k < visited.len() && #[trigger] adjacent(visited[k].pos, v) && walkable(
            maze,
            v,
        ) implies is_visited(visited, v) || is_waiting(open, v) by {
        if k == visited.len() - 1 {
            assert(is_waiting(children, v));
            let b = choose|b: int| 0 <= b < children.len() && (#[trigger] children[b]).pos == v;
            assert(is_visited(visited, children[b].pos) || is_waiting(open, children[b].pos));
        }
    }
}

/// Once a waiting node has moved to the visited, every tile that was
/// visited or waiting still is.
proof fn lemma_moved_to_visited(
    waiting: Seq<Node>,
    visited: Seq<Node>,
    at: int,
    v: (usize, usize),
)
    requires
        0 <= at < waiting.len(),
        is_visited(visited, v) || is_waiting(waiting, v),
    ensures
        is_visited(visited.push(waiting[at]), v) || is_waiting(
            waiting.update(at, waiting.last()).drop_last(),
            v,
        ),
{
    let after = visited.push(waiting[at]);
    let left = waiting.update(at, waiting.last()).drop_last();
    if is_visited(visited, v) {
        let a = choose|a: int| 0 <= a < visited.len() && (#[trigger] visited[a]).pos == v;
        assert(after[a].pos == v);
    } else {
        let b = choose|b: int| 0 <= b < waiting.len() && (#[trigger] waiting[b]).pos == v;
        if b == at {
            assert(after[visited.len() as int].pos == v);
        } else if b == waiting.len() - 1 {
            assert(left[at].pos == v);
        } else {
            assert(left[b].pos == v);
        }
    }
}

/// A maze held as a table: one flag per tile, row after row.
pub struct Grid {
    width: usize,
    height: usize,
    cells: Vec<bool>,
}

/// Where the flag of the tile at x, y lies in a table `width` tiles wide.
pub open spec fn cell(width: int, x: int, y: int) -> int {
    y * width + x
}

proof fn lemma_cell_bound(width: int, height: int, x: int, y: int)
    requires
        0 <= x < width,
        0 <= y < height,
    ensures
        0 <= y * width,
        0 <= cell(width, x, y) < width * height,
{
    assert(0 <= y * width && 0 <= y * width + x < width * height) by (nonlinear_arith)
        requires
            0 <= x < width,
            0 <= y < height,
    ;
}

proof fn lemma_product_fits(a: usize, b: usize)
    ensures
        0 <= a * b <= u128::MAX - usize::MAX,
{
    assert(0 <= a * b <= 0xFFFF_FFFF_FFFF_FFFF * 0xFFFF_FFFF_FFFF_FFFF) by (nonlinear_arith)
        requires
            0 <= a <= 0xFFFF_FFFF_FFFF_FFFF,
            0 <= b <= 0xFFFF_FFFF_FFFF_FFFF,
    ;
}

impl Grid {
    /// The flags, row after row.
    pub closed spec fn flags(&self) -> Seq<bool> {
        self.cells@
    }

    /// There is one flag for every tile.
    pub open spec fn wf(&self) -> bool {
        self.flags().len() == self.spec_width() * self.spec_height()
    }

    /// A maze of the given size without a solid tile. `None` where the
    /// number of tiles does not fit the machine.
    pub fn new(width: usize, height: usize) -> (res: Option<Grid>)
        ensures
            res is Some <==> width * height <= usize::MAX,
            res matches Some(grid) ==> grid.wf() && grid.spec_width() == width
                && grid.spec_height() == height && forall|x: usize, y: usize|
                !#[trigger] grid.spec_solid(x, y),
    {
        proof {
            lemma_product_fits(width, height);
        }
        let total: u128 = width as u128 * height as u128;
        if total > usize::MAX as u128 {
            return None;
        }
        let mut cells: Vec<bool> = Vec::new();
        let mut k: usize = 0;
        while k < total as usize
            invariant
                k <= total,
                total <= usize::MAX,
                cells@.len() == k,
                forall|j: int| 0 <= j < k ==> !cells@[j],
            decreases total - k,
        {
            cells.push(false);
            k = k + 1;
        }
        let grid = Grid { width, height, cells };
        assert forall|x: usize, y: usize| !#[trigger] grid.spec_solid(x, y) by {
            if x < width && y < height {
                lemma_cell_bound(width as int, height as int, x as int, y as int);
            }
        }
        Some(grid)
    }

    /// Makes the tile at x, y solid or free. A tile outside the maze is
    /// refused, and nothing changes.
    pub fn set_solid(&mut self, x: usize, y: usize, solid: bool) -> (res: bool)
        requires
            old(self).wf(),
        ensures
            final(self).wf(),
            final(self).spec_width() == old(self).spec_width(),
            final(self).spec_height() == old(self).spec_height(),
            res == (x < old(self).spec_width() && y < old(self).spec_height()),
            res ==> final(self).flags() == old(self).flags().update(
                cell(old(self).spec_width() as int, x as int, y as int),
                solid,
            ),
            !res ==> final(self).flags() == old(self).flags(),
    {
        if x < self.width && y < self.height {
            proof {
                lemma_cell_bound(self.width as int, self.height as int, x as int, y as int);
            }
            let total: usize = self.cells.len();
            let at: usize = y * self.width + x;
            self.cells[at] = solid;
            true
        } else {
            false
        }
    }
}

impl Maze for Grid {
    closed spec fn spec_width(&self) -> usize {
        self.width
    }

    closed spec fn spec_height(&self) -> usize {
        self.height
    }

    /// A tile of the maze is solid where its flag says so; outside the maze
    /// nothing is.
    open spec fn spec_solid(&self, x: usize, y: usize) -> bool {
        let at = cell(self.spec_width() as int, x as int, y as int);
        x < self.spec_width() && y < self.spec_height() && 0 <= at < self.flags().len()
            && self.flags()[at]
    }

    fn width(&self) -> (res: usize) {
        self.width
    }

    fn height(&self) -> (res: usize) {
        self.height
    }

    fn solid(&self, x: usize, y: usize) -> (res: bool) {
        if x < self.width && y < self.height {
            proof {
                lemma_product_fits(y, self.width);
            }
            let at: u128 = y as u128 * self.width as u128 + x as u128;
            if at < self.cells.len() as u128 {
                self.cells[at as usize]
            } else {
                false
            }
        } else {
            false
        }
    }
}

} // verus!
