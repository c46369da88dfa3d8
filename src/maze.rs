use vstd::prelude::*;

use crate::geometry::{Point, UNIT};

verus! {

/// The grid map: rows of cells, one character each.
pub type Maze = Vec<Vec<char>>;

/// The largest extent, in world units, that a map may span along either axis.
pub const WORLD_LIMIT: u64 = 0x100_0000;

/// Floor and the spawn marker can be walked through; any other cell is a wall.
pub open spec fn is_open(c: char) -> bool {
    c == ' ' || c == 'p'
}

/// A wall: any cell but floor, spawn or goal.
pub open spec fn is_wall(c: char) -> bool {
    c != ' ' && c != 'p' && c != 'g'
}

/// The grid cell holding the point `(x, y)`, if the point lies on the grid.
pub open spec fn on_grid(maze: &Maze, block_size: int, x: int, y: int) -> bool {
    0 <= x && 0 <= y && x / (block_size * UNIT) < cols(maze) && y / (block_size * UNIT) < rows(
        maze,
    )
}

/// The point `(x, y)` lies on a wall cell of the grid.
pub open spec fn on_wall(maze: &Maze, block_size: int, x: int, y: int) -> bool {
    on_grid(maze, block_size, x, y) && is_wall(
        cell(maze, x / (block_size * UNIT), y / (block_size * UNIT)),
    )
}

pub open spec fn rows(maze: &Maze) -> int {
    maze@.len() as int
}

pub open spec fn cols(maze: &Maze) -> int {
    maze@[0]@.len() as int
}

pub open spec fn cell(maze: &Maze, i: int, j: int) -> char {
    maze@[j]@[i]
}

/// A non-empty, rectangular grid.
pub open spec fn maze_wf(maze: &Maze) -> bool {
    &&& maze@.len() > 0
    &&& forall|j: int| 0 <= j < maze@.len() ==> #[trigger] maze@[j]@.len() == maze@[0]@.len()
}

/// A well-formed grid with a positive cell size, whose world extent stays within
/// the limit.
pub open spec fn maze_fits(maze: &Maze, block_size: usize) -> bool {
    &&& maze_wf(maze)
    &&& 0 < block_size
    &&& rows(maze) * block_size <= WORLD_LIMIT
    &&& cols(maze) * block_size <= WORLD_LIMIT
}

/// The cell index of a coordinate as the sprite and enemy code take it: negative
/// coordinates fall in cell 0.
pub open spec fn clamped_cell(v: int, block_size: int) -> int {
    if v < 0 {
        0
    } else {
        v / (block_size * UNIT)
    }
}

/// A multiple of the cell size within the world limit stays within range once scaled
/// to fixed point.
pub proof fn lemma_scaled_extent(k: int, block_size: int)
    requires
        0 <= k,
        0 < block_size,
        k * block_size <= WORLD_LIMIT,
    ensures
        k * (block_size * UNIT) == (k * block_size) * UNIT,
        0 <= k * (block_size * UNIT) <= WORLD_LIMIT * UNIT,
        k <= WORLD_LIMIT,
{
    assert(k * (block_size * UNIT) == (k * block_size) * UNIT) by (nonlinear_arith);
    assert(0 <= (k * block_size) * UNIT <= WORLD_LIMIT * UNIT) by (nonlinear_arith)
        requires
            0 <= k * block_size <= WORLD_LIMIT,
    ;
    assert(k <= k * block_size) by (nonlinear_arith)
        requires
            0 <= k,
            0 < block_size,
    ;
}

pub proof fn lemma_block_bound(maze: &Maze, block_size: usize)
    requires
        maze_fits(maze, block_size),
    ensures
        block_size <= WORLD_LIMIT,
        block_size * UNIT <= WORLD_LIMIT * UNIT,
{
    assert(block_size <= rows(maze) * block_size) by (nonlinear_arith)
        requires
            rows(maze) >= 1,
            block_size > 0,
    ;
}

pub fn cell_at(maze: &Maze, i: usize, j: usize) -> (c: char)
    requires
        maze_wf(maze),
        i < cols(maze),
        j < rows(maze),
    ensures
        c == cell(maze, i as int, j as int),
{
    assert(maze@[j as int]@.len() == maze@[0]@.len());
    maze[j][i]
}

/// `clamped_cell` of a coordinate, computed.
pub fn cell_index(v: i64, block_size: usize) -> (r: u64)
    requires
        0 < block_size <= WORLD_LIMIT,
    ensures
        r == clamped_cell(v as int, block_size as int),
{
    if v < 0 {
        0
    } else {
        assert(block_size * UNIT <= WORLD_LIMIT * UNIT) by (nonlinear_arith)
            requires
                block_size <= WORLD_LIMIT,
        ;
        let scale: u64 = block_size as u64 * UNIT as u64;
        (v as u64) / scale
    }
}

/// Whether the point `(x, y)` lies on a wall cell of the grid.
pub fn point_on_wall(maze: &Maze, block_size: usize, x: i64, y: i64) -> (r: bool)
    requires
        maze_fits(maze, block_size),
    ensures
        r == on_wall(maze, block_size as int, x as int, y as int),
{
    if x < 0 || y < 0 {
        return false;
    }
    proof {
        lemma_block_bound(maze, block_size);
    }
    let i = cell_index(x, block_size);
    let j = cell_index(y, block_size);
    if j < maze.len() as u64 && i < maze[0].len() as u64 {
        let c = cell_at(maze, i as usize, j as usize);
        c != ' ' && c != 'p' && c != 'g'
    } else {
        false
    }
}

/// Whether the point `(x, y)` lies off the grid (a coordinate below zero included)
/// or on a wall cell.
pub fn point_blocked(maze: &Maze, block_size: usize, x: i64, y: i64) -> (r: bool)
    requires
        maze_fits(maze, block_size),
    ensures
        r == (!on_grid(maze, block_size as int, x as int, y as int) || on_wall(
            maze,
            block_size as int,
            x as int,
            y as int,
        )),
{
    if x < 0 || y < 0 {
        return true;
    }
    proof {
        lemma_block_bound(maze, block_size);
    }
    let i = cell_index(x, block_size);
    let j = cell_index(y, block_size);
    if j < maze.len() as u64 && i < maze[0].len() as u64 {
        let c = cell_at(maze, i as usize, j as usize);
        c != ' ' && c != 'p' && c != 'g'
    } else {
        true
    }
}

/// What a map file yields: the grid and where the player starts.
pub struct MazeData {
    pub maze: Maze,
    pub player_start: Point,
}

/// Where the player starts when the map has no spawn marker: (150, 150).
pub open spec fn default_start() -> Point {
    Point { x: (150 * UNIT) as i64, y: (150 * UNIT) as i64 }
}

/// The center of cell `(i, j)` in fixed-point world coordinates.
pub open spec fn cell_center(i: int, j: int, block_size: int) -> Point {
    Point {
        x: (i * block_size * UNIT + block_size * UNIT / 2) as i64,
        y: (j * block_size * UNIT + block_size * UNIT / 2) as i64,
    }
}

/// Index of the first spawn marker in `row`, if any.
pub open spec fn first_spawn_in(row: Seq<char>) -> Option<int> {
    if exists|i: int| 0 <= i < row.len() && row[i] == 'p' {
        Some(choose|i: int| 0 <= i < row.len() && row[i] == 'p' && forall|k: int| 0 <= k < i ==> row[k] != 'p')
    } else {
        None
    }
}

/// The start position over the first `n` rows: each row with a spawn marker
/// replaces it by the center of that row's first marker.
pub open spec fn spawn_over(maze: &Maze, n: int, block_size: int) -> Point
    decreases n,
{
    if n <= 0 {
        default_start()
    } else {
        match first_spawn_in(maze@[n - 1]@) {
            Some(i) => cell_center(i, n - 1, block_size),
            None => spawn_over(maze, n - 1, block_size),
        }
    }
}

/// Where the player starts on `maze`: the center of the first spawn marker of the
/// last row that holds one, or (150, 150) when no row does.
pub fn find_player_start(maze: &Maze, block_size: usize) -> (start: Point)
    requires
        maze_fits(maze, block_size),
    ensures
        start == spawn_over(maze, rows(maze), block_size as int),
{
    let mut start = Point::new(150 * UNIT, 150 * UNIT);
    let n = maze.len();
    let width = maze[0].len();
    let mut j: usize = 0;
    while j < n
        invariant
            j <= n,
            n == rows(maze),
            width == cols(maze),
            maze_fits(maze, block_size),
            start == spawn_over(maze, j as int, block_size as int),
        decreases n - j,
    {
        let row = &maze[j];
        assert(row@.len() == width);
        let mut i: usize = 0;
        let mut found = false;
        while i < width
            invariant_except_break
                !found,
            invariant
                i <= width,
                width == row@.len(),
                forall|k: int| 0 <= k < i ==> row@[k] != 'p',
            ensures
                found ==> i < width && row@[i as int] == 'p' && forall|k: int|
                    0 <= k < i ==> row@[k] != 'p',
                !found ==> forall|k: int| 0 <= k < width ==> row@[k] != 'p',
            decreases width - i,
        {
            if row[i] == 'p' {
                found = true;
                break;
            }
            i += 1;
        }
        if found {
            proof {
                assert(i as int * block_size as int <= width as int * block_size as int)
                    by (nonlinear_arith)
                    requires
                        i < width,
                ;
                assert(j as int * block_size as int <= n as int * block_size as int)
                    by (nonlinear_arith)
                    requires
                        j < n,
                ;
                lemma_block_bound(maze, block_size);
                lemma_scaled_extent(i as int, block_size as int);
                lemma_scaled_extent(j as int, block_size as int);
                let c = choose|c: int|
                    0 <= c < row@.len() && row@[c] == 'p' && forall|k: int|
                        0 <= k < c ==> row@[k] != 'p';
                assert(first_spawn_in(row@) == Some(c));
                assert(c == i);
            }
            let scale: i64 = block_size as i64 * UNIT;
            start = Point::new(i as i64 * scale + scale / 2, j as i64 * scale + scale / 2);
        }
        j += 1;
    }
    start
}

} // verus!
