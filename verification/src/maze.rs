use vstd::prelude::*;
use crate::config::{
    ARENA_H, ARENA_W, FALLBACK_START_X, FALLBACK_START_Y, ORIGIN_X, ORIGIN_Y, TILE,
};
use crate::geometry::{clamp_coord, saturate, Vector};

verus! {

/// The character of a wall cell.
pub const WALL_MARK: char = '#';

/// The character of an enemy spawn cell.
pub const SPAWN_MARK: char = 'S';

/// The character of the player's start cell.
pub const START_MARK: char = 'P';

/// A static rectangle of the maze, given by its centre and its full size.
#[derive(Clone, Copy, PartialEq, Eq, Structural, Debug)]
pub struct Wall {
    pub pos: Vector,
    pub size: Vector,
}

/// Why a grid cannot be built into a maze.
#[derive(Clone, Copy, PartialEq, Eq, Structural, Debug)]
pub enum MazeError {
    /// Row `row` is `width` cells wide where the first row is `expected` wide.
    RaggedRow { row: usize, width: usize, expected: usize },
}

/// What a character grid yields: its walls, its enemy spawn points and the
/// player's start, all in world coordinates.
#[derive(Clone, Debug, PartialEq, Eq)]
pub struct MazeLayout {
    pub walls: Vec<Wall>,
    pub spawn_points: Vec<Vector>,
    pub player_start: Vector,
}

/// The mathematical content of a `MazeLayout`.
pub struct MazeLayoutView {
    pub walls: Seq<Wall>,
    pub spawn_points: Seq<Vector>,
    pub player_start: Vector,
}

impl View for MazeLayout {
    type V = MazeLayoutView;

    open spec fn view(&self) -> MazeLayoutView {
        MazeLayoutView {
            walls: self.walls@,
            spawn_points: self.spawn_points@,
            player_start: self.player_start,
        }
    }
}

/// World position of the centre of the cell in row `r`, column `c`: columns
/// run to the right and rows run downward from the top-left tile.
pub open spec fn cell_center(r: int, c: int) -> Vector {
    Vector {
        x: clamp_coord(ORIGIN_X + c * TILE) as i32,
        y: clamp_coord(ORIGIN_Y - r * TILE) as i32,
    }
}

/// The grid is laid out around the middle of the arena: the top-left cell
/// sits half a tile inside the arena's top-left corner, and the last cell of
/// a grid of 20 by 15 sits as far inside the opposite corner.
pub proof fn lemma_grid_is_centred()
    ensures
        cell_center(0, 0).x == -(ARENA_W / 2) + TILE / 2,
        cell_center(0, 0).y == ARENA_H / 2 - TILE / 2,
        cell_center(14, 19).x == ARENA_W / 2 - TILE / 2,
        cell_center(14, 19).y == -(ARENA_H / 2) + TILE / 2,
{
}

/// The wall that fills the tile centred at `p`.
pub open spec fn wall_at(p: Vector) -> Wall {
    Wall { pos: p, size: Vector { x: TILE, y: TILE } }
}

/// Where the player starts in a maze that marks no start.
pub open spec fn fallback_start() -> Vector {
    Vector { x: FALLBACK_START_X, y: FALLBACK_START_Y }
}

/// Whether every row is as wide as the first.
pub open spec fn rectangular(grid: Seq<Seq<char>>) -> bool {
    forall|i: int| 0 <= i < grid.len() ==> (#[trigger] grid[i]).len() == grid[0].len()
}

/// Centres of the cells of row `r` that hold `mark`, among its first `cols`
/// columns, from left to right.
pub open spec fn row_marks(row: Seq<char>, r: int, mark: char, cols: int) -> Seq<Vector>
    decreases cols,
{
    if cols <= 0 {
        Seq::empty()
    } else if row[cols - 1] == mark {
        row_marks(row, r, mark, cols - 1).push(cell_center(r, cols - 1))
    } else {
        row_marks(row, r, mark, cols - 1)
    }
}

/// Centres of the cells that hold `mark` in the first `rows` rows, in
/// row-major order.
pub open spec fn grid_marks(grid: Seq<Seq<char>>, mark: char, rows: int) -> Seq<Vector>
    decreases rows,
{
    if rows <= 0 {
        Seq::empty()
    } else {
        grid_marks(grid, mark, rows - 1) + row_marks(
            grid[rows - 1],
            rows - 1,
            mark,
            grid[rows - 1].len() as int,
        )
    }
}

/// The player's start among the start cells found: the last one, or the
/// fallback where there is none.
pub open spec fn start_among(starts: Seq<Vector>) -> Vector {
    if starts.len() == 0 {
        fallback_start()
    } else {
        starts.last()
    }
}

/// The layout that a grid describes: one wall per wall cell and one spawn
/// point per spawn cell, both in row-major order, and the last start cell.
pub open spec fn layout_of(grid: Seq<Seq<char>>) -> MazeLayoutView {
    let wall_cells = grid_marks(grid, WALL_MARK, grid.len() as int);
    MazeLayoutView {
        walls: Seq::new(wall_cells.len(), |i: int| wall_at(wall_cells[i])),
        spawn_points: grid_marks(grid, SPAWN_MARK, grid.len() as int),
        player_start: start_among(grid_marks(grid, START_MARK, grid.len() as int)),
    }
}

/// The test for a cell that holds `mark`.
pub open spec fn holds_mark(mark: char) -> spec_fn(char) -> bool {
    |c: char| c == mark
}

/// How many cells of a row hold `mark`.
pub open spec fn row_count(row: Seq<char>, mark: char) -> nat {
    row.filter(holds_mark(mark)).len()
}

/// How many cells in the first `rows` rows of a grid hold `mark`.
pub open spec fn grid_count(grid: Seq<Seq<char>>, mark: char, rows: int) -> nat
    decreases rows,
{
    if rows <= 0 {
        0
    } else {
        grid_count(grid, mark, rows - 1) + row_count(grid[rows - 1], mark)
    }
}

/// Whether `p` is the centre of a cell that holds `mark`, in a row under `rows`.
pub open spec fn marks_cell(grid: Seq<Seq<char>>, mark: char, rows: int, p: Vector) -> bool {
    exists|r: int, c: int|
        0 <= r < rows && 0 <= c < grid[r].len() && grid[r][c] == mark && p == #[trigger] cell_center(
            r,
            c,
        )
}

/// Whether `p` is the centre of a cell of row `r` that holds `mark`, in a
/// column under `cols`.
spec fn marks_row_cell(row: Seq<char>, r: int, mark: char, cols: int, p: Vector) -> bool {
    exists|c: int| 0 <= c < cols && row[c] == mark && p == #[trigger] cell_center(r, c)
}

/// The marks of a row are the centres of its cells that hold the mark: there
/// is one for each such cell among the first `cols`, and no other.
proof fn lemma_row_marks(row: Seq<char>, r: int, mark: char, cols: int)
    requires
        0 <= cols <= row.len(),
    ensures
        row_marks(row, r, mark, cols).len() == row.take(cols).filter(holds_mark(mark)).len(),
        forall|c: int|
            0 <= c < cols && row[c] == mark ==> row_marks(row, r, mark, cols).contains(
                #[trigger] cell_center(r, c),
            ),
        forall|k: int|
            0 <= k < row_marks(row, r, mark, cols).len() ==> marks_row_cell(
                row,
                r,
                mark,
                cols,
                #[trigger] row_marks(row, r, mark, cols)[k],
            ),
    decreases cols,
{
    let holds = holds_mark(mark);
    if cols == 0 {
        assert(row.take(0).filter(holds).len() == 0) by {
            reveal(Seq::filter);
        }
    } else {
        lemma_row_marks(row, r, mark, cols - 1);
        let before = row_marks(row, r, mark, cols - 1);
        let here = row_marks(row, r, mark, cols);
        assert(row.take(cols) =~= row.take(cols - 1).push(row[cols - 1]));
        row.take(cols - 1).lemma_filter_push(row[cols - 1], holds);
        assert forall|c: int| 0 <= c < cols && row[c] == mark implies here.contains(
            #[trigger] cell_center(r, c),
        ) by {
            if c < cols - 1 {
                let k = choose|k: int| 0 <= k < before.len() && before[k] == cell_center(r, c);
                assert(here[k] == cell_center(r, c));
            } else {
                assert(here[here.len() - 1] == cell_center(r, c));
            }
        }
        assert forall|k: int| 0 <= k < here.len() implies marks_row_cell(
            row,
            r,
            mark,
            cols,
            #[trigger] here[k],
        ) by {
            if k < before.len() {
                assert(before[k] == here[k]);
                assert(marks_row_cell(row, r, mark, cols - 1, before[k]));
                let c = choose|c: int|
                    0 <= c < cols - 1 && row[c] == mark && before[k] == #[trigger] cell_center(r, c);
                assert(0 <= c < cols && row[c] == mark && here[k] == cell_center(r, c));
            } else {
                assert(row[cols - 1] == mark && here[k] == cell_center(r, cols - 1));
            }
        }
    }
}

/// The marks of a grid are the centres of its cells that hold the mark:
/// as many as there are such cells, one for each, and no other.
pub proof fn lemma_grid_marks(grid: Seq<Seq<char>>, mark: char, rows: int)
    requires
        0 <= rows <= grid.len(),
    ensures
        grid_marks(grid, mark, rows).len() == grid_count(grid, mark, rows),
        forall|r: int, c: int|
            0 <= r < rows && 0 <= c < grid[r].len() && grid[r][c] == mark ==> grid_marks(
                grid,
                mark,
                rows,
            ).contains(#[trigger] cell_center(r, c)),
        forall|k: int|
            0 <= k < grid_marks(grid, mark, rows).len() ==> marks_cell(
                grid,
                mark,
                rows,
                #[trigger] grid_marks(grid, mark, rows)[k],
            ),
    decreases rows,
{
    if rows > 0 {
        lemma_grid_marks(grid, mark, rows - 1);
        let row = grid[rows - 1];
        lemma_row_marks(row, rows - 1, mark, row.len() as int);
        assert(row.take(row.len() as int) =~= row);
        let before = grid_marks(grid, mark, rows - 1);
        let last = row_marks(row, rows - 1, mark, row.len() as int);
        let here = grid_marks(grid, mark, rows);
        assert(here == before + last);
        assert forall|r: int, c: int|
            0 <= r < rows && 0 <= c < grid[r].len() && grid[r][c] == mark implies here.contains(
            #[trigger] cell_center(r, c),
        ) by {
            if r < rows - 1 {
                let k = choose|k: int| 0 <= k < before.len() && before[k] == cell_center(r, c);
                assert(here[k] == cell_center(r, c));
            } else {
                let k = choose|k: int| 0 <= k < last.len() && last[k] == cell_center(r, c);
                assert(here[before.len() + k] == cell_center(r, c));
            }
        }
        assert forall|k: int| 0 <= k < here.len() implies marks_cell(
            grid,
            mark,
            rows,
            #[trigger] here[k],
        ) by {
            if k < before.len() {
                assert(before[k] == here[k]);
                assert(marks_cell(grid, mark, rows - 1, before[k]));
                let (r, c) = choose|r: int, c: int|
                    0 <= r < rows - 1 && 0 <= c < grid[r].len() && grid[r][c] == mark && before[k]
                        == #[trigger] cell_center(r, c);
                assert(0 <= r < rows && 0 <= c < grid[r].len() && grid[r][c] == mark && here[k]
                    == cell_center(r, c));
            } else {
                let j = k - before.len();
                assert(last[j] == here[k]);
                assert(marks_row_cell(row, rows - 1, mark, row.len() as int, last[j]));
                let c = choose|c: int|
                    0 <= c < row.len() && row[c] == mark && last[j] == #[trigger] cell_center(
                        rows - 1,
                        c,
                    );
                assert(0 <= c < grid[rows - 1].len() && grid[rows - 1][c] == mark && here[k]
                    == cell_center(rows - 1, c));
            }
        }
    }
}

/// A layout has one wall for each wall cell of its grid and one spawn point
/// for each spawn cell.
pub proof fn lemma_layout_counts(grid: Seq<Seq<char>>)
    ensures
        layout_of(grid).walls.len() == grid_count(grid, WALL_MARK, grid.len() as int),
        layout_of(grid).spawn_points.len() == grid_count(grid, SPAWN_MARK, grid.len() as int),
{
    lemma_grid_marks(grid, WALL_MARK, grid.len() as int);
    lemma_grid_marks(grid, SPAWN_MARK, grid.len() as int);
}

/// Computes the centre of a cell.
pub fn cell_position(r: usize, c: usize) -> (p: Vector)
    ensures
        p == cell_center(r as int, c as int),
{
    assert(0 <= c * TILE <= 0xffff_ffff_ffff_ffff * 40_000 && 0 <= r * TILE <= 0xffff_ffff_ffff_ffff
        * 40_000) by (nonlinear_arith)
        requires
            0 <= c <= 0xffff_ffff_ffff_ffff,
            0 <= r <= 0xffff_ffff_ffff_ffff,
            TILE == 40_000,
    ;
    let x: i128 = ORIGIN_X as i128 + c as i128 * TILE as i128;
    let y: i128 = ORIGIN_Y as i128 - r as i128 * TILE as i128;
    Vector { x: saturate(x), y: saturate(y) }
}

/// Finds the first row whose width differs from that of the first row.
pub fn check_widths(grid: &Vec<Vec<char>>) -> (r: Result<(), MazeError>)
    ensures
        r is Ok <==> rectangular(grid.deep_view()),
        r matches Err(MazeError::RaggedRow { row, width, expected }) ==> {
            &&& row < grid.len()
            &&& width == grid[row as int].len()
            &&& expected == grid[0].len()
            &&& width != expected
            &&& forall|j: int| 0 <= j < row ==> (#[trigger] grid[j]).len() == expected
        },
{
    if grid.len() == 0 {
        return Ok(());
    }
    let expected: usize = grid[0].len();
    let mut i: usize = 0;
    while i < grid.len()
        invariant
            i <= grid.len(),
            grid.len() > 0,
            expected == grid[0].len(),
            forall|j: int| 0 <= j < i ==> (#[trigger] grid[j]).len() == expected,
        decreases grid.len() - i,
    {
        if grid[i].len() != expected {
            assert(grid.deep_view()[i as int].len() != grid.deep_view()[0].len());
            return Err(MazeError::RaggedRow { row: i, width: grid[i].len(), expected });
        }
        i += 1;
    }
    assert forall|j: int| 0 <= j < grid.deep_view().len() implies (#[trigger] grid.deep_view()[j]).len()
        == grid.deep_view()[0].len() by {
        assert(grid[j].len() == expected);
    }
    Ok(())
}

/// Builds the maze that a character grid describes.
///
/// Every `#` cell becomes a wall of one tile at the cell's centre, every `S`
/// cell a spawn point, both in row-major order; the last `P` cell is the
/// player's start, and any other character is floor. A grid whose rows are
/// not all as wide as the first is rejected, naming the first such row.
pub fn build_maze(grid: &Vec<Vec<char>>) -> (r: Result<MazeLayout, MazeError>)
    ensures
        r matches Ok(layout) ==> rectangular(grid.deep_view()) && layout@ == layout_of(
            grid.deep_view(),
        ),
        r matches Err(MazeError::RaggedRow { row, width, expected }) ==> {
            &&& !rectangular(grid.deep_view())
            &&& row < grid.len()
            &&& width == grid[row as int].len()
            &&& expected == grid[0].len()
            &&& width != expected
            &&& forall|j: int| 0 <= j < row ==> (#[trigger] grid[j]).len() == expected
        },
{
    match check_widths(grid) {
        Err(e) => {
            return Err(e);
        },
        Ok(()) => {},
    }
    let ghost g = grid.deep_view();
    let mut walls: Vec<Wall> = Vec::new();
    let mut spawn_points: Vec<Vector> = Vec::new();
    let mut player_start = Vector { x: FALLBACK_START_X, y: FALLBACK_START_Y };
    let ghost mut wall_cells: Seq<Vector> = Seq::empty();
    let ghost mut starts: Seq<Vector> = Seq::empty();

    let mut r: usize = 0;
    while r < grid.len()
        invariant
            r <= grid.len(),
            g == grid.deep_view(),
            wall_cells == grid_marks(g, WALL_MARK, r as int),
            spawn_points@ == grid_marks(g, SPAWN_MARK, r as int),
            starts == grid_marks(g, START_MARK, r as int),
            player_start == start_among(starts),
            walls@.len() == wall_cells.len(),
            forall|i: int| 0 <= i < walls@.len() ==> walls@[i] == wall_at(wall_cells[i]),
        decreases grid.len() - r,
    {
        let line = &grid[r];
        let ghost row = g[r as int];
        let ghost walls_before = wall_cells;
        let ghost spawns_before = spawn_points@;
        let ghost starts_before = starts;
        assert(row == line@);
        let mut c: usize = 0;
        while c < line.len()
            invariant
                c <= line.len(),
                r < grid.len(),
                row == line@,
                wall_cells == walls_before + row_marks(row, r as int, WALL_MARK, c as int),
                spawn_points@ == spawns_before + row_marks(row, r as int, SPAWN_MARK, c as int),
                starts == starts_before + row_marks(row, r as int, START_MARK, c as int),
                player_start == start_among(starts),
                walls@.len() == wall_cells.len(),
                forall|i: int| 0 <= i < walls@.len() ==> walls@[i] == wall_at(wall_cells[i]),
            decreases line.len() - c,
        {
            let ch = line[c];
            let p = cell_position(r, c);
            if ch == WALL_MARK {
                walls.push(Wall { pos: p, size: Vector { x: TILE, y: TILE } });
                proof {
                    wall_cells = wall_cells.push(p);
                }
            } else if ch == SPAWN_MARK {
                spawn_points.push(p);
            } else if ch == START_MARK {
                player_start = p;
                proof {
                    starts = starts.push(p);
                }
            }
            c += 1;
        }
        r += 1;
    }
    let layout = MazeLayout { walls, spawn_points, player_start };
    assert(layout@.walls =~= layout_of(g).walls);
    Ok(layout)
}

/// The cells of one row of text.
pub fn row_from_text(text: &str) -> (row: Vec<char>)
    ensures
        row@ == text@,
{
    let n: usize = text.unicode_len();
    let mut row: Vec<char> = Vec::new();
    let mut i: usize = 0;
    while i < n
        invariant
            i <= n,
            n == text@.len(),
            row@ == text@.take(i as int),
        decreases n - i,
    {
        row.push(text.get_char(i));
        assert(row@ =~= text@.take(i + 1));
        i += 1;
    }
    assert(text@.take(n as int) =~= text@);
    row
}

/// The grid that rows of text spell out, one cell per character.
pub fn grid_from_text(rows: &[&str]) -> (grid: Vec<Vec<char>>)
    ensures
        grid.deep_view() == Seq::new(rows@.len(), |i: int| rows@[i]@),
{
    let mut grid: Vec<Vec<char>> = Vec::new();
    let mut i: usize = 0;
    while i < rows.len()
        invariant
            i <= rows.len(),
            grid@.len() == i,
            forall|j: int| 0 <= j < i ==> (#[trigger] grid@[j])@ == rows@[j]@,
        decreases rows.len() - i,
    {
        grid.push(row_from_text(rows[i]));
        i += 1;
    }
    assert forall|j: int| 0 <= j < grid@.len() implies #[trigger] grid.deep_view()[j] == rows@[j]@ by {
        assert(grid@[j].deep_view() =~= grid@[j]@);
    }
    assert(grid.deep_view() =~= Seq::new(rows@.len(), |i: int| rows@[i]@));
    grid
}

/// The standard maze: 15 rows of 20 cells, walled all around.
pub open spec fn standard_grid() -> Seq<Seq<char>> {
    seq![
        "####################"@,
        "#P             #  S#"@,
        "### #### ####### ###"@,
        "#   #   #     #   ##"@,
        "# ### # # ### ###  #"@,
        "# #   #   # #     S#"@,
        "#         # # ######"@,
        "# #     #   #     ##"@,
        "# ##### ###     #  #"@,
        "#     #     #   #  #"@,
        "### # ### # ### ####"@,
        "# S #   # #   #    #"@,
        "### ### # ### # ####"@,
        "#      S#     #   S#"@,
        "####################"@,
    ]
}

/// Every row of the standard maze is 20 cells wide.
pub proof fn lemma_standard_grid_rectangular()
    ensures
        rectangular(standard_grid()),
        standard_grid().len() == 15,
        forall|i: int| 0 <= i < 15 ==> (#[trigger] standard_grid()[i]).len() == 20,
{
    reveal_strlit("####################");
    reveal_strlit("#P             #  S#");
    reveal_strlit("### #### ####### ###");
    reveal_strlit("#   #   #     #   ##");
    reveal_strlit("# ### # # ### ###  #");
    reveal_strlit("# #   #   # #     S#");
    reveal_strlit("#         # # ######");
    reveal_strlit("# #     #   #     ##");
    reveal_strlit("# ##### ###     #  #");
    reveal_strlit("#     #     #   #  #");
    reveal_strlit("### # ### # ### ####");
    reveal_strlit("# S #   # #   #    #");
    reveal_strlit("### ### # ### # ####");
    reveal_strlit("#      S#     #   S#");
}

/// Builds the grid of the standard maze.
pub fn standard_maze() -> (grid: Vec<Vec<char>>)
    ensures
        grid.deep_view() == standard_grid(),
{
    let mut grid: Vec<Vec<char>> = Vec::new();
    grid.push(row_from_text("####################"));
    grid.push(row_from_text("#P             #  S#"));
    grid.push(row_from_text("### #### ####### ###"));
    grid.push(row_from_text("#   #   #     #   ##"));
    grid.push(row_from_text("# ### # # ### ###  #"));
    grid.push(row_from_text("# #   #   # #     S#"));
    grid.push(row_from_text("#         # # ######"));
    grid.push(row_from_text("# #     #   #     ##"));
    grid.push(row_from_text("# ##### ###     #  #"));
    grid.push(row_from_text("#     #     #   #  #"));
    grid.push(row_from_text("### # ### # ### ####"));
    grid.push(row_from_text("# S #   # #   #    #"));
    grid.push(row_from_text("### ### # ### # ####"));
    grid.push(row_from_text("#      S#     #   S#"));
    grid.push(row_from_text("####################"));
    assert forall|j: int| 0 <= j < grid@.len() implies #[trigger] grid.deep_view()[j]
        == standard_grid()[j] by {
        assert(grid@[j].deep_view() =~= grid@[j]@);
    }
    assert(grid.deep_view() =~= standard_grid());
    grid
}

/// Builds the layout of the standard maze, which cannot fail.
pub fn standard_layout() -> (layout: MazeLayout)
    ensures
        layout@ == layout_of(standard_grid()),
{
    let grid = standard_maze();
    proof {
        lemma_standard_grid_rectangular();
    }
    match build_maze(&grid) {
        Ok(layout) => layout,
        Err(_) => MazeLayout {
            walls: Vec::new(),
            spawn_points: Vec::new(),
            player_start: Vector { x: FALLBACK_START_X, y: FALLBACK_START_Y },
        },
    }
}

} // verus!
