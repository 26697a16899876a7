use tank_arena::geometry::Vector;
use tank_arena::maze::{
    build_maze, cell_position, check_widths, grid_from_text, row_from_text, standard_layout,
    standard_maze, MazeError, Wall,
};

fn tile_wall(x: i32, y: i32) -> Wall {
    Wall { pos: Vector { x, y }, size: Vector { x: 40_000, y: 40_000 } }
}

#[test]
fn single_row_yields_two_walls_a_start_and_a_spawn() {
    let grid = grid_from_text(&["#P  S#"]);
    assert_eq!(grid[0].len(), 6);
    let layout = build_maze(&grid).unwrap();
    assert_eq!(layout.walls, vec![tile_wall(-380_000, 280_000), tile_wall(-180_000, 280_000)]);
    assert_eq!(layout.player_start, Vector { x: -340_000, y: 280_000 });
    assert_eq!(layout.spawn_points, vec![Vector { x: -220_000, y: 280_000 }]);
}

#[test]
fn single_row_markers_sit_at_their_columns() {
    let grid = grid_from_text(&["#P  S#"]);
    let layout = build_maze(&grid).unwrap();
    assert_eq!(layout.walls[0].pos, cell_position(0, 0));
    assert_eq!(layout.walls[1].pos, cell_position(0, 5));
    assert_eq!(layout.player_start, cell_position(0, 1));
    assert_eq!(layout.spawn_points[0], cell_position(0, 4));
}

#[test]
fn cell_position_maps_columns_right_and_rows_down() {
    assert_eq!(cell_position(0, 0), Vector { x: -380_000, y: 280_000 });
    assert_eq!(cell_position(0, 19), Vector { x: 380_000, y: 280_000 });
    assert_eq!(cell_position(14, 0), Vector { x: -380_000, y: -280_000 });
    assert_eq!(cell_position(7, 9), Vector { x: -20_000, y: 0 });
}

#[test]
fn cell_position_saturates_far_away() {
    assert_eq!(cell_position(0, usize::MAX), Vector { x: i32::MAX, y: 280_000 });
    assert_eq!(cell_position(usize::MAX, 0), Vector { x: -380_000, y: i32::MIN });
}

#[test]
fn standard_maze_is_twenty_by_fifteen() {
    let grid = standard_maze();
    assert_eq!(grid.len(), 15);
    for row in grid.iter() {
        assert_eq!(row.len(), 20);
    }
    assert_eq!(check_widths(&grid), Ok(()));
}

#[test]
fn standard_maze_has_its_walls_spawns_and_start() {
    let layout = build_maze(&standard_maze()).unwrap();
    assert_eq!(layout.walls.len(), 156);
    assert_eq!(
        layout.spawn_points,
        vec![
            Vector { x: 340_000, y: 240_000 },
            Vector { x: 340_000, y: 80_000 },
            Vector { x: -300_000, y: -160_000 },
            Vector { x: -100_000, y: -240_000 },
            Vector { x: 340_000, y: -240_000 },
        ]
    );
    assert_eq!(layout.player_start, Vector { x: -340_000, y: 240_000 });
}

#[test]
fn standard_maze_walls_come_in_row_major_order() {
    let layout = build_maze(&standard_maze()).unwrap();
    assert_eq!(layout.walls[0], tile_wall(-380_000, 280_000));
    assert_eq!(layout.walls[1], tile_wall(-340_000, 280_000));
    assert_eq!(layout.walls[19], tile_wall(380_000, 280_000));
    assert_eq!(layout.walls[20], tile_wall(-380_000, 240_000));
    assert_eq!(layout.walls[21], tile_wall(220_000, 240_000));
    assert_eq!(layout.walls[22], tile_wall(380_000, 240_000));
    assert_eq!(layout.walls[155], tile_wall(380_000, -280_000));
}

#[test]
fn wall_count_equals_the_number_of_wall_cells() {
    let grid = standard_maze();
    let mut cells: usize = 0;
    for row in grid.iter() {
        for ch in row.iter() {
            if *ch == '#' {
                cells += 1;
            }
        }
    }
    let layout = build_maze(&grid).unwrap();
    assert_eq!(layout.walls.len(), cells);
}

#[test]
fn standard_layout_is_the_built_standard_maze() {
    assert_eq!(standard_layout(), build_maze(&standard_maze()).unwrap());
}

#[test]
fn ragged_grid_is_rejected() {
    let grid = grid_from_text(&["###", "##", "#"]);
    assert_eq!(build_maze(&grid), Err(MazeError::RaggedRow { row: 1, width: 2, expected: 3 }));
    assert_eq!(check_widths(&grid), Err(MazeError::RaggedRow { row: 1, width: 2, expected: 3 }));
}

#[test]
fn the_first_ragged_row_is_named() {
    let grid = grid_from_text(&["##", "##", "#", "###"]);
    assert_eq!(build_maze(&grid), Err(MazeError::RaggedRow { row: 2, width: 1, expected: 2 }));
}

#[test]
fn a_longer_row_is_ragged_too() {
    let grid = grid_from_text(&["#", "##"]);
    assert_eq!(build_maze(&grid), Err(MazeError::RaggedRow { row: 1, width: 2, expected: 1 }));
}

#[test]
fn the_last_start_cell_wins() {
    let layout = build_maze(&grid_from_text(&["P P", "  P"])).unwrap();
    assert_eq!(layout.player_start, cell_position(1, 2));
    let layout = build_maze(&grid_from_text(&["P P", "   "])).unwrap();
    assert_eq!(layout.player_start, cell_position(0, 2));
}

#[test]
fn a_maze_without_start_falls_back() {
    let layout = build_maze(&grid_from_text(&["# #"])).unwrap();
    assert_eq!(layout.player_start, Vector { x: 0, y: -210_000 });
}

#[test]
fn an_empty_grid_builds_an_empty_layout() {
    let grid: Vec<Vec<char>> = Vec::new();
    let layout = build_maze(&grid).unwrap();
    assert!(layout.walls.is_empty());
    assert!(layout.spawn_points.is_empty());
    assert_eq!(layout.player_start, Vector { x: 0, y: -210_000 });
    let layout = build_maze(&grid_from_text(&["", ""])).unwrap();
    assert!(layout.walls.is_empty());
}

#[test]
fn other_characters_are_floor() {
    let layout = build_maze(&grid_from_text(&["#x.Ss p"])).unwrap();
    assert_eq!(layout.walls, vec![tile_wall(-380_000, 280_000)]);
    assert_eq!(layout.spawn_points, vec![cell_position(0, 3)]);
    assert_eq!(layout.player_start, Vector { x: 0, y: -210_000 });
}

#[test]
fn spawn_points_come_in_row_major_order() {
    let layout = build_maze(&grid_from_text(&[" S S", "S   ", "  S "])).unwrap();
    assert_eq!(
        layout.spawn_points,
        vec![cell_position(0, 1), cell_position(0, 3), cell_position(1, 0), cell_position(2, 2)]
    );
}

#[test]
fn building_twice_gives_the_same_layout() {
    let grid = standard_maze();
    assert_eq!(build_maze(&grid), build_maze(&grid));
    assert_eq!(build_maze(&standard_maze()), build_maze(&grid));
}

#[test]
fn text_rows_split_into_characters() {
    assert_eq!(row_from_text("#P S"), vec!['#', 'P', ' ', 'S']);
    assert_eq!(row_from_text(""), Vec::<char>::new());
    assert_eq!(grid_from_text(&["ab", "c"]), vec![vec!['a', 'b'], vec!['c']]);
}
