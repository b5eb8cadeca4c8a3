use raycaster::maze::{can_move_to_cell, find_goal_cell, first_goal_column, RenderMode};

fn grid(rows: &[&str]) -> Vec<Vec<char>> {
    rows.iter().map(|r| r.chars().collect()).collect()
}

#[test]
fn open_cell_is_walkable() {
    let maze = grid(&["+-+", "| |", "+-+"]);
    assert!(can_move_to_cell(&maze, 1, 1));
}

#[test]
fn wall_and_goal_cells_are_not_walkable() {
    let maze = grid(&["+-+", "|g|", "+-+"]);
    assert!(!can_move_to_cell(&maze, 0, 0));
    assert!(!can_move_to_cell(&maze, 1, 0));
    assert!(!can_move_to_cell(&maze, 1, 1));
}

#[test]
fn cells_outside_the_maze_are_not_walkable() {
    let maze = grid(&["   ", "   "]);
    assert!(!can_move_to_cell(&maze, 2, 0));
    assert!(!can_move_to_cell(&maze, 0, 3));
    assert!(!can_move_to_cell(&[], 0, 0));
}

#[test]
fn width_is_taken_from_the_first_row() {
    let maze = grid(&[" ", "   "]);
    assert!(can_move_to_cell(&maze, 1, 0));
    assert!(!can_move_to_cell(&maze, 1, 1));
}

#[test]
fn no_goal_in_the_maze() {
    assert_eq!(find_goal_cell(&grid(&["+-+", "| |"])), None);
    assert_eq!(find_goal_cell(&[]), None);
}

#[test]
fn goal_is_found() {
    assert_eq!(find_goal_cell(&grid(&["+-+", "| g|", "+-+"])), Some((1, 2)));
}

#[test]
fn goal_of_the_last_row_that_has_one_wins() {
    assert_eq!(find_goal_cell(&grid(&["g  ", "   ", " g ", "   "])), Some((2, 1)));
}

#[test]
fn first_goal_of_a_row_wins() {
    assert_eq!(find_goal_cell(&grid(&[" g g"])), Some((0, 1)));
    assert_eq!(first_goal_column(&" g g".chars().collect()), Some(1));
    assert_eq!(first_goal_column(&"   ".chars().collect()), None);
}

#[test]
fn render_mode_switches_back_and_forth() {
    assert_eq!(RenderMode::ThreeD.toggled(), RenderMode::TwoD);
    assert_eq!(RenderMode::TwoD.toggled(), RenderMode::ThreeD);
    assert_eq!(RenderMode::ThreeD.toggled().toggled(), RenderMode::ThreeD);
}
