use gridworld::cell::GridCell;
use gridworld::direction::Direction;
use gridworld::grid::GridGame;

fn play(moves: &[Direction]) -> GridGame {
    let mut g = GridGame::new();
    for d in moves {
        g.act(*d);
    }
    g
}

#[test]
fn new_game_starts_bottom_left() {
    let g = GridGame::new();
    assert_eq!(g.player_pos, (0, 2));
    assert!(!g.check_goal());
}

#[test]
fn render_start_layout() {
    let g = GridGame::new();
    assert_eq!(g.render(), "...G\n..#.\n@..T\n");
}

#[test]
fn render_after_moves() {
    let g = play(&[Direction::Up, Direction::Right]);
    assert_eq!(g.render(), "...G\n.@#.\n...T\n");
}

#[test]
fn moves_against_edges_stay_put() {
    let mut g = GridGame::new();
    g.act(Direction::Left);
    assert_eq!(g.player_pos, (0, 2));
    g.act(Direction::Down);
    assert_eq!(g.player_pos, (0, 2));
    let mut g = play(&[Direction::Up, Direction::Up]);
    assert_eq!(g.player_pos, (0, 0));
    g.act(Direction::Up);
    assert_eq!(g.player_pos, (0, 0));
    let mut g = play(&[Direction::Right, Direction::Right, Direction::Right]);
    assert_eq!(g.player_pos, (3, 2));
    g.act(Direction::Right);
    assert_eq!(g.player_pos, (3, 2));
    g.act(Direction::Down);
    assert_eq!(g.player_pos, (3, 2));
}

#[test]
fn wall_blocks_entry() {
    let mut g = play(&[Direction::Up, Direction::Right]);
    assert_eq!(g.player_pos, (1, 1));
    g.act(Direction::Right);
    assert_eq!(g.player_pos, (1, 1));
    let mut g = play(&[Direction::Right, Direction::Right]);
    assert_eq!(g.player_pos, (2, 2));
    g.act(Direction::Up);
    assert_eq!(g.player_pos, (2, 2));
    let mut g = play(&[Direction::Right, Direction::Right, Direction::Right, Direction::Up]);
    assert_eq!(g.player_pos, (3, 1));
    g.act(Direction::Left);
    assert_eq!(g.player_pos, (3, 1));
}

#[test]
fn reward_on_each_kind_of_cell() {
    let g = GridGame::new();
    assert_eq!(g.reward(), -1);
    let g = play(&[Direction::Right, Direction::Right, Direction::Right]);
    assert_eq!(g.reward(), -1001);
    let g = play(&[
        Direction::Up,
        Direction::Up,
        Direction::Right,
        Direction::Right,
        Direction::Right,
    ]);
    assert_eq!(g.reward(), 999);
}

#[test]
fn reward_in_points() {
    let g = play(&[Direction::Up, Direction::Up, Direction::Right, Direction::Right, Direction::Right]);
    let r = g.reward() as f32 / 1000.0;
    assert!((r - (1.0 - 0.001)).abs() < 1e-6);
}

#[test]
fn trap_is_not_terminal() {
    let mut g = play(&[Direction::Right, Direction::Right, Direction::Right]);
    assert!(!g.check_goal());
    g.act(Direction::Up);
    assert_eq!(g.player_pos, (3, 1));
}

#[test]
fn path_reaches_goal_within_budget() {
    let path = [
        Direction::Up,
        Direction::Up,
        Direction::Right,
        Direction::Right,
        Direction::Right,
    ];
    let mut g = GridGame::new();
    let mut steps = 0;
    for d in path.iter().cycle().take(100) {
        g.act(*d);
        steps += 1;
        if g.check_goal() {
            break;
        }
    }
    assert!(g.check_goal());
    assert_eq!(steps, 5);
    assert_eq!(g.player_pos, (3, 0));
}

#[test]
fn cell_scores() {
    assert_eq!(GridCell::Empty.score(), 0);
    assert_eq!(GridCell::Wall.score(), 0);
    assert_eq!(GridCell::Goal.score(), 1);
    assert_eq!(GridCell::Trap.score(), -1);
    assert_eq!(GridCell::default(), GridCell::Empty);
}

#[test]
fn reward_and_render_on_the_wall_square() {
    let mut g = GridGame::new();
    g.player_pos = (2, 1);
    assert_eq!(g.reward(), -1);
    assert!(!g.check_goal());
    assert_eq!(g.render(), "...G\n..@.\n...T\n");
}
