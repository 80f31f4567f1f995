use vstd::prelude::*;
use vstd::string::*;
use crate::board::{Board, board_rows};
use crate::cell::{GridCell, score_of};
use crate::direction::Direction;

verus! {

/// Number of columns of the board.
pub const WIDTH: usize = 4;

/// Number of rows of the board.
pub const HEIGHT: usize = 3;

/// Fixed penalty, in thousandths of a point, charged on every step.
pub const STEP_PENALTY_MILLI: i32 = 1;

/// The fixed layout, addressed by column `x` and row `y`: a wall at (2, 1),
/// the goal at (3, 0), the trap at (3, 2), empty cells elsewhere.
pub open spec fn layout_cell(x: int, y: int) -> GridCell {
    if x == 2 && y == 1 {
        GridCell::Wall
    } else if x == 3 && y == 2 {
        GridCell::Trap
    } else if x == 3 && y == 0 {
        GridCell::Goal
    } else {
        GridCell::Empty
    }
}

/// The layout as rows of cells.
pub open spec fn layout_rows() -> Seq<Seq<GridCell>> {
    Seq::new(HEIGHT as nat, |y: int| Seq::new(WIDTH as nat, |x: int| layout_cell(x, y)))
}

/// Whether `p` = (x, y) lies on the board.
pub open spec fn in_bounds(p: (usize, usize)) -> bool {
    p.0 < WIDTH && p.1 < HEIGHT
}

/// Whether a move in `d` from `p` would leave the board.
pub open spec fn at_edge(p: (usize, usize), d: Direction) -> bool {
    match d {
        Direction::Left => p.0 == 0,
        Direction::Right => p.0 + 1 >= WIDTH,
        Direction::Up => p.1 == 0,
        Direction::Down => p.1 + 1 >= HEIGHT,
    }
}

/// The square one step from `p` in `d`, or `p` itself where that step would
/// leave the board.
pub open spec fn clamped_step(p: (usize, usize), d: Direction) -> (usize, usize) {
    if at_edge(p, d) {
        p
    } else {
        match d {
            Direction::Left => ((p.0 - 1) as usize, p.1),
            Direction::Right => ((p.0 + 1) as usize, p.1),
            Direction::Up => (p.0, (p.1 - 1) as usize),
            Direction::Down => (p.0, (p.1 + 1) as usize),
        }
    }
}

/// Where a move in `d` from `p` ends on the fixed layout: the clamped step,
/// unless it enters the wall, in which case the agent stays at `p`.
pub open spec fn next_position(p: (usize, usize), d: Direction) -> (usize, usize) {
    let q = clamped_step(p, d);
    if layout_cell(q.0 as int, q.1 as int) == GridCell::Wall {
        p
    } else {
        q
    }
}

/// Where the moves `ds`, made one after another from `p`, end.
pub open spec fn walk(p: (usize, usize), ds: Seq<Direction>) -> (usize, usize)
    decreases ds.len(),
{
    if ds.len() == 0 {
        p
    } else {
        walk(next_position(p, ds[0]), ds.drop_first())
    }
}

/// The goal can be reached from the start: Up, Up, Right, Right, Right lead
/// from (0, 2) to the goal at (3, 0), around the wall.
pub proof fn lemma_goal_reachable()
    ensures
        ({
            let p = walk(
                (0usize, 2usize),
                seq![
                    Direction::Up,
                    Direction::Up,
                    Direction::Right,
                    Direction::Right,
                    Direction::Right,
                ],
            );
            &&& p == (3usize, 0usize)
            &&& layout_cell(p.0 as int, p.1 as int) == GridCell::Goal
        }),
{
    let ds = seq![
        Direction::Up,
        Direction::Up,
        Direction::Right,
        Direction::Right,
        Direction::Right,
    ];
    assert(ds.drop_first() =~= seq![
        Direction::Up,
        Direction::Right,
        Direction::Right,
        Direction::Right,
    ]);
    assert(ds.drop_first().drop_first() =~= seq![
        Direction::Right,
        Direction::Right,
        Direction::Right,
    ]);
    assert(ds.drop_first().drop_first().drop_first() =~= seq![Direction::Right, Direction::Right]);
    assert(ds.drop_first().drop_first().drop_first().drop_first() =~= seq![Direction::Right]);
    assert(ds.drop_first().drop_first().drop_first().drop_first().drop_first() =~= Seq::<
        Direction,
    >::empty());
    reveal_with_fuel(walk, 6);
}

/// The character drawn for column `x` of row `y` when the agent stands at `p`.
pub open spec fn glyph(p: (usize, usize), x: int, y: int) -> char {
    if x == p.0 && y == p.1 {
        '@'
    } else {
        match layout_cell(x, y) {
            GridCell::Empty => '.',
            GridCell::Wall => '#',
            GridCell::Goal => 'G',
            GridCell::Trap => 'T',
        }
    }
}

/// The first `n` cells of row `y` as drawn.
pub open spec fn drawn_cells(p: (usize, usize), y: int, n: int) -> Seq<char>
    decreases n,
{
    if n <= 0 {
        Seq::empty()
    } else {
        drawn_cells(p, y, n - 1).push(glyph(p, n - 1, y))
    }
}

/// The first `n` rows as drawn, each ended by a newline.
pub open spec fn drawn_rows(p: (usize, usize), n: int) -> Seq<char>
    decreases n,
{
    if n <= 0 {
        Seq::empty()
    } else {
        drawn_rows(p, n - 1) + drawn_cells(p, n - 1, WIDTH as int).push('\n')
    }
}

/// The environment: the fixed board and the agent's position (x, y).
pub struct GridGame {
    pub player_pos: (usize, usize),
    pub board: Board,
}

impl GridGame {
    /// The board holds the fixed layout and the agent stands on it.
    pub open spec fn on_board(&self) -> bool {
        &&& board_rows(self.board) == layout_rows()
        &&& in_bounds(self.player_pos)
    }

    /// The agent stands on the board, on a square that is not the wall.
    pub open spec fn wf(&self) -> bool {
        &&& self.on_board()
        &&& layout_cell(self.player_pos.0 as int, self.player_pos.1 as int) != GridCell::Wall
    }

    /// The cell under the agent.
    pub open spec fn current_cell(&self) -> GridCell {
        layout_cell(self.player_pos.0 as int, self.player_pos.1 as int)
    }

    /// The fixed layout with the agent at (0, 2).
    pub fn new() -> (g: GridGame)
        ensures
            g.wf(),
            g.player_pos == (0usize, 2usize),
    {
        let mut board = Board::filled(HEIGHT, WIDTH, GridCell::Empty);
        board.set(1, 2, GridCell::Wall);
        board.set(2, 3, GridCell::Trap);
        board.set(0, 3, GridCell::Goal);
        assert(board_rows(board) =~~= layout_rows());
        GridGame { player_pos: (0, 2), board }
    }

    fn cell_at(&self, x: usize, y: usize) -> (c: GridCell)
        requires
            self.on_board(),
            x < WIDTH,
            y < HEIGHT,
        ensures
            c == layout_cell(x as int, y as int),
    {
        self.board.get(y, x)
    }

    /// Moves the agent one square in `direction`. A move off the board is a
    /// no-op along that axis; a move into the wall leaves the agent where it
    /// was.
    pub fn act(&mut self, direction: Direction)
        requires
            old(self).wf(),
        ensures
            final(self).wf(),
            final(self).board == old(self).board,
            final(self).player_pos == next_position(old(self).player_pos, direction),
            at_edge(old(self).player_pos, direction) ==> final(self).player_pos == old(
                self,
            ).player_pos,
            ({
                let q = clamped_step(old(self).player_pos, direction);
                layout_cell(q.0 as int, q.1 as int) == GridCell::Wall ==> final(self).player_pos
                    == old(self).player_pos
            }),
    {
        let p = self.player_pos;
        match direction {
            Direction::Left => {
                if self.player_pos.0 > 0 {
                    self.player_pos.0 = self.player_pos.0 - 1;
                }
            },
            Direction::Right => {
                if self.player_pos.0 + 1 < WIDTH {
                    self.player_pos.0 = self.player_pos.0 + 1;
                }
            },
            Direction::Up => {
                if self.player_pos.1 > 0 {
                    self.player_pos.1 = self.player_pos.1 - 1;
                }
            },
            Direction::Down => {
                if self.player_pos.1 + 1 < HEIGHT {
                    self.player_pos.1 = self.player_pos.1 + 1;
                }
            },
        }
        if self.board.get(self.player_pos.1, self.player_pos.0) == GridCell::Wall {
            self.player_pos = p;
        }
    }

    /// The reward for standing where the agent is, in thousandths of a point:
    /// the cell's score less the step penalty.
    pub fn reward(&self) -> (r: i32)
        requires
            self.on_board(),
        ensures
            r == 1000 * score_of(self.current_cell()) - STEP_PENALTY_MILLI,
            self.current_cell() == GridCell::Goal ==> r == 999,
            self.current_cell() == GridCell::Trap ==> r == -1001,
            (self.current_cell() == GridCell::Empty || self.current_cell() == GridCell::Wall)
                ==> r == -1,
    {
        let c = self.cell_at(self.player_pos.0, self.player_pos.1);
        1000 * c.score() - STEP_PENALTY_MILLI
    }

    /// Whether the agent stands on the goal.
    pub fn check_goal(&self) -> (r: bool)
        requires
            self.on_board(),
        ensures
            r == (self.current_cell() == GridCell::Goal),
    {
        self.cell_at(self.player_pos.0, self.player_pos.1) == GridCell::Goal
    }

    /// The board as text: one character per cell (`@` the agent, `#` the
    /// wall, `G` the goal, `T` the trap, `.` empty), one line per row.
    pub fn render(&self) -> (s: String)
        requires
            self.on_board(),
        ensures
            s@ == drawn_rows(self.player_pos, HEIGHT as int),
    {
        let mut s = String::from_str("");
        proof {
            reveal_strlit("");
        }
        let mut y: usize = 0;
        while y < HEIGHT
            invariant
                y <= HEIGHT,
                self.on_board(),
                s@ == drawn_rows(self.player_pos, y as int),
            decreases HEIGHT - y,
        {
            let ghost before = s@;
            let mut x: usize = 0;
            while x < WIDTH
                invariant
                    x <= WIDTH,
                    y < HEIGHT,
                    self.on_board(),
                    s@ == before + drawn_cells(self.player_pos, y as int, x as int),
                decreases WIDTH - x,
            {
                if x == self.player_pos.0 && y == self.player_pos.1 {
                    s.append("@");
                    proof {
                        reveal_strlit("@");
                    }
                } else {
                    match self.cell_at(x, y) {
                        GridCell::Empty => {
                            s.append(".");
                            proof {
                                reveal_strlit(".");
                            }
                        },
                        GridCell::Wall => {
                            s.append("#");
                            proof {
                                reveal_strlit("#");
                            }
                        },
                        GridCell::Goal => {
                            s.append("G");
                            proof {
                                reveal_strlit("G");
                            }
                        },
                        GridCell::Trap => {
                            s.append("T");
                            proof {
                                reveal_strlit("T");
                            }
                        },
                    }
                }
                assert(s@ =~= before + drawn_cells(self.player_pos, y as int, x + 1));
                x = x + 1;
            }
            s.append("\n");
            proof {
                reveal_strlit("\n");
            }
            assert(s@ =~= drawn_rows(self.player_pos, y + 1));
            y = y + 1;
        }
        s
    }
}

} // verus!
