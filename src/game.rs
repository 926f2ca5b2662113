use vstd::prelude::*;
use crate::cell::{Cell, CellType};
use crate::chance::random_below;
use crate::heading::{turned, Direction};
use crate::grid::{
    empties_below, lemma_area, lemma_cell_coords, lemma_index, lemma_index_unique, shaped,
};
use crate::render::{cleared, dirty_of};

verus! {

/// The narrowest playable grid.
pub const MIN_WIDTH: u16 = 60;

/// The lowest playable grid.
pub const MIN_HEIGHT: u16 = 20;

/// Milliseconds between two ticks.
pub const TICK_MILLIS: u64 = 80;

/// Why a game could not be set up.
#[derive(PartialEq, Eq, Structural, Clone, Copy, Debug)]
pub enum InitError {
    /// The size of the window could not be learned.
    SizeUnavailable,
    /// The window is narrower or lower than the playable minimum.
    TooSmall,
}

/// Why a session ended.
#[derive(PartialEq, Eq, Structural, Clone, Copy, Debug)]
pub enum GameOver {
    HitWall,
    SelfCollision,
    NoSpace,
}

/// What a tick did when the session goes on.
#[derive(PartialEq, Eq, Structural, Clone, Copy, Debug)]
pub enum TickOutcome {
    /// The snake advanced onto an empty cell.
    Moved,
    /// The snake ate; new food stands at the given column and row.
    Ate(usize, usize),
    /// Nothing moved.
    Stalled,
}

struct Snack {
    direction: Direction,
    head: (usize, usize),
    /// From the neck to the tail.
    bodys: Vec<(usize, usize)>,
}

/// The whole state of a session: the grid, held column by column, the
/// snake, the score and the tick interval.
pub struct Game {
    cells: Vec<Cell>,
    width: usize,
    height: usize,
    snack: Snack,
    score: usize,
    speed: u64,
}

/// The snake's segments behind the head at the start.
pub open spec fn initial_body() -> Seq<(usize, usize)> {
    seq![(8usize, 7usize), (8, 8), (7, 8), (7, 9), (7, 10), (8, 10), (8, 11)]
}

/// Whether `(x, y)` is one of the starting body segments.
pub open spec fn in_initial_body(x: int, y: int) -> bool {
    (x == 8 && y == 7) || (x == 8 && y == 8) || (x == 7 && y == 8) || (x == 7 && y == 9) || (x
        == 7 && y == 10) || (x == 8 && y == 10) || (x == 8 && y == 11)
}

/// Whether `(x, y)` lies on the outer ring of a `w` by `h` grid.
pub open spec fn on_border(w: int, h: int, x: int, y: int) -> bool {
    x == 0 || y == 0 || x == w - 1 || y == h - 1
}

/// What a cell holds when a game starts.
pub open spec fn initial_type(w: int, h: int, x: int, y: int) -> CellType {
    if on_border(w, h, x, y) {
        CellType::Wall
    } else if x == 9 && y == 7 {
        CellType::SnackHead
    } else if in_initial_body(x, y) {
        CellType::SnackBody
    } else {
        CellType::Empty
    }
}

/// One step from `p` towards `d`.
pub open spec fn step(p: (usize, usize), d: Direction) -> (int, int) {
    match d {
        Direction::Left => (p.0 - 1, p.1 as int),
        Direction::Right => (p.0 + 1, p.1 as int),
        Direction::Up => (p.0 as int, p.1 - 1),
        Direction::Down => (p.0 as int, p.1 + 1),
    }
}

/// The heading after a tick's input is applied.
pub open spec fn heading_after(d: Direction, input: Option<Direction>) -> Direction {
    match input {
        Some(r) => turned(d, r),
        None => d,
    }
}

impl Game {
    /// The number of columns.
    pub closed spec fn w(self) -> int {
        self.width as int
    }

    /// The number of rows.
    pub closed spec fn h(self) -> int {
        self.height as int
    }

    /// All cells, column by column.
    pub closed spec fn cells_view(self) -> Seq<Cell> {
        self.cells@
    }

    pub open spec fn in_bounds(self, x: int, y: int) -> bool {
        0 <= x < self.w() && 0 <= y < self.h()
    }

    pub open spec fn interior(self, x: int, y: int) -> bool {
        0 < x < self.w() - 1 && 0 < y < self.h() - 1
    }

    /// The cell at column `x`, row `y`.
    pub open spec fn cell(self, x: int, y: int) -> Cell {
        self.cells_view()[x * self.h() + y]
    }

    /// What the cell at column `x`, row `y` holds.
    pub open spec fn ty(self, x: int, y: int) -> CellType {
        self.cell(x, y).cell_type
    }

    pub open spec fn at(self, p: (usize, usize)) -> CellType {
        self.ty(p.0 as int, p.1 as int)
    }

    pub closed spec fn heading(self) -> Direction {
        self.snack.direction
    }

    pub closed spec fn head_pos(self) -> (usize, usize) {
        self.snack.head
    }

    pub closed spec fn body_seq(self) -> Seq<(usize, usize)> {
        self.snack.bodys@
    }

    pub closed spec fn score_value(self) -> int {
        self.score as int
    }

    pub closed spec fn speed_value(self) -> u64 {
        self.speed
    }

    /// Whether some cell of the grid is empty.
    pub open spec fn has_empty(self) -> bool {
        exists|x: int, y: int| self.in_bounds(x, y) && #[trigger] self.ty(x, y) == CellType::Empty
    }

    /// The state's invariant: the grid is laid out column by column inside a
    /// wall ring, the head cell is the one snake-head cell, the body cells are
    /// exactly the snake-body cells, and the body is at least as long as the
    /// score.
    pub closed spec fn wf(self) -> bool {
        &&& MIN_WIDTH <= self.width <= 65535
        &&& MIN_HEIGHT <= self.height <= 65535
        &&& shaped(self.cells@, self.w(), self.h())
        &&& forall|x: int, y: int|
            self.in_bounds(x, y) && on_border(self.w(), self.h(), x, y) ==> #[trigger] self.ty(x, y)
                == CellType::Wall
        &&& self.in_bounds(self.snack.head.0 as int, self.snack.head.1 as int)
        &&& self.at(self.snack.head) == CellType::SnackHead
        &&& forall|x: int, y: int|
            self.in_bounds(x, y) && #[trigger] self.ty(x, y) == CellType::SnackHead ==> x
                == self.snack.head.0 && y == self.snack.head.1
        &&& forall|x: int, y: int|
            self.in_bounds(x, y) ==> (#[trigger] self.ty(x, y) == CellType::SnackBody
                <==> self.snack.bodys@.contains((x as usize, y as usize)))
        &&& forall|i: int|
            0 <= i < self.snack.bodys@.len() ==> self.in_bounds(
                (#[trigger] self.snack.bodys@[i]).0 as int,
                self.snack.bodys@[i].1 as int,
            )
        &&& self.snack.bodys@.no_duplicates()
        &&& self.score <= self.snack.bodys@.len()
        &&& self.speed == TICK_MILLIS
    }

    /// Retypes the cell at `(x, y)` and marks it for redraw.
    fn set_type_at(&mut self, x: usize, y: usize, t: CellType)
        requires
            shaped(old(self).cells@, old(self).w(), old(self).h()),
            old(self).width <= 65535,
            old(self).height <= 65535,
            x < old(self).width,
            y < old(self).height,
        ensures
            final(self).cells@ == old(self).cells@.update(
                x * old(self).height + y,
                Cell { changed_flag: true, cell_type: t, ..old(self).cells@[x * old(self).height + y] },
            ),
            shaped(final(self).cells@, final(self).w(), final(self).h()),
            final(self).width == old(self).width,
            final(self).height == old(self).height,
            final(self).snack == old(self).snack,
            final(self).score == old(self).score,
            final(self).speed == old(self).speed,
            forall|a: int, b: int|
                old(self).in_bounds(a, b) ==> #[trigger] final(self).cell(a, b) == if a == x && b
                    == y {
                    Cell { changed_flag: true, cell_type: t, ..old(self).cell(a, b) }
                } else {
                    old(self).cell(a, b)
                },
    {
        proof {
            lemma_index(self.w(), self.h(), x as int, y as int);
            lemma_area(self.w(), self.h());
        }
        let i = x * self.height + y;
        let mut c = self.cells[i];
        c.set_type(t);
        self.cells.set(i, c);
        proof {
            assert forall|a: int, b: int| old(self).in_bounds(a, b) implies #[trigger] self.cell(
                a,
                b,
            ) == if a == x && b == y {
                Cell { changed_flag: true, cell_type: t, ..old(self).cell(a, b) }
            } else {
                old(self).cell(a, b)
            } by {
                lemma_index(self.w(), self.h(), a, b);
                if a * self.h() + b == i {
                    lemma_index_unique(self.h(), a, b, x as int, y as int);
                }
            }
        }
    }
}


fn initial_cell_type(w: usize, h: usize, x: usize, y: usize) -> (r: CellType)
    requires
        x < w,
        y < h,
    ensures
        r == initial_type(w as int, h as int, x as int, y as int),
{
    if x == 0 || y == 0 || x == w - 1 || y == h - 1 {
        CellType::Wall
    } else if x == 9 && y == 7 {
        CellType::SnackHead
    } else if (x == 8 && y == 7) || (x == 8 && y == 8) || (x == 7 && y == 8) || (x == 7 && y == 9)
        || (x == 7 && y == 10) || (x == 8 && y == 10) || (x == 8 && y == 11) {
        CellType::SnackBody
    } else {
        CellType::Empty
    }
}

proof fn lemma_initial_body(x: int, y: int)
    requires
        0 <= x <= usize::MAX,
        0 <= y <= usize::MAX,
    ensures
        initial_body().contains((x as usize, y as usize)) <==> in_initial_body(x, y),
        initial_body().no_duplicates(),
{
    let s = initial_body();
    assert(s[0] == (8usize, 7usize) && s[1] == (8usize, 8usize) && s[2] == (7usize, 8usize) && s[3]
        == (7usize, 9usize) && s[4] == (7usize, 10usize) && s[5] == (8usize, 10usize) && s[6] == (
    8usize, 11usize));
    if in_initial_body(x, y) {
        if x == 8 && y == 7 {
            assert(s[0] == (x as usize, y as usize));
        } else if x == 8 && y == 8 {
            assert(s[1] == (x as usize, y as usize));
        } else if x == 7 && y == 8 {
            assert(s[2] == (x as usize, y as usize));
        } else if x == 7 && y == 9 {
            assert(s[3] == (x as usize, y as usize));
        } else if x == 7 && y == 10 {
            assert(s[4] == (x as usize, y as usize));
        } else if x == 8 && y == 10 {
            assert(s[5] == (x as usize, y as usize));
        } else {
            assert(s[6] == (x as usize, y as usize));
        }
    }
}

impl Game {
    /// Sets up a session on a grid of the given size (columns, rows): a wall
    /// ring, the snake with its head at (9, 7) heading right, no food yet (see `build_default`), a
    /// score of 0. `None` stands for a size that could not be learned.
    pub fn new(size: Option<(u16, u16)>) -> (r: Result<Game, InitError>)
        ensures
            size is None ==> r == Err::<Game, InitError>(InitError::SizeUnavailable),
            size matches Some((w, h)) && (w < MIN_WIDTH || h < MIN_HEIGHT) ==> r == Err::<
                Game,
                InitError,
            >(InitError::TooSmall),
            size matches Some((w, h)) && w >= MIN_WIDTH && h >= MIN_HEIGHT ==> r is Ok,
            r matches Ok(g) ==> {
                &&& g.wf()
                &&& size matches Some((w, h)) && g.w() == w && g.h() == h
                &&& g.head_pos() == (9usize, 7usize)
                &&& g.body_seq() == initial_body()
                &&& g.heading() == Direction::Right
                &&& g.score_value() == 0
                &&& g.speed_value() == TICK_MILLIS
                &&& forall|x: int, y: int|
                    g.in_bounds(x, y) ==> #[trigger] g.ty(x, y) == initial_type(g.w(), g.h(), x, y)
                        && !g.cell(x, y).changed_flag
            },
    {
        let (w16, h16) = match size {
            Some(s) => s,
            None => {
                return Err(InitError::SizeUnavailable);
            },
        };
        if w16 < MIN_WIDTH || h16 < MIN_HEIGHT {
            return Err(InitError::TooSmall);
        }
        let w = w16 as usize;
        let h = h16 as usize;
        proof {
            lemma_area(w as int, h as int);
        }
        let mut cells: Vec<Cell> = Vec::new();
        let mut x: usize = 0;
        while x < w
            invariant
                x <= w,
                60 <= w <= 65535,
                20 <= h <= 65535,
                w * h <= 65535 * 65535,
                cells@.len() == x * h,
                forall|i: int|
                    0 <= i < cells@.len() ==> (#[trigger] cells@[i]).x < w && cells@[i].y < h
                        && cells@[i].x * h + cells@[i].y == i && !cells@[i].changed_flag
                        && cells@[i].cell_type == initial_type(
                        w as int,
                        h as int,
                        cells@[i].x as int,
                        cells@[i].y as int,
                    ),
            decreases w - x,
        {
            let mut y: usize = 0;
            while y < h
                invariant
                    x < w,
                    y <= h,
                    60 <= w <= 65535,
                    20 <= h <= 65535,
                    w * h <= 65535 * 65535,
                    cells@.len() == x * h + y,
                    forall|i: int|
                        0 <= i < cells@.len() ==> (#[trigger] cells@[i]).x < w && cells@[i].y < h
                            && cells@[i].x * h + cells@[i].y == i && !cells@[i].changed_flag
                            && cells@[i].cell_type == initial_type(
                            w as int,
                            h as int,
                            cells@[i].x as int,
                            cells@[i].y as int,
                        ),
                decreases h - y,
            {
                let t = initial_cell_type(w, h, x, y);
                cells.push(Cell { x, y, changed_flag: false, cell_type: t });
                y = y + 1;
            }
            proof {
                assert(x * h + h == (x + 1) * h) by (nonlinear_arith);
            }
            x = x + 1;
        }
        let mut bodys: Vec<(usize, usize)> = Vec::new();
        bodys.push((8, 7));
        bodys.push((8, 8));
        bodys.push((7, 8));
        bodys.push((7, 9));
        bodys.push((7, 10));
        bodys.push((8, 10));
        bodys.push((8, 11));
        let g = Game {
            cells,
            width: w,
            height: h,
            snack: Snack { direction: Direction::Right, head: (9, 7), bodys },
            score: 0,
            speed: TICK_MILLIS,
        };
        proof {
            assert(g.snack.bodys@ =~= initial_body());
            assert forall|x: int, y: int| g.in_bounds(x, y) implies #[trigger] g.ty(x, y)
                == initial_type(g.w(), g.h(), x, y) && !g.cell(x, y).changed_flag by {
                lemma_cell_coords(g.cells@, g.w(), g.h(), x, y);
            }
            assert forall|x: int, y: int| g.in_bounds(x, y) implies (#[trigger] g.ty(x, y)
                == CellType::SnackBody <==> g.snack.bodys@.contains((x as usize, y as usize))) by {
                lemma_initial_body(x, y);
            }
            lemma_initial_body(0, 0);
            assert(g.ty(9, 7) == initial_type(g.w(), g.h(), 9, 7));
        }
        Ok(g)
    }
}


/// A normal move onto `(x, y)`: the old head goes in front of the body,
/// the last segment of that sequence is dropped and its cell emptied, and
/// the new head cell becomes the head; length and score stay. With an empty
/// body the dropped segment is the old head itself, so the body stays empty.
pub open spec fn moved(old: Game, new: Game, x: usize, y: usize) -> bool {
    let h = old.head_pos();
    let s = seq![h] + old.body_seq();
    let t = s.last();
    &&& new.same_frame(old)
    &&& new.head_pos() == (x, y)
    &&& new.body_seq() == s.drop_last()
    &&& new.body_seq().len() == old.body_seq().len()
    &&& new.score_value() == old.score_value()
    &&& forall|a: int, b: int|
        old.in_bounds(a, b) ==> #[trigger] new.cell(a, b) == if a == x && b == y {
            Cell { changed_flag: true, cell_type: CellType::SnackHead, ..old.cell(a, b) }
        } else if a == t.0 && b == t.1 {
            Cell { changed_flag: true, cell_type: CellType::Empty, ..old.cell(a, b) }
        } else if a == h.0 && b == h.1 {
            Cell { changed_flag: true, cell_type: CellType::SnackBody, ..old.cell(a, b) }
        } else {
            old.cell(a, b)
        }
}

/// The old head put in front of a duplicate-free body that does not hold it
/// gives a duplicate-free sequence of the two.
proof fn lemma_push_front(b: Seq<(usize, usize)>, h: (usize, usize))
    requires
        b.no_duplicates(),
        !b.contains(h),
    ensures
        (seq![h] + b).no_duplicates(),
        (seq![h] + b).len() == b.len() + 1,
        (seq![h] + b)[0] == h,
        forall|i: int| 0 <= i < b.len() ==> (seq![h] + b)[i + 1] == #[trigger] b[i],
        forall|p: (usize, usize)| #[trigger] (seq![h] + b).contains(p) <==> p == h || b.contains(p),
{
    let s = seq![h] + b;
    assert forall|p: (usize, usize)| #[trigger] s.contains(p) <==> p == h || b.contains(p) by {
        if s.contains(p) && p != h {
            let k = choose|k: int| 0 <= k < s.len() && s[k] == p;
            assert(b[k - 1] == p);
        }
        if b.contains(p) {
            let k = choose|k: int| 0 <= k < b.len() && b[k] == p;
            assert(s[k + 1] == p);
        }
        if p == h {
            assert(s[0] == p);
        }
    }
    assert forall|i: int, j: int| 0 <= i < s.len() && 0 <= j < s.len() && i != j implies s[i]
        != s[j] by {
        if i > 0 && j > 0 {
            assert(s[i] == b[i - 1] && s[j] == b[j - 1]);
        } else if i == 0 {
            assert(b.contains(s[j]));
        } else {
            assert(b.contains(s[i]));
        }
    }
}

/// Dropping the last element of a duplicate-free sequence removes exactly
/// that element.
proof fn lemma_drop_last(s: Seq<(usize, usize)>)
    requires
        s.no_duplicates(),
        s.len() > 0,
    ensures
        s.drop_last().no_duplicates(),
        forall|p: (usize, usize)| #[trigger] s.drop_last().contains(p) <==> s.contains(p) && p
            != s.last(),
{
    let d = s.drop_last();
    assert forall|p: (usize, usize)| #[trigger] d.contains(p) <==> s.contains(p) && p != s.last() by {
        if d.contains(p) {
            let k = choose|k: int| 0 <= k < d.len() && d[k] == p;
            assert(s[k] == p);
            assert(k != s.len() - 1);
        }
        if s.contains(p) && p != s.last() {
            let k = choose|k: int| 0 <= k < s.len() && s[k] == p;
            assert(d[k] == p);
        }
    }
}

/// No cell that was a wall stops being one, and no other becomes one.
pub open spec fn walls_kept(old: Game, new: Game) -> bool {
    forall|a: int, b: int|
        old.in_bounds(a, b) ==> (#[trigger] new.ty(a, b) == CellType::Wall <==> old.ty(a, b)
            == CellType::Wall)
}

impl Game {
    /// Same size and tick interval, and the same number of cells.
    pub open spec fn same_frame(self, o: Game) -> bool {
        &&& self.w() == o.w()
        &&& self.h() == o.h()
        &&& self.speed_value() == o.speed_value()
        &&& self.cells_view().len() == o.cells_view().len()
    }

    /// Every part of the state but the heading is as in `o`.
    pub open spec fn same_but_heading(self, o: Game) -> bool {
        &&& self.cells_view() == o.cells_view()
        &&& self.w() == o.w()
        &&& self.h() == o.h()
        &&& self.speed_value() == o.speed_value()
        &&& self.score_value() == o.score_value()
        &&& self.head_pos() == o.head_pos()
        &&& self.body_seq() == o.body_seq()
    }

    proof fn lemma_wf_same_but_heading(a: Game, b: Game)
        requires
            a.wf(),
            b.same_but_heading(a),
        ensures
            b.wf(),
            walls_kept(a, b),
    {
        assert forall|x: int, y: int| #[trigger] b.ty(x, y) == a.ty(x, y) by {
            assert(b.cell(x, y) == a.cell(x, y));
        }
    }

    /// Takes a requested heading, but only as a quarter turn: a request for
    /// the current heading or its reverse changes nothing.
    pub fn turn_around(&mut self, dir: Direction)
        requires
            old(self).wf(),
        ensures
            final(self).wf(),
            final(self).heading() == turned(old(self).heading(), dir),
            final(self).same_but_heading(*old(self)),
            walls_kept(*old(self), *final(self)),
    {
        match (self.snack.direction, dir) {
            (Direction::Left, Direction::Up)
            | (Direction::Left, Direction::Down)
            | (Direction::Right, Direction::Up)
            | (Direction::Right, Direction::Down)
            | (Direction::Up, Direction::Left)
            | (Direction::Up, Direction::Right)
            | (Direction::Down, Direction::Left)
            | (Direction::Down, Direction::Right) => {
                self.snack.direction = dir;
            },
            _ => {},
        }
        proof {
            Game::lemma_wf_same_but_heading(*old(self), *self);
        }
    }

    /// Looks one step ahead of the head along the heading and reports what
    /// lies there, with its coordinates. A step off the top or left edge
    /// counts as a wall at (0, 0); the wall ring keeps that from happening.
    pub fn collision_detection(&self) -> (r: (CellType, (usize, usize)))
        requires
            self.wf(),
        ensures
            ({
                let n = step(self.head_pos(), self.heading());
                &&& self.interior(self.head_pos().0 as int, self.head_pos().1 as int)
                &&& self.in_bounds(n.0, n.1)
                &&& r.1.0 == n.0
                &&& r.1.1 == n.1
                &&& r.0 == self.ty(n.0, n.1)
            }),
    {
        let (h_x, h_y) = self.snack.head;
        proof {
            if !self.interior(h_x as int, h_y as int) {
                assert(self.ty(h_x as int, h_y as int) == CellType::Wall);
            }
        }
        let (n_x, n_y) = match self.snack.direction {
            Direction::Left => {
                if h_x == 0 {
                    return (CellType::Wall, (0, 0));
                }
                (h_x - 1, h_y)
            },
            Direction::Right => (h_x + 1, h_y),
            Direction::Up => {
                if h_y == 0 {
                    return (CellType::Wall, (0, 0));
                }
                (h_x, h_y - 1)
            },
            Direction::Down => (h_x, h_y + 1),
        };
        proof {
            lemma_index(self.w(), self.h(), n_x as int, n_y as int);
            lemma_area(self.w(), self.h());
        }
        (self.cells[n_x * self.height + n_y].cell_type, (n_x, n_y))
    }

    /// A normal move onto the empty cell `(x, y)`.
    pub fn go(&mut self, x: usize, y: usize)
        requires
            old(self).wf(),
            old(self).in_bounds(x as int, y as int),
            old(self).ty(x as int, y as int) == CellType::Empty,
        ensures
            final(self).wf(),
            final(self).heading() == old(self).heading(),
            moved(*old(self), *final(self), x, y),
            walls_kept(*old(self), *final(self)),
    {
        let ghost g0 = *self;
        let ghost b0 = self.snack.bodys@;
        let (h_x, h_y) = self.snack.head;
        proof {
            Game::lemma_snake_matches_grid(g0);
            lemma_push_front(b0, (h_x, h_y));
        }
        self.snack.bodys.insert(0, (h_x, h_y));
        let ghost s = self.snack.bodys@;
        let ghost t = s.last();
        proof {
            assert(s =~= seq![(h_x, h_y)] + b0);
            lemma_drop_last(s);
            if b0.len() > 0 {
                assert(t == b0[b0.len() - 1]);
            }
        }
        self.set_type_at(h_x, h_y, CellType::SnackBody);
        let ghost g1 = *self;
        self.snack.head = (x, y);
        self.set_type_at(x, y, CellType::SnackHead);
        let ghost g2 = *self;
        let tail = self.snack.bodys.pop();
        let ghost g3 = *self;
        if let Some((t_x, t_y)) = tail {
            self.set_type_at(t_x, t_y, CellType::Empty);
        }
        proof {
            assert(tail == Some(t));
            assert(self.snack.bodys@ =~= s.drop_last());
            assert forall|a: int, b: int| g0.in_bounds(a, b) implies #[trigger] self.cell(a, b)
                == if a == x && b == y {
                Cell { changed_flag: true, cell_type: CellType::SnackHead, ..g0.cell(a, b) }
            } else if a == t.0 && b == t.1 {
                Cell { changed_flag: true, cell_type: CellType::Empty, ..g0.cell(a, b) }
            } else if a == h_x && b == h_y {
                Cell { changed_flag: true, cell_type: CellType::SnackBody, ..g0.cell(a, b) }
            } else {
                g0.cell(a, b)
            } by {
                assert(g1.cell(a, b) == if a == h_x && b == h_y {
                    Cell { changed_flag: true, cell_type: CellType::SnackBody, ..g0.cell(a, b) }
                } else {
                    g0.cell(a, b)
                });
                assert(g2.cell(a, b) == if a == x && b == y {
                    Cell { changed_flag: true, cell_type: CellType::SnackHead, ..g1.cell(a, b) }
                } else {
                    g1.cell(a, b)
                });
                assert(g3.cell(a, b) == g2.cell(a, b));
            }
            let changed = |a: int, b: int|
                (a == x && b == y) || (a == t.0 && b == t.1) || (a == h_x && b == h_y);
            assert forall|a: int, b: int| self.in_bounds(a, b) implies (#[trigger] self.ty(a, b)
                == CellType::SnackBody <==> self.snack.bodys@.contains((a as usize, b as usize))) by {
                assert(g0.ty(a, b) == CellType::SnackBody <==> b0.contains((a as usize, b as usize)));
            }
            assert forall|a: int, b: int|
                self.in_bounds(a, b) && on_border(self.w(), self.h(), a, b) implies #[trigger] self.ty(
                a,
                b,
            ) == CellType::Wall by {
                assert(g0.ty(a, b) == CellType::Wall);
            }
            assert forall|a: int, b: int|
                self.in_bounds(a, b) && #[trigger] self.ty(a, b) == CellType::SnackHead implies a
                == x && b == y by {
                if !changed(a, b) {
                    assert(g0.ty(a, b) == CellType::SnackHead);
                }
            }
            assert forall|i: int| 0 <= i < self.snack.bodys@.len() implies self.in_bounds(
                (#[trigger] self.snack.bodys@[i]).0 as int,
                self.snack.bodys@[i].1 as int,
            ) by {
                assert(self.snack.bodys@[i] == s[i]);
                if i > 0 {
                    assert(s[i] == b0[i - 1]);
                }
            }
        }
    }
}

/// Food stands on the formerly empty interior cell `p`; nothing else changed.
pub open spec fn food_placed(old: Game, new: Game, p: (usize, usize)) -> bool {
    &&& old.in_bounds(p.0 as int, p.1 as int)
    &&& old.interior(p.0 as int, p.1 as int)
    &&& old.at(p) == CellType::Empty
    &&& new.at(p) == CellType::Food
    &&& new.same_snake(old)
    &&& forall|a: int, b: int|
        old.in_bounds(a, b) ==> #[trigger] new.cell(a, b) == if a == p.0 && b == p.1 {
            Cell { changed_flag: true, cell_type: CellType::Food, ..old.cell(a, b) }
        } else {
            old.cell(a, b)
        }
}

/// A growth move onto the food at `(x, y)` with new food placed at `f`:
/// the head advances, the old head becomes body, no cell is emptied, and
/// length and score each grow by one.
pub open spec fn grew(old: Game, new: Game, x: usize, y: usize, f: (usize, usize)) -> bool {
    let h = old.head_pos();
    &&& new.same_frame(old)
    &&& old.in_bounds(f.0 as int, f.1 as int)
    &&& old.interior(f.0 as int, f.1 as int)
    &&& old.at(f) == CellType::Empty
    &&& new.head_pos() == (x, y)
    &&& new.body_seq() == seq![h] + old.body_seq()
    &&& new.body_seq().len() == old.body_seq().len() + 1
    &&& new.score_value() == old.score_value() + 1
    &&& forall|a: int, b: int|
        old.in_bounds(a, b) ==> #[trigger] new.cell(a, b) == if a == x && b == y {
            Cell { changed_flag: true, cell_type: CellType::SnackHead, ..old.cell(a, b) }
        } else if a == h.0 && b == h.1 {
            Cell { changed_flag: true, cell_type: CellType::SnackBody, ..old.cell(a, b) }
        } else if a == f.0 && b == f.1 {
            Cell { changed_flag: true, cell_type: CellType::Food, ..old.cell(a, b) }
        } else {
            old.cell(a, b)
        }
}

impl Game {
    /// Same size, tick interval, snake and score.
    pub open spec fn same_snake(self, o: Game) -> bool {
        &&& self.same_frame(o)
        &&& self.score_value() == o.score_value()
        &&& self.heading() == o.heading()
        &&& self.head_pos() == o.head_pos()
        &&& self.body_seq() == o.body_seq()
    }

    /// The coordinates of all empty cells, column by column.
    pub open spec fn empty_seq(self) -> Seq<(usize, usize)> {
        empties_below(self.cells_view(), self.cells_view().len() as int)
    }

    proof fn lemma_empties_below(self, n: int)
        requires
            self.wf(),
            0 <= n <= self.cells@.len(),
        ensures
            forall|k: int|
                0 <= k < empties_below(self.cells@, n).len() ==> {
                    let p = #[trigger] empties_below(self.cells@, n)[k];
                    &&& self.in_bounds(p.0 as int, p.1 as int)
                    &&& self.at(p) == CellType::Empty
                    &&& p.0 * self.height + p.1 < n
                },
            forall|j: int|
                0 <= j < n && (#[trigger] self.cells@[j]).cell_type == CellType::Empty
                    ==> empties_below(self.cells@, n).len() > 0,
        decreases n,
    {
        if n > 0 {
            self.lemma_empties_below(n - 1);
            let c = self.cells@[n - 1];
            assert(c.x * self.height + c.y == n - 1);
        }
    }

    /// Whether some cell is empty is whether the list of empty cells is non-empty.
    pub proof fn lemma_has_empty(self)
        requires
            self.wf(),
        ensures
            self.has_empty() <==> self.empty_seq().len() > 0,
    {
        self.lemma_empties_below(self.cells@.len() as int);
        if self.has_empty() {
            let (x, y) = choose|x: int, y: int|
                self.in_bounds(x, y) && #[trigger] self.ty(x, y) == CellType::Empty;
            lemma_cell_coords(self.cells@, self.w(), self.h(), x, y);
            assert(self.cells@[x * self.h() + y].cell_type == CellType::Empty);
        }
        if self.empty_seq().len() > 0 {
            let p = self.empty_seq()[0];
            assert(self.ty(p.0 as int, p.1 as int) == CellType::Empty);
        }
    }

    /// The coordinates of every empty cell, column by column.
    pub fn empty_cells(&self) -> (r: Vec<(usize, usize)>)
        requires
            self.wf(),
        ensures
            r@ == self.empty_seq(),
    {
        let mut r: Vec<(usize, usize)> = Vec::new();
        let mut i: usize = 0;
        while i < self.cells.len()
            invariant
                i <= self.cells@.len(),
                r@ == empties_below(self.cells@, i as int),
            decreases self.cells@.len() - i,
        {
            let c = self.cells[i];
            if c.cell_type == CellType::Empty {
                r.push((c.x, c.y));
            }
            i = i + 1;
        }
        r
    }

    /// Places food on the empty cell at position `pick` (taken modulo
    /// their number) of the column-by-column list of empty cells, and
    /// returns its coordinates; fails with `NoSpace` when no cell is empty.
    pub fn spawn_food_with(&mut self, pick: usize) -> (r: Result<(usize, usize), GameOver>)
        requires
            old(self).wf(),
        ensures
            final(self).wf(),
            r is Err <==> !old(self).has_empty(),
            r is Err ==> r == Err::<(usize, usize), GameOver>(GameOver::NoSpace) && *final(self)
                == *old(self),
            r matches Ok(p) ==> p == old(self).empty_seq()[(pick as int) % (old(self).empty_seq().len() as int)]
                && food_placed(*old(self), *final(self), p),
            walls_kept(*old(self), *final(self)),
    {
        proof {
            self.lemma_has_empty();
            self.lemma_empties_below(self.cells@.len() as int);
        }
        let empties = self.empty_cells();
        if empties.len() == 0 {
            return Err(GameOver::NoSpace);
        }
        let p = empties[pick % empties.len()];
        let ghost g0 = *self;
        proof {
            assert(g0.at(p) == CellType::Empty);
            if !g0.interior(p.0 as int, p.1 as int) {
                assert(g0.ty(p.0 as int, p.1 as int) == CellType::Wall);
            }
        }
        self.set_type_at(p.0, p.1, CellType::Food);
        proof {
            assert forall|a: int, b: int| #![auto]
                self.in_bounds(a, b) implies self.ty(a, b) == if a == p.0 && b == p.1 {
                CellType::Food
            } else {
                g0.ty(a, b)
            } by {
                assert(self.cell(a, b) == if a == p.0 && b == p.1 {
                    Cell { changed_flag: true, cell_type: CellType::Food, ..g0.cell(a, b) }
                } else {
                    g0.cell(a, b)
                });
            }
        }
        Ok(p)
    }

    /// Places food on an empty cell drawn uniformly at random, and returns
    /// its coordinates; fails with `NoSpace` when no cell is empty.
    pub fn generate_food(&mut self) -> (r: Result<(usize, usize), GameOver>)
        requires
            old(self).wf(),
        ensures
            final(self).wf(),
            r is Err <==> !old(self).has_empty(),
            r is Err ==> r == Err::<(usize, usize), GameOver>(GameOver::NoSpace) && *final(self)
                == *old(self),
            r matches Ok(p) ==> food_placed(*old(self), *final(self), p),
            walls_kept(*old(self), *final(self)),
    {
        proof {
            self.lemma_has_empty();
        }
        let n = self.empty_cells().len();
        if n == 0 {
            return Err(GameOver::NoSpace);
        }
        let pick = random_below(n);
        self.spawn_food_with(pick)
    }
}


impl Game {
    /// A growth move onto the food at `(x, y)`: new food is placed first,
    /// then the head advances without the tail shrinking, and the score grows
    /// by one. Returns where the new food stands; fails with `NoSpace`,
    /// changing nothing, when no cell is empty.
    pub fn eat_food(&mut self, x: usize, y: usize) -> (r: Result<(usize, usize), GameOver>)
        requires
            old(self).wf(),
            old(self).in_bounds(x as int, y as int),
            old(self).ty(x as int, y as int) == CellType::Food,
        ensures
            final(self).wf(),
            r is Err <==> !old(self).has_empty(),
            r is Err ==> r == Err::<(usize, usize), GameOver>(GameOver::NoSpace) && *final(self)
                == *old(self),
            r matches Ok(f) ==> grew(*old(self), *final(self), x, y, f),
            final(self).heading() == old(self).heading(),
            walls_kept(*old(self), *final(self)),
    {
        let ghost g0 = *self;
        let f = match self.generate_food() {
            Ok(f) => f,
            Err(e) => {
                return Err(e);
            },
        };
        let ghost g1 = *self;
        assert(g1.ty(x as int, y as int) == CellType::Food);
        let (h_x, h_y) = self.snack.head;
        proof {
            Game::lemma_snake_matches_grid(g0);
            lemma_push_front(g0.snack.bodys@, (h_x, h_y));
        }
        self.snack.bodys.insert(0, (h_x, h_y));
        // The body's length is a usize and bounds the score, so the score can grow.
        let _body_len = self.snack.bodys.len();
        self.set_type_at(h_x, h_y, CellType::SnackBody);
        let ghost g2 = *self;
        self.snack.head = (x, y);
        self.set_type_at(x, y, CellType::SnackHead);
        let ghost g3 = *self;
        self.score = self.score + 1;
        proof {
            let b0 = g0.snack.bodys@;
            let b = self.snack.bodys@;
            assert(b =~= seq![(h_x, h_y)] + b0);
            assert forall|a: int, b: int| g0.in_bounds(a, b) implies #[trigger] self.cell(a, b)
                == if a == x && b == y {
                Cell { changed_flag: true, cell_type: CellType::SnackHead, ..g0.cell(a, b) }
            } else if a == h_x && b == h_y {
                Cell { changed_flag: true, cell_type: CellType::SnackBody, ..g0.cell(a, b) }
            } else if a == f.0 && b == f.1 {
                Cell { changed_flag: true, cell_type: CellType::Food, ..g0.cell(a, b) }
            } else {
                g0.cell(a, b)
            } by {
                assert(g1.cell(a, b) == if a == f.0 && b == f.1 {
                    Cell { changed_flag: true, cell_type: CellType::Food, ..g0.cell(a, b) }
                } else {
                    g0.cell(a, b)
                });
                assert(g2.cell(a, b) == if a == h_x && b == h_y {
                    Cell { changed_flag: true, cell_type: CellType::SnackBody, ..g1.cell(a, b) }
                } else {
                    g1.cell(a, b)
                });
                assert(g3.cell(a, b) == if a == x && b == y {
                    Cell { changed_flag: true, cell_type: CellType::SnackHead, ..g2.cell(a, b) }
                } else {
                    g2.cell(a, b)
                });
                assert(self.cell(a, b) == g3.cell(a, b));
            }
            assert forall|a: int, c: int| self.in_bounds(a, c) implies (#[trigger] self.ty(a, c)
                == CellType::SnackBody <==> b.contains((a as usize, c as usize))) by {
                assert(g0.ty(a, c) == CellType::SnackBody <==> b0.contains((a as usize, c as usize)));
            }
            assert forall|a: int, c: int|
                self.in_bounds(a, c) && on_border(self.w(), self.h(), a, c) implies #[trigger] self.ty(
                a,
                c,
            ) == CellType::Wall by {
                assert(g0.ty(a, c) == CellType::Wall);
            }
            assert forall|a: int, c: int|
                self.in_bounds(a, c) && #[trigger] self.ty(a, c) == CellType::SnackHead implies a
                == x && c == y by {
                if !(a == x && c == y) && !(a == h_x && c == h_y) && !(a == f.0 && c == f.1) {
                    assert(g0.ty(a, c) == CellType::SnackHead);
                }
            }
            assert forall|i: int| 0 <= i < b.len() implies self.in_bounds(
                (#[trigger] b[i]).0 as int,
                b[i].1 as int,
            ) by {
                if i > 0 {
                    assert(b[i] == b0[i - 1]);
                }
            }
        }
        Ok(f)
    }

    /// The cell that the head moves to this tick, given the tick's input.
    pub open spec fn target(self, input: Option<Direction>) -> (usize, usize) {
        let n = step(self.head_pos(), heading_after(self.heading(), input));
        (n.0 as usize, n.1 as usize)
    }

    /// What lies on the cell that the head moves to this tick.
    pub open spec fn ahead(self, input: Option<Direction>) -> CellType {
        self.at(self.target(input))
    }

    /// One tick: applies the input as a turn, looks one step ahead, and acts
    /// on what lies there. A wall or the snake's own body ends the session;
    /// food is eaten; an empty cell is moved onto; the head itself leaves all
    /// as it is.
    pub fn tick(&mut self, input: Option<Direction>) -> (r: Result<TickOutcome, GameOver>)
        requires
            old(self).wf(),
        ensures
            final(self).wf(),
            final(self).heading() == heading_after(old(self).heading(), input),
            walls_kept(*old(self), *final(self)),
            old(self).in_bounds(
                step(old(self).head_pos(), heading_after(old(self).heading(), input)).0,
                step(old(self).head_pos(), heading_after(old(self).heading(), input)).1,
            ),
            old(self).ahead(input) == CellType::Wall ==> r == Err::<TickOutcome, GameOver>(
                GameOver::HitWall,
            ) && final(self).same_but_heading(*old(self)),
            old(self).ahead(input) == CellType::SnackBody ==> r == Err::<TickOutcome, GameOver>(
                GameOver::SelfCollision,
            ) && final(self).same_but_heading(*old(self)),
            old(self).ahead(input) == CellType::SnackHead ==> r == Ok::<TickOutcome, GameOver>(
                TickOutcome::Stalled,
            ) && final(self).same_but_heading(*old(self)),
            old(self).ahead(input) == CellType::Empty ==> r == Ok::<TickOutcome, GameOver>(
                TickOutcome::Moved,
            ) && moved(*old(self), *final(self), old(self).target(input).0, old(self).target(input).1),
            old(self).ahead(input) == CellType::Food ==> (r is Err <==> !old(self).has_empty()),
            old(self).ahead(input) == CellType::Food && r is Err ==> r == Err::<TickOutcome, GameOver>(
                GameOver::NoSpace,
            ) && final(self).same_but_heading(*old(self)),
            old(self).ahead(input) == CellType::Food && r is Ok ==> (r matches Ok(
                TickOutcome::Ate(fx, fy),
            ) && grew(
                *old(self),
                *final(self),
                old(self).target(input).0,
                old(self).target(input).1,
                (fx, fy),
            )),
    {
        let ghost g0 = *self;
        if let Some(d) = input {
            self.turn_around(d);
        }
        proof {
            Game::lemma_wf_same_but_heading(g0, *self);
            assert forall|a: int, b: int| #[trigger] self.cell(a, b) == g0.cell(a, b) by {}
            assert(self.empty_seq() == g0.empty_seq());
            g0.lemma_has_empty();
            self.lemma_has_empty();
        }
        let (t, (x, y)) = self.collision_detection();
        match t {
            CellType::Wall => Err(GameOver::HitWall),
            CellType::SnackHead => Ok(TickOutcome::Stalled),
            CellType::SnackBody => Err(GameOver::SelfCollision),
            CellType::Food => match self.eat_food(x, y) {
                Ok((fx, fy)) => Ok(TickOutcome::Ate(fx, fy)),
                Err(e) => Err(e),
            },
            CellType::Empty => {
                self.go(x, y);
                Ok(TickOutcome::Moved)
            },
        }
    }
}


impl Game {
    /// `b` differs from `a` at most in the redraw marks of its cells.
    proof fn lemma_wf_marks_only(a: Game, b: Game)
        requires
            a.wf(),
            b.same_snake(a),
            forall|i: int|
                0 <= i < a.cells@.len() ==> (#[trigger] b.cells@[i]).x == a.cells@[i].x
                    && b.cells@[i].y == a.cells@[i].y && b.cells@[i].cell_type
                    == a.cells@[i].cell_type,
        ensures
            b.wf(),
            walls_kept(a, b),
    {
        assert forall|x: int, y: int| a.in_bounds(x, y) implies #[trigger] b.ty(x, y) == a.ty(
            x,
            y,
        ) by {
            lemma_index(a.w(), a.h(), x, y);
            assert(b.cells@[x * a.h() + y].cell_type == a.cells@[x * a.h() + y].cell_type);
        }
        assert forall|i: int| 0 <= i < b.cells@.len() implies (#[trigger] b.cells@[i]).x < b.width
            && b.cells@[i].y < b.height && b.cells@[i].x * b.height + b.cells@[i].y == i by {
            assert(a.cells@[i].x * a.height + a.cells@[i].y == i);
        }
    }

    /// Hands out every cell, in grid order, for drawing, and takes every
    /// redraw mark off.
    pub fn render_all(&mut self) -> (r: Vec<Cell>)
        requires
            old(self).wf(),
        ensures
            final(self).wf(),
            r@ == old(self).cells_view(),
            final(self).cells_view() == cleared(old(self).cells_view()),
            final(self).same_snake(*old(self)),
            walls_kept(*old(self), *final(self)),
    {
        let ghost g0 = *self;
        let mut r: Vec<Cell> = Vec::new();
        let mut i: usize = 0;
        while i < self.cells.len()
            invariant
                i <= self.cells@.len(),
                self.cells@.len() == g0.cells@.len(),
                self.same_snake(g0),
                r@ == g0.cells@.take(i as int),
                forall|j: int|
                    0 <= j < self.cells@.len() ==> #[trigger] self.cells@[j] == if j < i {
                        Cell { changed_flag: false, ..g0.cells@[j] }
                    } else {
                        g0.cells@[j]
                    },
            decreases self.cells@.len() - i,
        {
            let c = self.cells[i];
            r.push(c);
            self.cells.set(i, Cell { changed_flag: false, ..c });
            proof {
                assert(g0.cells@.take(i + 1) =~= g0.cells@.take(i as int).push(c));
            }
            i = i + 1;
        }
        proof {
            assert(r@ =~= g0.cells@);
            assert(self.cells@ =~= cleared(g0.cells@));
            Game::lemma_wf_marks_only(g0, *self);
        }
        r
    }

    /// Hands out the cells marked for redraw, in grid order, and takes their
    /// marks off. With no marked cell it hands out nothing and changes nothing.
    pub fn render_only_updated(&mut self) -> (r: Vec<Cell>)
        requires
            old(self).wf(),
        ensures
            final(self).wf(),
            r@ == dirty_of(old(self).cells_view()),
            final(self).cells_view() == cleared(old(self).cells_view()),
            final(self).same_snake(*old(self)),
            walls_kept(*old(self), *final(self)),
    {
        let ghost g0 = *self;
        let mut r: Vec<Cell> = Vec::new();
        let mut i: usize = 0;
        while i < self.cells.len()
            invariant
                i <= self.cells@.len(),
                self.cells@.len() == g0.cells@.len(),
                self.same_snake(g0),
                r@ == dirty_of(g0.cells@.take(i as int)),
                forall|j: int|
                    0 <= j < self.cells@.len() ==> #[trigger] self.cells@[j] == if j < i {
                        Cell { changed_flag: false, ..g0.cells@[j] }
                    } else {
                        g0.cells@[j]
                    },
            decreases self.cells@.len() - i,
        {
            let c = self.cells[i];
            if c.changed_flag {
                r.push(c);
                self.cells.set(i, Cell { changed_flag: false, ..c });
            }
            proof {
                assert(g0.cells@.take(i + 1).drop_last() =~= g0.cells@.take(i as int));
            }
            i = i + 1;
        }
        proof {
            assert(g0.cells@.take(g0.cells@.len() as int) =~= g0.cells@);
            assert(self.cells@ =~= cleared(g0.cells@));
            Game::lemma_wf_marks_only(g0, *self);
        }
        r
    }
}


impl Game {
    /// Every cell of the border ring of a valid state is a wall.
    pub proof fn lemma_border_is_wall(g: Game)
        requires
            g.wf(),
        ensures
            forall|x: int, y: int|
                g.in_bounds(x, y) && on_border(g.w(), g.h(), x, y) ==> #[trigger] g.ty(x, y)
                    == CellType::Wall,
    {
    }

    /// In a valid state the snake-body cells are exactly the body's
    /// coordinates, and the one snake-head cell is the head.
    pub proof fn lemma_snake_matches_grid(g: Game)
        requires
            g.wf(),
        ensures
            forall|x: int, y: int|
                g.in_bounds(x, y) ==> (#[trigger] g.ty(x, y) == CellType::SnackBody
                    <==> g.body_seq().contains((x as usize, y as usize))),
            forall|x: int, y: int|
                g.in_bounds(x, y) ==> (#[trigger] g.ty(x, y) == CellType::SnackHead <==> x
                    == g.head_pos().0 && y == g.head_pos().1),
            g.in_bounds(g.head_pos().0 as int, g.head_pos().1 as int),
            forall|i: int|
                0 <= i < g.body_seq().len() ==> g.in_bounds(
                    (#[trigger] g.body_seq()[i]).0 as int,
                    g.body_seq()[i].1 as int,
                ),
            g.body_seq().no_duplicates(),
            !g.body_seq().contains(g.head_pos()),
            g.score_value() <= g.body_seq().len(),
    {
        if g.snack.bodys@.contains(g.snack.head) {
            let h = g.snack.head;
            assert(g.ty(h.0 as int, h.1 as int) == CellType::SnackBody);
        }
    }

    /// A valid state holds its cells column by column, `h` per column, on a
    /// grid of at least the playable size.
    pub proof fn lemma_layout(g: Game)
        requires
            g.wf(),
        ensures
            shaped(g.cells_view(), g.w(), g.h()),
            MIN_WIDTH <= g.w() <= 65535,
            MIN_HEIGHT <= g.h() <= 65535,
            g.speed_value() == TICK_MILLIS,
    {
    }

    /// Food is placed only on an empty interior cell, and where the grid
    /// held no food before, that cell is the only food afterwards.
    pub proof fn lemma_single_food(old: Game, new: Game, p: (usize, usize))
        requires
            old.wf(),
            food_placed(old, new, p),
            forall|a: int, b: int| old.in_bounds(a, b) ==> #[trigger] old.ty(a, b) != CellType::Food,
        ensures
            old.at(p) == CellType::Empty,
            new.interior(p.0 as int, p.1 as int),
            forall|a: int, b: int|
                old.in_bounds(a, b) ==> (#[trigger] new.ty(a, b) == CellType::Food <==> a == p.0
                    && b == p.1),
    {
        assert forall|a: int, b: int| old.in_bounds(a, b) implies (#[trigger] new.ty(a, b)
            == CellType::Food <==> a == p.0 && b == p.1) by {
            assert(old.ty(a, b) != CellType::Food);
        }
    }

    /// The score: one point per food eaten.
    pub fn score(&self) -> (r: usize)
        ensures
            r == self.score_value(),
    {
        self.score
    }

    /// Milliseconds between two ticks.
    pub fn speed(&self) -> (r: u64)
        ensures
            r == self.speed_value(),
    {
        self.speed
    }

    /// The number of columns.
    pub fn width(&self) -> (r: usize)
        ensures
            r == self.w(),
    {
        self.width
    }

    /// The number of rows.
    pub fn height(&self) -> (r: usize)
        ensures
            r == self.h(),
    {
        self.height
    }

    /// The snake's heading.
    pub fn direction(&self) -> (r: Direction)
        ensures
            r == self.heading(),
    {
        self.snack.direction
    }

    /// The head's column and row.
    pub fn head(&self) -> (r: (usize, usize))
        ensures
            r == self.head_pos(),
    {
        self.snack.head
    }

    /// The body's coordinates, from the neck to the tail.
    pub fn body(&self) -> (r: &Vec<(usize, usize)>)
        ensures
            r@ == self.body_seq(),
    {
        &self.snack.bodys
    }

    /// The cell at column `x`, row `y`.
    pub fn cell_at(&self, x: usize, y: usize) -> (r: Cell)
        requires
            self.wf(),
            x < self.w(),
            y < self.h(),
        ensures
            r == self.cell(x as int, y as int),
    {
        proof {
            lemma_index(self.w(), self.h(), x as int, y as int);
            lemma_area(self.w(), self.h());
        }
        self.cells[x * self.height + y]
    }
}


impl Game {
    /// Sets up a session as `new` does and places the first food on an empty
    /// cell drawn at random, so that the game starts with exactly one food.
    pub fn build_default(size: Option<(u16, u16)>) -> (r: Result<Game, InitError>)
        ensures
            size is None ==> r == Err::<Game, InitError>(InitError::SizeUnavailable),
            size matches Some((w, h)) && (w < MIN_WIDTH || h < MIN_HEIGHT) ==> r == Err::<
                Game,
                InitError,
            >(InitError::TooSmall),
            size matches Some((w, h)) && w >= MIN_WIDTH && h >= MIN_HEIGHT ==> r is Ok,
            r matches Ok(g) ==> {
                &&& g.wf()
                &&& size matches Some((w, h)) && g.w() == w && g.h() == h
                &&& g.head_pos() == (9usize, 7usize)
                &&& g.body_seq() == initial_body()
                &&& g.heading() == Direction::Right
                &&& g.score_value() == 0
                &&& g.speed_value() == TICK_MILLIS
                &&& exists|fx: int, fy: int|
                    {
                        &&& g.interior(fx, fy)
                        &&& initial_type(g.w(), g.h(), fx, fy) == CellType::Empty
                        &&& forall|x: int, y: int|
                            g.in_bounds(x, y) ==> #[trigger] g.ty(x, y) == if x == fx && y == fy {
                                CellType::Food
                            } else {
                                initial_type(g.w(), g.h(), x, y)
                            }
                    }
            },
    {
        let mut g = match Game::new(size) {
            Ok(g) => g,
            Err(e) => {
                return Err(e);
            },
        };
        let ghost g0 = g;
        proof {
            assert(g0.ty(1, 1) == initial_type(g0.w(), g0.h(), 1, 1));
            assert(g0.has_empty());
        }
        let placed = g.generate_food();
        proof {
            let p = placed->Ok_0;
            assert forall|x: int, y: int| g.in_bounds(x, y) implies #[trigger] g.ty(x, y) == if x
                == p.0 && y == p.1 {
                CellType::Food
            } else {
                initial_type(g.w(), g.h(), x, y)
            } by {
                assert(g0.ty(x, y) == initial_type(g0.w(), g0.h(), x, y));
            }
            let (fx, fy) = (p.0 as int, p.1 as int);
            assert(g0.ty(fx, fy) == initial_type(g0.w(), g0.h(), fx, fy));
            assert(g.interior(fx, fy));
            assert(forall|x: int, y: int|
                g.in_bounds(x, y) ==> #[trigger] g.ty(x, y) == if x == fx && y == fy {
                    CellType::Food
                } else {
                    initial_type(g.w(), g.h(), x, y)
                });
        }
        Ok(g)
    }
}

} // verus!
