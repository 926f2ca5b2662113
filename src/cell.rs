use vstd::prelude::*;

verus! {

/// What a grid cell currently holds.
#[derive(PartialEq, Eq, Structural, Clone, Copy, Debug)]
pub enum CellType {
    Wall,
    SnackHead,
    SnackBody,
    Food,
    Empty,
}

/// A foreground colour; every cell is drawn on a black background.
#[derive(PartialEq, Eq, Structural, Clone, Copy, Debug)]
pub enum Tint {
    Blue,
    Green,
    Yellow,
    Red,
    Black,
}

/// How a cell is drawn: a symbol, its colour, and whether it blinks.
#[derive(PartialEq, Eq, Structural, Clone, Copy, Debug)]
pub struct Look {
    pub symbol: char,
    pub tint: Tint,
    pub blink: bool,
}

/// One square of the grid: its column `x`, its row `y`, whether it must be
/// redrawn, and what it holds.
#[derive(PartialEq, Eq, Structural, Clone, Copy, Debug)]
pub struct Cell {
    pub x: usize,
    pub y: usize,
    pub changed_flag: bool,
    pub cell_type: CellType,
}

/// The fixed look of each kind of cell.
pub open spec fn look_of(t: CellType) -> Look {
    match t {
        CellType::Wall => Look { symbol: '█', tint: Tint::Blue, blink: false },
        CellType::SnackHead => Look { symbol: '#', tint: Tint::Green, blink: false },
        CellType::SnackBody => Look { symbol: '#', tint: Tint::Yellow, blink: false },
        CellType::Food => Look { symbol: '$', tint: Tint::Red, blink: true },
        CellType::Empty => Look { symbol: '█', tint: Tint::Black, blink: false },
    }
}

impl Cell {
    /// Retypes the cell and marks it for redraw, even when the type is unchanged.
    pub fn set_type(&mut self, t: CellType)
        ensures
            *final(self) == (Cell { changed_flag: true, cell_type: t, ..*old(self) }),
    {
        self.changed_flag = true;
        self.cell_type = t;
    }

    /// The look that this cell is drawn with.
    pub fn cell_style_content(&self) -> (r: Look)
        ensures
            r == look_of(self.cell_type),
    {
        match self.cell_type {
            CellType::Wall => Look { symbol: '█', tint: Tint::Blue, blink: false },
            CellType::SnackHead => Look { symbol: '#', tint: Tint::Green, blink: false },
            CellType::SnackBody => Look { symbol: '#', tint: Tint::Yellow, blink: false },
            CellType::Food => Look { symbol: '$', tint: Tint::Red, blink: true },
            CellType::Empty => Look { symbol: '█', tint: Tint::Black, blink: false },
        }
    }
}

/// Each kind of cell is drawn with a look of its own.
pub proof fn lemma_looks_distinct(a: CellType, b: CellType)
    requires
        a != b,
    ensures
        look_of(a) != look_of(b),
{
}

} // verus!
