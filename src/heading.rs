use vstd::prelude::*;

verus! {

/// The snake's direction of travel.
#[derive(PartialEq, Eq, Structural, Clone, Copy, Debug)]
pub enum Direction {
    Left,
    Right,
    Up,
    Down,
}

/// Whether going from `from` to `to` is a quarter turn.
pub open spec fn is_quarter_turn(from: Direction, to: Direction) -> bool {
    match from {
        Direction::Left | Direction::Right => to == Direction::Up || to == Direction::Down,
        Direction::Up | Direction::Down => to == Direction::Left || to == Direction::Right,
    }
}

/// The reverse of a direction.
pub open spec fn opposite(d: Direction) -> Direction {
    match d {
        Direction::Left => Direction::Right,
        Direction::Right => Direction::Left,
        Direction::Up => Direction::Down,
        Direction::Down => Direction::Up,
    }
}

/// The heading kept after a request for `to` while travelling `from`.
pub open spec fn turned(from: Direction, to: Direction) -> Direction {
    if is_quarter_turn(from, to) {
        to
    } else {
        from
    }
}

/// The direction that a key stands for, if any.
pub open spec fn key_direction(c: char) -> Option<Direction> {
    if c == 'a' || c == 'A' {
        Some(Direction::Left)
    } else if c == 's' || c == 'S' {
        Some(Direction::Down)
    } else if c == 'd' || c == 'D' {
        Some(Direction::Right)
    } else if c == 'w' || c == 'W' {
        Some(Direction::Up)
    } else {
        None
    }
}

/// Maps a steering key (a, s, d, w in either case) to its direction.
pub fn direction_for_key(c: char) -> (r: Option<Direction>)
    ensures
        r == key_direction(c),
{
    match c {
        'a' | 'A' => Some(Direction::Left),
        's' | 'S' => Some(Direction::Down),
        'd' | 'D' => Some(Direction::Right),
        'w' | 'W' => Some(Direction::Up),
        _ => None,
    }
}

/// A request for the current heading or its reverse leaves the heading as it was.
pub proof fn lemma_no_reversal(h: Direction, r: Direction)
    requires
        r == h || r == opposite(h),
    ensures
        turned(h, r) == h,
{
}

} // verus!
