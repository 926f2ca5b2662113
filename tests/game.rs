use r_snack::{
    direction_for_key, Cell, CellType, Direction, Game, GameOver, InitError, Look, TickOutcome,
    Tint, TICK_MILLIS,
};

fn fresh() -> Game {
    Game::new(Some((60, 20))).unwrap()
}

fn ty(g: &Game, x: usize, y: usize) -> CellType {
    g.cell_at(x, y).cell_type
}

fn count(g: &Game, t: CellType) -> usize {
    let mut n = 0;
    for x in 0..g.width() {
        for y in 0..g.height() {
            if ty(g, x, y) == t {
                n += 1;
            }
        }
    }
    n
}

fn put_food_at(g: &mut Game, x: usize, y: usize) {
    let empties = g.empty_cells();
    let pick = empties.iter().position(|&p| p == (x, y)).unwrap();
    assert_eq!(g.spawn_food_with(pick), Ok((x, y)));
}

const START_BODY: [(usize, usize); 7] = [(8, 7), (8, 8), (7, 8), (7, 9), (7, 10), (8, 10), (8, 11)];

#[test]
fn construction_lays_out_walls_and_snake() {
    let g = fresh();
    assert_eq!(g.width(), 60);
    assert_eq!(g.height(), 20);
    assert_eq!(g.head(), (9, 7));
    assert_eq!(g.direction(), Direction::Right);
    assert_eq!(g.score(), 0);
    assert_eq!(g.speed(), TICK_MILLIS);
    assert_eq!(g.speed(), 80);
    assert_eq!(g.body().as_slice(), &START_BODY[..]);
    for x in 0..60 {
        for y in 0..20 {
            let c = g.cell_at(x, y);
            assert_eq!((c.x, c.y), (x, y));
            assert!(!c.changed_flag);
            let border = x == 0 || y == 0 || x == 59 || y == 19;
            assert_eq!(c.cell_type == CellType::Wall, border);
        }
    }
    assert_eq!(ty(&g, 9, 7), CellType::SnackHead);
    for &(x, y) in START_BODY.iter() {
        assert_eq!(ty(&g, x, y), CellType::SnackBody);
    }
    assert_eq!(count(&g, CellType::SnackHead), 1);
    assert_eq!(count(&g, CellType::SnackBody), 7);
    assert_eq!(count(&g, CellType::Food), 0);
    assert_eq!(count(&g, CellType::Wall), 2 * 60 + 2 * 18);
}

#[test]
fn construction_errors() {
    assert_eq!(Game::new(None).err(), Some(InitError::SizeUnavailable));
    assert_eq!(Game::new(Some((59, 20))).err(), Some(InitError::TooSmall));
    assert_eq!(Game::new(Some((60, 19))).err(), Some(InitError::TooSmall));
    assert_eq!(Game::new(Some((0, 0))).err(), Some(InitError::TooSmall));
    let g = Game::new(Some((80, 24))).unwrap();
    assert_eq!((g.width(), g.height()), (80, 24));
    assert_eq!(ty(&g, 79, 23), CellType::Wall);
    assert_eq!(ty(&g, 78, 22), CellType::Empty);
}

#[test]
fn normal_move_tick_scenario() {
    let mut g = fresh();
    assert_eq!(g.tick(None), Ok(TickOutcome::Moved));
    assert_eq!(g.head(), (10, 7));
    assert_eq!(ty(&g, 10, 7), CellType::SnackHead);
    assert_eq!(ty(&g, 9, 7), CellType::SnackBody);
    assert_eq!(ty(&g, 8, 11), CellType::Empty);
    assert_eq!(g.score(), 0);
    assert_eq!(g.body().len(), 7);
    assert_eq!(g.body()[0], (9, 7));
    assert_eq!(*g.body().last().unwrap(), (8, 10));
    assert_eq!(count(&g, CellType::SnackBody), 7);
    assert_eq!(count(&g, CellType::SnackHead), 1);
}

#[test]
fn growth_move_tick_scenario() {
    let mut g = fresh();
    put_food_at(&mut g, 10, 7);
    let empty_before = count(&g, CellType::Empty);
    let r = g.tick(None);
    let (fx, fy) = match r {
        Ok(TickOutcome::Ate(fx, fy)) => (fx, fy),
        other => panic!("unexpected {:?}", other),
    };
    assert_eq!(g.score(), 1);
    assert_eq!(g.body().len(), 8);
    assert_eq!(g.head(), (10, 7));
    assert_eq!(ty(&g, 10, 7), CellType::SnackHead);
    assert_eq!(ty(&g, 9, 7), CellType::SnackBody);
    assert_eq!(ty(&g, 8, 11), CellType::SnackBody);
    assert_ne!((fx, fy), (10, 7));
    assert_eq!(ty(&g, fx, fy), CellType::Food);
    assert_eq!(count(&g, CellType::Food), 1);
    assert_eq!(count(&g, CellType::Empty), empty_before - 1);
    assert!(fx > 0 && fx < 59 && fy > 0 && fy < 19);
}

#[test]
fn wall_collision_ends_the_session() {
    let mut g = fresh();
    for _ in 0..49 {
        assert_eq!(g.tick(None), Ok(TickOutcome::Moved));
    }
    assert_eq!(g.head(), (58, 7));
    assert_eq!(g.tick(None), Err(GameOver::HitWall));
    assert_eq!(g.head(), (58, 7));
    assert_eq!(g.direction(), Direction::Right);
    assert_eq!(ty(&g, 59, 7), CellType::Wall);
}

#[test]
fn wall_collision_upwards() {
    let mut g = fresh();
    assert_eq!(g.tick(Some(Direction::Up)), Ok(TickOutcome::Moved));
    for _ in 0..5 {
        assert_eq!(g.tick(None), Ok(TickOutcome::Moved));
    }
    assert_eq!(g.head(), (9, 1));
    assert_eq!(g.tick(None), Err(GameOver::HitWall));
}

#[test]
fn self_collision_ends_the_session() {
    let mut g = fresh();
    assert_eq!(g.tick(Some(Direction::Down)), Ok(TickOutcome::Moved));
    assert_eq!(g.head(), (9, 8));
    assert_eq!(g.tick(Some(Direction::Left)), Err(GameOver::SelfCollision));
    assert_eq!(g.head(), (9, 8));
    assert_eq!(g.direction(), Direction::Left);
}

#[test]
fn turn_left_while_heading_right_is_rejected() {
    let mut g = fresh();
    g.turn_around(Direction::Left);
    assert_eq!(g.direction(), Direction::Right);
    assert_eq!(g.tick(Some(Direction::Left)), Ok(TickOutcome::Moved));
    assert_eq!(g.direction(), Direction::Right);
    assert_eq!(g.head(), (10, 7));
}

#[test]
fn turns_only_on_quarter_turns() {
    let all = [Direction::Left, Direction::Right, Direction::Up, Direction::Down];
    let opposite = |d: Direction| match d {
        Direction::Left => Direction::Right,
        Direction::Right => Direction::Left,
        Direction::Up => Direction::Down,
        Direction::Down => Direction::Up,
    };
    for &start in all.iter() {
        for &req in all.iter() {
            let mut g = fresh();
            if start != Direction::Right {
                g.turn_around(Direction::Up);
                if start != Direction::Up {
                    g.turn_around(if start == Direction::Down { Direction::Left } else { start });
                    if start == Direction::Down {
                        g.turn_around(Direction::Down);
                    }
                }
            }
            assert_eq!(g.direction(), start);
            g.turn_around(req);
            if req == start || req == opposite(start) {
                assert_eq!(g.direction(), start);
            } else {
                assert_eq!(g.direction(), req);
            }
        }
    }
}

#[test]
fn render_all_then_dirty_draws_nothing() {
    let mut g = fresh();
    let all = g.render_all();
    assert_eq!(all.len(), 60 * 20);
    assert_eq!((all[0].x, all[0].y), (0, 0));
    assert_eq!((all[1].x, all[1].y), (0, 1));
    assert_eq!((all[20].x, all[20].y), (1, 0));
    assert!(g.render_only_updated().is_empty());
    assert!(g.render_only_updated().is_empty());
}

#[test]
fn render_dirty_draws_changed_cells_once() {
    let mut g = fresh();
    g.render_all();
    g.tick(None).unwrap();
    let drawn: Vec<(usize, usize, CellType)> =
        g.render_only_updated().iter().map(|c| (c.x, c.y, c.cell_type)).collect();
    assert_eq!(
        drawn,
        vec![
            (8, 11, CellType::Empty),
            (9, 7, CellType::SnackBody),
            (10, 7, CellType::SnackHead),
        ]
    );
    assert!(g.render_only_updated().is_empty());
    assert!(!g.cell_at(9, 7).changed_flag);
}

#[test]
fn set_type_always_marks_for_redraw() {
    let mut c = Cell { x: 3, y: 4, changed_flag: false, cell_type: CellType::Empty };
    c.set_type(CellType::Empty);
    assert_eq!(c, Cell { x: 3, y: 4, changed_flag: true, cell_type: CellType::Empty });
    c.set_type(CellType::Food);
    assert_eq!(c.cell_type, CellType::Food);
    assert!(c.changed_flag);
}

#[test]
fn each_cell_type_has_its_own_look() {
    let types = [CellType::Wall, CellType::SnackHead, CellType::SnackBody, CellType::Food, CellType::Empty];
    let looks: Vec<Look> = types
        .iter()
        .map(|&t| Cell { x: 0, y: 0, changed_flag: false, cell_type: t }.cell_style_content())
        .collect();
    for i in 0..looks.len() {
        for j in 0..looks.len() {
            assert_eq!(i == j, looks[i] == looks[j]);
        }
    }
    assert_eq!(looks[0], Look { symbol: '█', tint: Tint::Blue, blink: false });
    assert_eq!(looks[3], Look { symbol: '$', tint: Tint::Red, blink: true });
    assert_eq!(looks[4].tint, Tint::Black);
}

#[test]
fn keys_map_to_directions() {
    assert_eq!(direction_for_key('a'), Some(Direction::Left));
    assert_eq!(direction_for_key('A'), Some(Direction::Left));
    assert_eq!(direction_for_key('s'), Some(Direction::Down));
    assert_eq!(direction_for_key('S'), Some(Direction::Down));
    assert_eq!(direction_for_key('d'), Some(Direction::Right));
    assert_eq!(direction_for_key('D'), Some(Direction::Right));
    assert_eq!(direction_for_key('w'), Some(Direction::Up));
    assert_eq!(direction_for_key('W'), Some(Direction::Up));
    assert_eq!(direction_for_key('x'), None);
    assert_eq!(direction_for_key(' '), None);
}

#[test]
fn empty_cells_in_grid_order() {
    let g = fresh();
    let e = g.empty_cells();
    assert_eq!(e.len(), 58 * 18 - 8);
    assert_eq!(e[0], (1, 1));
    assert_eq!(e[1], (1, 2));
    assert_eq!(e[18], (2, 1));
    for w in e.windows(2) {
        assert!(w[0].0 * 20 + w[0].1 < w[1].0 * 20 + w[1].1);
    }
    assert!(e.iter().all(|&(x, y)| ty(&g, x, y) == CellType::Empty));
}

#[test]
fn spawn_with_pick_wraps_around() {
    let mut a = fresh();
    let mut b = fresh();
    let n = a.empty_cells().len();
    let pa = a.spawn_food_with(3).unwrap();
    let pb = b.spawn_food_with(n + 3).unwrap();
    assert_eq!(pa, pb);
    assert_eq!(pa, (1, 4));
    assert_eq!(ty(&a, 1, 4), CellType::Food);
    assert!(a.cell_at(1, 4).changed_flag);
    assert_eq!(count(&a, CellType::Food), 1);
}

#[test]
fn no_space_for_food() {
    let mut g = fresh();
    let n = g.empty_cells().len();
    for _ in 0..n {
        assert!(g.spawn_food_with(0).is_ok());
    }
    assert_eq!(count(&g, CellType::Empty), 0);
    assert_eq!(g.spawn_food_with(0), Err(GameOver::NoSpace));
    assert_eq!(g.generate_food(), Err(GameOver::NoSpace));
    assert_eq!(g.tick(None), Err(GameOver::NoSpace));
    assert_eq!(g.head(), (9, 7));
    assert_eq!(g.score(), 0);
    assert_eq!(ty(&g, 10, 7), CellType::Food);
}

#[test]
fn random_food_lands_on_an_empty_cell() {
    let mut spots = Vec::new();
    for _ in 0..20 {
        let mut g = fresh();
        let before = g.empty_cells();
        let p = g.generate_food().unwrap();
        assert!(before.contains(&p));
        assert_eq!(ty(&g, p.0, p.1), CellType::Food);
        assert_eq!(count(&g, CellType::Food), 1);
        spots.push(p);
    }
    assert!(spots.iter().any(|&p| p != spots[0]));
}

#[test]
fn eating_directly_grows_by_one() {
    let mut g = fresh();
    put_food_at(&mut g, 10, 7);
    let f = g.eat_food(10, 7).unwrap();
    assert_eq!(g.score(), 1);
    assert_eq!(g.body().len(), 8);
    assert_eq!(ty(&g, f.0, f.1), CellType::Food);
    g.go(11, 7);
    assert_eq!(g.body().len(), 8);
    assert_eq!(g.score(), 1);
    assert_eq!(g.head(), (11, 7));
    assert_eq!(ty(&g, 8, 11), CellType::Empty);
}

#[test]
fn collision_detection_looks_one_step_ahead() {
    let mut g = fresh();
    assert_eq!(g.collision_detection(), (CellType::Empty, (10, 7)));
    g.turn_around(Direction::Down);
    assert_eq!(g.collision_detection(), (CellType::Empty, (9, 8)));
    g.turn_around(Direction::Left);
    assert_eq!(g.collision_detection(), (CellType::SnackBody, (8, 7)));
}

#[test]
fn build_default_starts_with_one_food() {
    let g = Game::build_default(Some((60, 20))).unwrap();
    assert_eq!(count(&g, CellType::Food), 1);
    assert_eq!(count(&g, CellType::Empty), 58 * 18 - 8 - 1);
    assert_eq!(count(&g, CellType::SnackBody), 7);
    assert_eq!(g.head(), (9, 7));
    assert_eq!(g.score(), 0);
    assert_eq!(Game::build_default(None).err(), Some(InitError::SizeUnavailable));
    assert_eq!(Game::build_default(Some((60, 10))).err(), Some(InitError::TooSmall));
}
