use grid_bots::{Bot, BotActionEnum, BotWrapper, DirectionEnum, Field, FieldCellState};

const DEFAULT_BOT: &str = "loop\nloop\nstep\nendLoop\nleftOrRight\nendLoop\nleft";

fn bot_with(src: &str) -> Bot {
    let mut bot = Bot::new();
    assert_eq!(bot.load_from_string(src.to_string()), Ok(()));
    bot
}

fn field_of(width: i32, height: i32) -> Field {
    let mut fld = Field::new();
    fld.width = width;
    fld.height = height;
    fld
}

fn place(fld: &mut Field, src: &str, x: i32, y: i32, direction: DirectionEnum, color: &str) {
    fld.place_bot(BotWrapper::with_color(bot_with(src), x, y, direction, color.to_string()));
}

fn shows(state: Option<FieldCellState>) -> Option<String> {
    match state {
        None => None,
        Some(FieldCellState::Wall) => Some("wall".to_string()),
        Some(FieldCellState::Bot(color)) => Some(color),
    }
}

fn count_walls(fld: &Field) -> usize {
    let mut walls = 0;
    for y in 0..fld.height {
        for x in 0..fld.width {
            if fld.has_wall(x, y) {
                walls += 1;
            }
        }
    }
    walls
}

fn position(fld: &Field, index: usize) -> (i32, i32, DirectionEnum, usize) {
    let wrapper = fld.get_bot(index).unwrap();
    (wrapper.x(), wrapper.y(), wrapper.direction(), wrapper.bot().pointer())
}

#[test]
fn do_test() {
    let mut fld = Field::new();
    fld.width = 3;
    fld.height = 3;
    //fld.add_random_wall(2);
    assert_eq!(fld.add_bot("loop\nloop\nstep\nendLoop\nright\nendLoop".to_string()), Ok(()));
    for _ in 0..20000 {
        fld.step();
        let wrapper = fld.get_bot(0).unwrap();
        assert!(0 <= wrapper.x() && wrapper.x() < 3);
        assert!(0 <= wrapper.y() && wrapper.y() < 3);
        assert!(wrapper.bot().pointer() <= wrapper.bot().program_len());
    }
}

#[test]
fn new_field_is_ten_by_ten_and_empty() {
    let fld = Field::new();
    assert_eq!(fld.width, 10);
    assert_eq!(fld.height, 10);
    assert_eq!(fld.get_width(), 10);
    assert_eq!(fld.get_height(), 10);
    assert_eq!(fld.get_bots_count(), 0);
    assert_eq!(fld.empty_cell_count(), 100);
    for y in 0..10 {
        for x in 0..10 {
            assert!(fld.get_cell_state(x, y).is_none());
        }
    }
}

#[test]
fn set_size_changes_the_size_only() {
    let mut fld = Field::new();
    fld.turn_wall(7, 7);
    fld.set_size(4, 5);
    assert_eq!(fld.width, 4);
    assert_eq!(fld.height, 5);
    assert_eq!(fld.empty_cell_count(), 20);
    assert!(fld.has_wall(7, 7));
}

#[test]
fn turn_wall_toggles() {
    let mut fld = field_of(3, 3);
    assert!(!fld.has_wall(1, 2));
    fld.turn_wall(1, 2);
    assert!(fld.has_wall(1, 2));
    assert!(!fld.has_wall(2, 1));
    assert_eq!(shows(fld.get_cell_state(1, 2)), Some("wall".to_string()));
    assert_eq!(fld.empty_cell_count(), 8);
    fld.turn_wall(1, 2);
    assert!(!fld.has_wall(1, 2));
    assert_eq!(shows(fld.get_cell_state(1, 2)), None);
    assert_eq!(fld.empty_cell_count(), 9);
}

#[test]
fn walls_keep_their_cells_apart() {
    let mut fld = field_of(3, 3);
    fld.turn_wall(0, 1);
    fld.turn_wall(-1, 0);
    fld.turn_wall(i32::MAX, i32::MIN);
    fld.turn_wall(i32::MIN, i32::MAX);
    assert!(fld.has_wall(0, 1));
    assert!(fld.has_wall(-1, 0));
    assert!(fld.has_wall(i32::MAX, i32::MIN));
    assert!(fld.has_wall(i32::MIN, i32::MAX));
    assert!(!fld.has_wall(1, 0));
    assert!(!fld.has_wall(0, -1));
    assert!(!fld.has_wall(0, 0));
    assert!(!fld.has_wall(i32::MIN, i32::MIN));
    assert!(!fld.has_wall(i32::MAX, i32::MAX));
    assert!(!fld.has_wall(-1, 1));
    assert!(!fld.has_wall(1, -1));
    fld.turn_wall(-1, 0);
    assert!(!fld.has_wall(-1, 0));
    assert!(fld.has_wall(0, 1));
}

#[test]
fn cell_state_is_the_same_when_asked_again() {
    let mut fld = field_of(3, 3);
    fld.turn_wall(1, 1);
    place(&mut fld, "step", 2, 0, DirectionEnum::Up, "red");
    for y in -1..4 {
        for x in -1..4 {
            let first = shows(fld.get_cell_state(x, y));
            let second = shows(fld.get_cell_state(x, y));
            assert_eq!(first, second);
        }
    }
    assert_eq!(shows(fld.get_cell_state(1, 1)), Some("wall".to_string()));
    assert_eq!(shows(fld.get_cell_state(2, 0)), Some("red".to_string()));
    assert_eq!(shows(fld.get_cell_state(0, 0)), None);
}

#[test]
fn bot_shows_in_front_of_a_wall_and_first_bot_wins() {
    let mut fld = field_of(3, 3);
    fld.turn_wall(1, 1);
    place(&mut fld, "step", 1, 1, DirectionEnum::Up, "red");
    place(&mut fld, "step", 1, 1, DirectionEnum::Up, "blue");
    place(&mut fld, "step", 0, 1, DirectionEnum::Up, "green");
    assert_eq!(fld.get_bots_count(), 3);
    assert_eq!(shows(fld.get_cell_state(1, 1)), Some("red".to_string()));
    assert_eq!(shows(fld.get_cell_state(0, 1)), Some("green".to_string()));
    assert_eq!(shows(fld.get_cell_state(1, 0)), None);
}

#[test]
fn wrapper_holds_what_it_was_given() {
    let wrapper = BotWrapper::with_color(bot_with("left"), 4, -2, DirectionEnum::Down, "c".to_string());
    assert_eq!(wrapper.x(), 4);
    assert_eq!(wrapper.y(), -2);
    assert_eq!(wrapper.direction(), DirectionEnum::Down);
    assert_eq!(wrapper.color(), "c");
    assert_eq!(wrapper.bot().program_len(), 1);
    let random = BotWrapper::new(bot_with("left\nright"), 1, 2, DirectionEnum::Left);
    assert_eq!(random.x(), 1);
    assert_eq!(random.y(), 2);
    assert_eq!(random.direction(), DirectionEnum::Left);
    assert_eq!(random.bot().program_len(), 2);
    assert!(random.color().starts_with("rgb("));
}

#[test]
fn rotate_goes_round_the_four_directions() {
    let mut wrapper = BotWrapper::with_color(Bot::new(), 0, 0, DirectionEnum::Up, String::new());
    for expected in [DirectionEnum::Right, DirectionEnum::Down, DirectionEnum::Left, DirectionEnum::Up] {
        wrapper.calc_rotate(BotActionEnum::TurnRight);
        assert_eq!(wrapper.direction(), expected);
    }
    for expected in [DirectionEnum::Left, DirectionEnum::Down, DirectionEnum::Right, DirectionEnum::Up] {
        wrapper.calc_rotate(BotActionEnum::TurnLeft);
        assert_eq!(wrapper.direction(), expected);
    }
    assert_eq!((wrapper.x(), wrapper.y()), (0, 0));
}

#[test]
fn next_position_moves_one_cell_and_stops_at_the_edge() {
    let cases = [
        (1, 1, DirectionEnum::Up, 1, 0),
        (1, 1, DirectionEnum::Down, 1, 2),
        (1, 1, DirectionEnum::Left, 0, 1),
        (1, 1, DirectionEnum::Right, 2, 1),
        (1, 0, DirectionEnum::Up, 1, 0),
        (1, 2, DirectionEnum::Down, 1, 2),
        (0, 1, DirectionEnum::Left, 0, 1),
        (2, 1, DirectionEnum::Right, 2, 1),
    ];
    for (x, y, direction, to_x, to_y) in cases {
        let mut wrapper = BotWrapper::with_color(Bot::new(), x, y, direction, String::new());
        wrapper.calc_next_position(3, 3);
        assert_eq!((wrapper.x(), wrapper.y()), (to_x, to_y));
        assert_eq!(wrapper.direction(), direction);
    }
    let mut far = BotWrapper::with_color(Bot::new(), i32::MAX, i32::MAX, DirectionEnum::Down, String::new());
    far.calc_next_position(i32::MIN, i32::MIN);
    assert_eq!((far.x(), far.y()), (i32::MAX, i32::MAX));
}

#[test]
fn can_step_looks_at_edge_walls_and_bots() {
    let mut fld = field_of(3, 3);
    fld.turn_wall(1, 0);
    place(&mut fld, "step", 1, 1, DirectionEnum::Up, "a");
    place(&mut fld, "step", 0, 1, DirectionEnum::Right, "b");
    place(&mut fld, "step", 2, 2, DirectionEnum::Right, "c");
    place(&mut fld, "step", 2, 2, DirectionEnum::Down, "d");
    place(&mut fld, "step", 2, 2, DirectionEnum::Left, "e");
    place(&mut fld, "step", 0, 0, DirectionEnum::Up, "f");
    place(&mut fld, "step", 0, 0, DirectionEnum::Left, "g");
    let expected = [false, false, false, false, true, false, false];
    for (index, free) in expected.iter().enumerate() {
        assert_eq!(fld.calc_can_step(fld.get_bot(index).unwrap()), *free, "bot {}", index);
    }
    let outside = BotWrapper::with_color(Bot::new(), -1, 2, DirectionEnum::Right, String::new());
    assert!(fld.calc_can_step(&outside));
    let edge = BotWrapper::with_color(Bot::new(), i32::MAX, i32::MIN, DirectionEnum::Right, String::new());
    assert!(!fld.calc_can_step(&edge));
}

#[test]
fn bot_step_applies_the_action() {
    let mut fld = field_of(3, 3);
    place(&mut fld, "step\nleft\nright\nleftOrRight\nleftOrRight", 0, 0, DirectionEnum::Right, "a");
    assert_eq!(fld.do_bot_step_with(0, false), Ok(()));
    assert_eq!(position(&fld, 0), (1, 0, DirectionEnum::Right, 1));
    assert_eq!(fld.do_bot_step_with(0, false), Ok(()));
    assert_eq!(position(&fld, 0), (1, 0, DirectionEnum::Up, 2));
    assert_eq!(fld.do_bot_step_with(0, false), Ok(()));
    assert_eq!(position(&fld, 0), (1, 0, DirectionEnum::Right, 3));
    assert_eq!(fld.do_bot_step_with(0, true), Ok(()));
    assert_eq!(position(&fld, 0), (1, 0, DirectionEnum::Down, 4));
    assert_eq!(fld.do_bot_step_with(0, false), Ok(()));
    assert_eq!(position(&fld, 0), (1, 0, DirectionEnum::Right, 5));
    assert_eq!(fld.do_bot_step_with(0, false), Ok(()));
    assert_eq!(position(&fld, 0), (1, 0, DirectionEnum::Right, 0));
}

#[test]
fn step_into_a_wall_still_moves_the_bot() {
    let mut fld = field_of(3, 1);
    fld.turn_wall(1, 0);
    place(&mut fld, "step", 0, 0, DirectionEnum::Right, "a");
    assert_eq!(fld.do_bot_step_with(0, false), Ok(()));
    assert_eq!(position(&fld, 0), (1, 0, DirectionEnum::Right, 1));
    assert_eq!(shows(fld.get_cell_state(1, 0)), Some("a".to_string()));
}

#[test]
fn step_runs_the_bots_in_the_order_they_were_added() {
    let mut fld = field_of(3, 1);
    place(&mut fld, "if\nstep\nendIf", 1, 0, DirectionEnum::Right, "a");
    place(&mut fld, "if\nstep\nendIf", 0, 0, DirectionEnum::Right, "b");
    fld.step();
    assert_eq!(position(&fld, 0), (1, 0, DirectionEnum::Right, 1));
    assert_eq!(position(&fld, 1), (0, 0, DirectionEnum::Right, 2));
    fld.step();
    assert_eq!(position(&fld, 0), (2, 0, DirectionEnum::Right, 2));
    assert_eq!(position(&fld, 1), (0, 0, DirectionEnum::Right, 0));
    fld.step();
    assert_eq!(position(&fld, 0), (2, 0, DirectionEnum::Right, 0));
    assert_eq!(position(&fld, 1), (0, 0, DirectionEnum::Right, 1));
    fld.step();
    assert_eq!(position(&fld, 0), (2, 0, DirectionEnum::Right, 2));
    assert_eq!(position(&fld, 1), (1, 0, DirectionEnum::Right, 2));
}

#[test]
fn step_with_gives_each_bot_its_coin() {
    let mut fld = field_of(3, 3);
    place(&mut fld, "leftOrRight", 0, 0, DirectionEnum::Up, "a");
    place(&mut fld, "leftOrRight", 1, 1, DirectionEnum::Up, "b");
    place(&mut fld, "step", 2, 2, DirectionEnum::Up, "c");
    fld.step_with(&vec![true, false, true]);
    assert_eq!(position(&fld, 0), (0, 0, DirectionEnum::Right, 1));
    assert_eq!(position(&fld, 1), (1, 1, DirectionEnum::Left, 1));
    assert_eq!(position(&fld, 2), (2, 1, DirectionEnum::Up, 1));
    fld.step_with(&vec![true, true, true]);
    assert_eq!(position(&fld, 0), (0, 0, DirectionEnum::Right, 0));
    assert_eq!(position(&fld, 1), (1, 1, DirectionEnum::Left, 0));
    assert_eq!(position(&fld, 2), (2, 1, DirectionEnum::Up, 0));
    fld.step_with(&vec![false, true]);
    assert_eq!(position(&fld, 0), (0, 0, DirectionEnum::Up, 1));
    assert_eq!(position(&fld, 1), (1, 1, DirectionEnum::Up, 1));
    assert_eq!(position(&fld, 2), (2, 0, DirectionEnum::Up, 1));
}

#[test]
fn step_with_too_few_coins_takes_false_for_the_rest() {
    let mut fld = field_of(3, 3);
    place(&mut fld, "leftOrRight", 0, 0, DirectionEnum::Up, "a");
    place(&mut fld, "leftOrRight", 1, 1, DirectionEnum::Up, "b");
    fld.step_with(&vec![true]);
    assert_eq!(position(&fld, 0), (0, 0, DirectionEnum::Right, 1));
    assert_eq!(position(&fld, 1), (1, 1, DirectionEnum::Left, 1));
    fld.step_with(&vec![]);
    fld.step_with(&vec![]);
    assert_eq!(position(&fld, 0), (0, 0, DirectionEnum::Up, 1));
    assert_eq!(position(&fld, 1), (1, 1, DirectionEnum::Down, 1));
    let mut empty = field_of(3, 3);
    empty.step_with(&vec![true, true]);
    assert_eq!(empty.get_bots_count(), 0);
}

#[test]
fn default_bot_walks_to_the_edge_then_turns() {
    let mut fld = field_of(3, 3);
    place(&mut fld, DEFAULT_BOT, 0, 0, DirectionEnum::Right, "a");
    let trace = [
        (0, 0, DirectionEnum::Right, 1),
        (0, 0, DirectionEnum::Right, 2),
        (1, 0, DirectionEnum::Right, 3),
        (1, 0, DirectionEnum::Right, 1),
        (1, 0, DirectionEnum::Right, 2),
        (2, 0, DirectionEnum::Right, 3),
        (2, 0, DirectionEnum::Right, 1),
        (2, 0, DirectionEnum::Right, 4),
        (2, 0, DirectionEnum::Down, 5),
        (2, 0, DirectionEnum::Down, 0),
        (2, 0, DirectionEnum::Down, 1),
        (2, 0, DirectionEnum::Down, 2),
        (2, 1, DirectionEnum::Down, 3),
    ];
    for expected in trace {
        assert_eq!(fld.do_bot_step_with(0, true), Ok(()));
        assert_eq!(position(&fld, 0), expected);
    }
}

#[test]
fn default_bot_leaves_the_loop_when_it_turns_to_the_edge() {
    let mut fld = field_of(3, 3);
    place(&mut fld, DEFAULT_BOT, 2, 0, DirectionEnum::Right, "a");
    let trace = [
        (2, 0, DirectionEnum::Right, 6),
        (2, 0, DirectionEnum::Up, 7),
        (2, 0, DirectionEnum::Up, 0),
        (2, 0, DirectionEnum::Up, 6),
        (2, 0, DirectionEnum::Left, 7),
        (2, 0, DirectionEnum::Left, 0),
        (2, 0, DirectionEnum::Left, 1),
        (2, 0, DirectionEnum::Left, 2),
        (1, 0, DirectionEnum::Left, 3),
    ];
    for expected in trace {
        assert_eq!(fld.do_bot_step_with(0, false), Ok(()));
        assert_eq!(position(&fld, 0), expected);
    }
}

#[test]
fn default_bot_runs_on_without_leaving_the_grid() {
    let mut fld = field_of(3, 3);
    place(&mut fld, DEFAULT_BOT, 1, 1, DirectionEnum::Up, "a");
    let mut steps = 0;
    let mut turns = 0;
    let mut last = position(&fld, 0);
    for _ in 0..20000 {
        assert_eq!(fld.do_bot_step(0), Ok(()));
        let now = position(&fld, 0);
        assert!(0 <= now.0 && now.0 < 3);
        assert!(0 <= now.1 && now.1 < 3);
        assert!(now.3 <= 7);
        if (now.0, now.1) != (last.0, last.1) {
            assert_eq!((now.0 - last.0).abs() + (now.1 - last.1).abs(), 1);
            assert_eq!(now.2, last.2);
            steps += 1;
        }
        if now.2 != last.2 {
            turns += 1;
        }
        last = now;
    }
    assert!(steps > 0);
    assert!(turns > 0);
}

#[test]
fn default_bot_steps_into_free_cells_and_turns_when_blocked() {
    for (width, height, walls) in [(3, 3, vec![]), (5, 4, vec![(2, 1), (4, 3)]), (1, 1, vec![])] {
        let mut fld = field_of(width, height);
        for (x, y) in walls {
            fld.turn_wall(x, y);
        }
        place(&mut fld, DEFAULT_BOT, 0, 0, DirectionEnum::Down, "a");
        let mut since_step = 0;
        for _ in 0..5000 {
            let before = position(&fld, 0);
            let free = fld.calc_can_step(fld.get_bot(0).unwrap());
            fld.step();
            let after = position(&fld, 0);
            since_step += 1;
            if (after.0, after.1) != (before.0, before.1) {
                assert!(free);
                assert_eq!(before.3, 2);
                assert_eq!(after.2, before.2);
                assert!(since_step >= 3);
                since_step = 0;
            } else if after.2 != before.2 {
                assert!(!free);
                assert!(before.3 == 4 || before.3 == 6);
            }
            if before.3 == 1 && free {
                assert_eq!(after.3, 2);
            }
            assert!(fld.get_cell_state(after.0, after.1).is_some());
            assert!(0 <= after.0 && after.0 < width && 0 <= after.1 && after.1 < height);
        }
    }
}

#[test]
fn default_bot_advances_once_in_three_ticks_while_free() {
    let mut fld = field_of(7, 1);
    place(&mut fld, DEFAULT_BOT, 0, 0, DirectionEnum::Right, "a");
    fld.step();
    assert_eq!(position(&fld, 0), (0, 0, DirectionEnum::Right, 1));
    for x in 1..7 {
        fld.step();
        fld.step();
        assert_eq!(position(&fld, 0), (x, 0, DirectionEnum::Right, 3));
        fld.step();
        assert_eq!(position(&fld, 0), (x, 0, DirectionEnum::Right, 1));
    }
    fld.step();
    assert_eq!(position(&fld, 0), (6, 0, DirectionEnum::Right, 4));
}

#[test]
fn empty_cells_are_counted_row_by_row() {
    let mut fld = field_of(3, 2);
    fld.turn_wall(0, 0);
    fld.turn_wall(2, 1);
    fld.turn_wall(5, 5);
    place(&mut fld, "step", 1, 1, DirectionEnum::Up, "a");
    place(&mut fld, "step", 2, 1, DirectionEnum::Up, "b");
    assert_eq!(fld.empty_cell_count(), 3);
    assert_eq!(fld.nth_empty_cell(0), Some((1, 0)));
    assert_eq!(fld.nth_empty_cell(1), Some((2, 0)));
    assert_eq!(fld.nth_empty_cell(2), Some((0, 1)));
    assert_eq!(fld.nth_empty_cell(3), None);
    assert_eq!(fld.nth_empty_cell(u64::MAX), None);
}

#[test]
fn grid_without_cells_has_no_empty_cell() {
    for (width, height) in [(0, 5), (5, 0), (-3, 5), (5, -3), (-2, -2), (0, 0)] {
        let mut fld = field_of(width, height);
        assert_eq!(fld.empty_cell_count(), 0);
        assert_eq!(fld.nth_empty_cell(0), None);
        assert_eq!(fld.get_random_empty_cell(), None);
        fld.add_random_wall(50);
        assert_eq!(fld.add_bot("step".to_string()), Err("Нет свободной клетки".to_string()));
        assert_eq!(fld.get_bots_count(), 0);
    }
}

#[test]
fn random_empty_cell_is_empty() {
    let mut fld = field_of(4, 4);
    for x in 0..4 {
        fld.turn_wall(x, 1);
    }
    place(&mut fld, "step", 0, 0, DirectionEnum::Up, "a");
    let mut seen = std::collections::HashSet::new();
    for _ in 0..600 {
        let (x, y) = fld.get_random_empty_cell().unwrap();
        assert!(0 <= x && x < 4 && 0 <= y && y < 4);
        assert!(fld.get_cell_state(x, y).is_none());
        seen.insert((x, y));
    }
    assert_eq!(seen.len(), 11);
}

#[test]
fn add_bot_takes_the_only_empty_cell() {
    let mut fld = field_of(2, 2);
    fld.turn_wall(0, 0);
    fld.turn_wall(1, 0);
    fld.turn_wall(1, 1);
    assert_eq!(fld.add_bot(DEFAULT_BOT.to_string()), Ok(()));
    assert_eq!(fld.get_bots_count(), 1);
    let wrapper = fld.get_bot(0).unwrap();
    assert_eq!((wrapper.x(), wrapper.y()), (0, 1));
    assert_eq!(wrapper.bot().program_len(), 7);
    assert_eq!(wrapper.bot().pointer(), 0);
    assert!(wrapper.color().starts_with("rgb("));
    assert!(matches!(fld.get_cell_state(0, 1), Some(FieldCellState::Bot(_))));
    assert_eq!(fld.add_bot("step".to_string()), Err("Нет свободной клетки".to_string()));
    assert_eq!(fld.get_bots_count(), 1);
}

#[test]
fn add_bot_puts_every_bot_on_a_cell_of_its_own() {
    let mut fld = field_of(3, 3);
    fld.turn_wall(1, 1);
    for count in 1..=8 {
        assert_eq!(fld.add_bot("step".to_string()), Ok(()));
        assert_eq!(fld.get_bots_count(), count);
        assert_eq!(fld.empty_cell_count(), 8 - count as u64);
    }
    let mut cells = std::collections::HashSet::new();
    for index in 0..8 {
        let wrapper = fld.get_bot(index).unwrap();
        assert!((wrapper.x(), wrapper.y()) != (1, 1));
        assert!(0 <= wrapper.x() && wrapper.x() < 3 && 0 <= wrapper.y() && wrapper.y() < 3);
        cells.insert((wrapper.x(), wrapper.y()));
    }
    assert_eq!(cells.len(), 8);
    assert!(fld.get_bot(8).is_none());
}

#[test]
fn add_bot_picks_every_direction() {
    let mut fld = field_of(30, 30);
    let mut seen = std::collections::HashSet::new();
    for index in 0..200 {
        assert_eq!(fld.add_bot("step".to_string()), Ok(()));
        seen.insert(format!("{:?}", fld.get_bot(index).unwrap().direction()));
    }
    assert_eq!(seen.len(), 4);
}

#[test]
fn add_bot_with_a_bad_program_leaves_the_grid() {
    let mut fld = field_of(3, 3);
    assert_eq!(fld.add_bot("foo".to_string()), Err("Нет такой комманды: foo".to_string()));
    assert_eq!(
        fld.add_bot("loop\nstep".to_string()),
        Err("Похоже есть if или цикл не закрытый".to_string())
    );
    assert_eq!(fld.add_bot("endLoop".to_string()), Err("Что то не так с циклами и ифами".to_string()));
    assert_eq!(fld.get_bots_count(), 0);
    assert_eq!(fld.empty_cell_count(), 9);
}

#[test]
fn random_walls_follow_the_density() {
    let mut fld = field_of(15, 15);
    fld.add_random_wall(30);
    assert_eq!(count_walls(&fld), 67);
    assert_eq!(fld.empty_cell_count(), 158);
    let mut fld = field_of(10, 10);
    fld.add_random_wall(7);
    assert_eq!(count_walls(&fld), 7);
    let mut fld = field_of(20, 10);
    fld.add_random_wall(1);
    assert_eq!(count_walls(&fld), 2);
    let mut fld = field_of(50, 50);
    fld.add_random_wall(90);
    assert_eq!(count_walls(&fld), 2250);
}

#[test]
fn random_walls_at_full_density_fill_the_grid() {
    let mut fld = Field::new();
    fld.width = 3;
    fld.height = 3;
    fld.add_random_wall(100);
    for y in 0..3 {
        for x in 0..3 {
            assert!(matches!(fld.get_cell_state(x, y), Some(FieldCellState::Wall)));
        }
    }
    assert_eq!(count_walls(&fld), 9);
    assert_eq!(fld.empty_cell_count(), 0);
}

#[test]
fn random_walls_round_down() {
    let mut fld = field_of(3, 3);
    fld.add_random_wall(50);
    assert_eq!(count_walls(&fld), 4);
    let mut fld = field_of(9, 11);
    fld.add_random_wall(50);
    assert_eq!(count_walls(&fld), 49);
    let mut fld = field_of(13, 15);
    fld.add_random_wall(10);
    assert_eq!(count_walls(&fld), 19);
    let mut fld = field_of(3, 3);
    fld.add_random_wall(11);
    assert_eq!(count_walls(&fld), 0);
    fld.add_random_wall(12);
    assert_eq!(count_walls(&fld), 1);
}

#[test]
fn random_walls_count_the_cells_of_the_grid_not_the_empty_ones() {
    let mut fld = field_of(10, 10);
    fld.add_random_wall(20);
    assert_eq!(count_walls(&fld), 20);
    fld.add_random_wall(20);
    assert_eq!(count_walls(&fld), 40);
    fld.add_random_wall(70);
    assert_eq!(count_walls(&fld), 100);
}

#[test]
fn random_walls_without_density_add_nothing() {
    let mut fld = field_of(20, 20);
    fld.add_random_wall(0);
    assert_eq!(count_walls(&fld), 0);
    fld.add_random_wall(-5);
    assert_eq!(count_walls(&fld), 0);
    fld.add_random_wall(i32::MIN);
    assert_eq!(count_walls(&fld), 0);
}

#[test]
fn random_walls_stop_when_the_grid_is_full() {
    let mut fld = field_of(10, 10);
    place(&mut fld, "step", 3, 3, DirectionEnum::Up, "a");
    fld.turn_wall(0, 0);
    fld.add_random_wall(150);
    assert_eq!(count_walls(&fld), 99);
    assert_eq!(fld.empty_cell_count(), 0);
    assert!(!fld.has_wall(3, 3));
    assert_eq!(fld.get_bots_count(), 1);
    fld.add_random_wall(i32::MAX);
    assert_eq!(count_walls(&fld), 99);
}

#[test]
fn random_walls_keep_the_walls_and_spare_the_bots() {
    let mut fld = field_of(10, 10);
    fld.turn_wall(4, 4);
    fld.turn_wall(20, 20);
    place(&mut fld, "step", 5, 5, DirectionEnum::Up, "a");
    fld.add_random_wall(60);
    assert!(fld.has_wall(4, 4));
    assert!(fld.has_wall(20, 20));
    assert!(!fld.has_wall(5, 5));
    assert_eq!(count_walls(&fld), 61);
    assert_eq!(fld.empty_cell_count(), 38);
}

#[test]
fn get_bot_behind_the_last_is_none() {
    let mut fld = field_of(3, 3);
    assert!(fld.get_bot(0).is_none());
    place(&mut fld, "step", 0, 0, DirectionEnum::Up, "a");
    assert!(fld.get_bot(0).is_some());
    assert!(fld.get_bot(1).is_none());
}
