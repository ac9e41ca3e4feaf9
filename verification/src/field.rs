//! The grid: the bots on it, the walls, and one tick of the simulation.

use crate::bot::Bot;
use crate::compiler::compile_source;
use crate::grid::{
    direction_numbered, first_at, lemma_bots_stepped_coins, lemma_empty_cell_is_counted,
    lemma_empty_in_rows_grows, lemma_full_grid_counts_zero, lemma_wall_takes_one, wall_target, CellContent, DirectionEnum, FieldState, Placement,
};
use crate::program::{BotActionEnum, BotState};
use crate::random::{random_below, random_rgb_string};
use std::collections::HashSet;
use vstd::prelude::*;

verus! {

broadcast use vstd::std_specs::hash::group_hash_axioms;

/// What a cell shows: a wall, or a bot by its colour.
#[derive(Debug)]
pub enum FieldCellState {
    Wall,
    Bot(String),
}

impl View for FieldCellState {
    type V = CellContent;

    open spec fn view(&self) -> CellContent {
        match self {
            FieldCellState::Wall => CellContent::Wall,
            FieldCellState::Bot(color) => CellContent::Bot(color@),
        }
    }
}

/// The model of what a cell query gave.
pub open spec fn cell_view(state: Option<FieldCellState>) -> Option<CellContent> {
    match state {
        Some(content) => Some(content@),
        None => None,
    }
}

/// A bot on the grid: the bot, its cell, the direction it faces and the
/// colour it is drawn in.
#[derive(Debug)]
pub struct BotWrapper {
    bot: Bot,
    x: i32,
    y: i32,
    direction: DirectionEnum,
    color: String,
}

impl View for BotWrapper {
    type V = Placement;

    closed spec fn view(&self) -> Placement {
        Placement {
            bot: self.bot@,
            x: self.x as int,
            y: self.y as int,
            direction: self.direction,
            color: self.color@,
        }
    }
}

impl BotWrapper {
    /// The bot's program state is well formed.
    pub open spec fn wf(&self) -> bool {
        self@.bot.wf()
    }

    /// Places `bot` on cell (`x`, `y`), facing `direction`, drawn in
    /// `color`.
    pub fn with_color(bot: Bot, x: i32, y: i32, direction: DirectionEnum, color: String) -> (placed:
        Self)
        ensures
            placed@ == (Placement {
                bot: bot@,
                x: x as int,
                y: y as int,
                direction,
                color: color@,
            }),
    {
        BotWrapper { bot, x, y, direction, color }
    }

    /// Places `bot` on cell (`x`, `y`), facing `direction`, drawn in a
    /// colour picked at random.
    pub fn new(bot: Bot, x: i32, y: i32, direction: DirectionEnum) -> (placed: Self)
        ensures
            placed@ == (Placement {
                bot: bot@,
                x: x as int,
                y: y as int,
                direction,
                color: placed@.color,
            }),
    {
        Self::with_color(bot, x, y, direction, random_rgb_string())
    }

    /// The bot.
    pub fn bot(&self) -> (bot: &Bot)
        ensures
            bot@ == self@.bot,
    {
        &self.bot
    }

    /// The column of the bot's cell.
    pub fn x(&self) -> (x: i32)
        ensures
            x == self@.x,
    {
        self.x
    }

    /// The row of the bot's cell.
    pub fn y(&self) -> (y: i32)
        ensures
            y == self@.y,
    {
        self.y
    }

    /// The direction the bot faces.
    pub fn direction(&self) -> (direction: DirectionEnum)
        ensures
            direction == self@.direction,
    {
        self.direction
    }

    /// The colour the bot is drawn in.
    pub fn color(&self) -> (color: &String)
        ensures
            color@ == self@.color,
    {
        &self.color
    }

    /// Moves the bot one cell ahead on a grid of the given size. At the
    /// edge of the grid the bot stays where it is.
    pub fn calc_next_position(&mut self, field_width: i32, field_height: i32)
        ensures
            final(self)@ == old(self)@.advanced(field_width as int, field_height as int),
    {
        match self.direction {
            DirectionEnum::Up => {
                if self.y > 0 {
                    self.y -= 1;
                }
            },
            DirectionEnum::Down => {
                if self.y < field_height && self.y + 1 < field_height {
                    self.y += 1;
                }
            },
            DirectionEnum::Right => {
                if self.x < field_width && self.x + 1 < field_width {
                    self.x += 1;
                }
            },
            DirectionEnum::Left => {
                if self.x > 0 {
                    self.x -= 1;
                }
            },
        }
    }

    /// Turns the bot a quarter turn to the left or to the right.
    pub fn calc_rotate(&mut self, turn_direction: BotActionEnum)
        requires
            turn_direction == BotActionEnum::TurnLeft || turn_direction == BotActionEnum::TurnRight,
        ensures
            final(self)@ == old(self)@.turned(turn_direction),
    {
        self.direction = match turn_direction {
            BotActionEnum::TurnLeft => match self.direction {
                DirectionEnum::Up => DirectionEnum::Left,
                DirectionEnum::Right => DirectionEnum::Up,
                DirectionEnum::Down => DirectionEnum::Right,
                DirectionEnum::Left => DirectionEnum::Down,
            },
            _ => match self.direction {
                DirectionEnum::Up => DirectionEnum::Right,
                DirectionEnum::Right => DirectionEnum::Down,
                DirectionEnum::Down => DirectionEnum::Left,
                DirectionEnum::Left => DirectionEnum::Up,
            },
        };
    }
}

/// The key under which cell (`x`, `y`) is kept in the set of walls. Every
/// cell has a key of its own.
spec fn cell_key(x: int, y: int) -> int {
    x * 0x1_0000_0000 + (y + 0x8000_0000)
}

/// The key of cell (`x`, `y`).
fn key_of(x: i32, y: i32) -> (key: i64)
    ensures
        key == cell_key(x as int, y as int),
{
    (x as i64) * 0x1_0000_0000i64 + ((y as i64) + 0x8000_0000i64)
}

/// The text of the failure to find room for a bot.
pub open spec fn no_room_message() -> Seq<char> {
    "Нет свободной клетки"@
}

/// The direction with the given number.
fn direction_from_index(number: u64) -> (direction: DirectionEnum)
    requires
        number < 4,
    ensures
        direction == direction_numbered(number as int),
{
    if number == 0 {
        DirectionEnum::Up
    } else if number == 1 {
        DirectionEnum::Left
    } else if number == 2 {
        DirectionEnum::Down
    } else {
        DirectionEnum::Right
    }
}

/// One of the four directions, picked at random.
fn get_random_direction() -> (direction: DirectionEnum) {
    direction_from_index(random_below(4))
}

/// The number of walls that a density of `percent` asks for on a grid of
/// the given size.
fn wall_target_of(width: i32, height: i32, percent: i32) -> (target: u128)
    ensures
        target == wall_target(width as int, height as int, percent as int),
{
    if width <= 0 || height <= 0 || percent <= 0 {
        return 0;
    }
    assert(0 < width * height <= 0x7fff_ffff * 0x7fff_ffff) by (nonlinear_arith)
        requires
            0 < width <= 0x7fff_ffff,
            0 < height <= 0x7fff_ffff,
    ;
    let cells: u64 = (width as u64) * (height as u64);
    assert(0 < cells * percent <= 0x3fff_ffff_0000_0001 * 0x7fff_ffff) by (nonlinear_arith)
        requires
            0 < cells <= 0x3fff_ffff_0000_0001,
            0 < percent <= 0x7fff_ffff,
    ;
    (cells as u128) * (percent as u128) / 100
}

/// The grid. It owns the bots, in the order in which they were added, and
/// the set of walls. `width` and `height` may be set freely; a cell lies on
/// the grid if its column is in `0..width` and its row in `0..height`.
pub struct Field {
    pub width: i32,
    pub height: i32,
    walls: HashSet<i64>,
    bots: Vec<BotWrapper>,
}

impl View for Field {
    type V = FieldState;

    closed spec fn view(&self) -> FieldState {
        FieldState {
            width: self.width as int,
            height: self.height as int,
            walls: self.walls_view(),
            bots: self.bots_view(),
        }
    }
}

impl Field {
    /// The cells that hold a wall.
    spec fn walls_view(&self) -> Set<(int, int)> {
        Set::new(
            |cell: (int, int)|
                {
                    &&& i32::MIN <= cell.0 <= i32::MAX
                    &&& i32::MIN <= cell.1 <= i32::MAX
                    &&& self.walls@.contains(cell_key(cell.0, cell.1) as i64)
                },
        )
    }

    /// The bots, in the order in which they were added.
    spec fn bots_view(&self) -> Seq<Placement> {
        self.bots@.map_values(|wrapper: BotWrapper| wrapper@)
    }

    /// Every bot's program state is well formed. This holds of every grid
    /// that the functions of this type have made.
    pub open spec fn wf(&self) -> bool {
        self@.wf()
    }

    /// A grid of ten by ten cells without bots or walls.
    pub fn new() -> (field: Self)
        ensures
            field@ == (FieldState {
                width: 10,
                height: 10,
                walls: Set::empty(),
                bots: Seq::empty(),
            }),
            field.wf(),
    {
        let field = Field { width: 10, height: 10, bots: Vec::new(), walls: HashSet::new() };
        assert(field.walls_view() =~= Set::empty());
        assert(field.bots_view() =~= Seq::empty());
        field
    }

    /// Gives the grid a new size. Bots and walls stay where they are,
    /// also those that the new size leaves outside the grid.
    pub fn set_size(&mut self, width: i32, height: i32)
        ensures
            final(self)@ == (FieldState { width: width as int, height: height as int, ..old(self)@ }),
    {
        self.width = width;
        self.height = height;
    }

    /// The number of columns.
    pub fn get_width(&self) -> (width: i32)
        ensures
            width == self@.width,
    {
        self.width
    }

    /// The number of rows.
    pub fn get_height(&self) -> (height: i32)
        ensures
            height == self@.height,
    {
        self.height
    }

    /// The number of bots on the grid.
    pub fn get_bots_count(&self) -> (count: usize)
        ensures
            count == self@.bots.len(),
    {
        self.bots.len()
    }

    /// The bot that was added as number `index`, counting from 0.
    pub fn get_bot(&self, index: usize) -> (wrapper: Option<&BotWrapper>)
        ensures
            match wrapper {
                Some(found) => index < self@.bots.len() && found@ == self@.bots[index as int],
                None => index >= self@.bots.len(),
            },
    {
        if index < self.bots.len() {
            Some(&self.bots[index])
        } else {
            None
        }
    }

    /// Whether cell (`x`, `y`) holds a wall.
    pub fn has_wall(&self, x: i32, y: i32) -> (found: bool)
        ensures
            found == self@.walls.contains((x as int, y as int)),
    {
        let key = key_of(x, y);
        self.walls.contains(&key)
    }

    /// What cell (`x`, `y`) shows, or `None` if it shows nothing.
    pub fn get_cell_state(&self, x: i32, y: i32) -> (state: Option<FieldCellState>)
        ensures
            cell_view(state) == self@.cell(x as int, y as int),
    {
        let mut i: usize = 0;
        assert(self.bots_view().skip(0) =~= self.bots_view());
        while i < self.bots.len()
            invariant
                i <= self.bots.len(),
                first_at(self.bots_view(), x as int, y as int) == first_at(
                    self.bots_view().skip(i as int),
                    x as int,
                    y as int,
                ),
            decreases self.bots.len() - i,
        {
            let wrapper = &self.bots[i];
            assert(self.bots_view().skip(i as int)[0] == wrapper@);
            if wrapper.x == x && wrapper.y == y {
                return Some(FieldCellState::Bot(wrapper.color.clone()));
            }
            assert(self.bots_view().skip(i as int).drop_first() =~= self.bots_view().skip(i + 1));
            i += 1;
        }
        if self.has_wall(x, y) {
            Some(FieldCellState::Wall)
        } else {
            None
        }
    }

    /// Whether `bot_wrapper` can advance: the cell ahead of it lies on the
    /// grid and shows nothing.
    pub fn calc_can_step(&self, bot_wrapper: &BotWrapper) -> (free: bool)
        ensures
            free == self@.can_step(bot_wrapper@),
    {
        let x = bot_wrapper.x as i64;
        let y = bot_wrapper.y as i64;
        let next_coord: (i64, i64) = match bot_wrapper.direction {
            DirectionEnum::Up => (x, y - 1),
            DirectionEnum::Down => (x, y + 1),
            DirectionEnum::Right => (x + 1, y),
            DirectionEnum::Left => (x - 1, y),
        };
        if next_coord.0 < 0 || next_coord.0 >= self.width as i64 || next_coord.1 < 0
            || next_coord.1 >= self.height as i64 {
            return false;
        }
        self.get_cell_state(next_coord.0 as i32, next_coord.1 as i32).is_none()
    }

    /// Runs one tick of bot `bot_idx`, with the outcome of a random turn
    /// decided by the caller. The bot is told whether it can advance on
    /// the grid as it is now, and its action is applied: a step moves it
    /// one cell ahead and stops at the edge of the grid, a turn turns it,
    /// and anything else leaves it where it is.
    pub fn do_bot_step_with(&mut self, bot_idx: usize, coin: bool) -> (result: Result<(), String>)
        requires
            old(self).wf(),
            bot_idx < old(self)@.bots.len(),
        ensures
            result is Ok,
            final(self)@ == old(self)@.bot_step(bot_idx as int, coin),
            final(self).wf(),
    {
        let bot_can_step = self.calc_can_step(&self.bots[bot_idx]);
        let width = self.width;
        let height = self.height;
        let ghost before = self.bots_view();
        assert(before[bot_idx as int].bot.wf());
        let bot_wrapper = &mut self.bots[bot_idx];
        let step_result = bot_wrapper.bot.do_step_with(bot_can_step, coin);
        match step_result {
            Some(BotActionEnum::Step) => bot_wrapper.calc_next_position(width, height),
            Some(BotActionEnum::Nop) => {},
            Some(turn) => bot_wrapper.calc_rotate(turn),
            None => {
                return Err("End".to_string());
            },
        }
        proof {
            assert(self.bots_view() =~= before.update(
                bot_idx as int,
                old(self)@.bot_step(bot_idx as int, coin).bots[bot_idx as int],
            ));
            assert forall|i: int| 0 <= i < self@.bots.len() implies (#[trigger] self@.bots[i]).bot.wf() by {
                if i != bot_idx {
                    assert(self@.bots[i] == before[i]);
                }
            }
        }
        Ok(())
    }

    /// Runs one tick of bot `bot_idx`. A random turn goes right or left on
    /// a fair coin, so the outcome is one of the two that
    /// [`Field::do_bot_step_with`] can give; for every other instruction
    /// there is one outcome only.
    pub fn do_bot_step(&mut self, bot_idx: usize) -> (result: Result<(), String>)
        requires
            old(self).wf(),
            bot_idx < old(self)@.bots.len(),
        ensures
            result is Ok,
            exists|coin: bool| final(self)@ == #[trigger] old(self)@.bot_step(bot_idx as int, coin),
            !old(self)@.bots[bot_idx as int].bot.awaits_coin() ==> final(self)@ == old(
                self,
            )@.bot_step(bot_idx as int, false),
            final(self).wf(),
    {
        let coin = if self.bots[bot_idx].bot.next_is_random_turn() {
            random_below(2) == 0
        } else {
            false
        };
        self.do_bot_step_with(bot_idx, coin)
    }

    /// Runs one tick of every bot, in the order in which the bots were
    /// added. Each bot sees the grid as the bots before it have left it.
    /// The random turns go right or left on fair coins, so the outcome is
    /// one that [`FieldState::stepped`] gives for some coins.
    pub fn step(&mut self)
        requires
            old(self).wf(),
        ensures
            exists|coins: Seq<bool>|
                coins.len() == old(self)@.bots.len() && final(self)@ == #[trigger] old(
                    self,
                )@.stepped(coins),
            final(self).wf(),
    {
        let count = self.bots.len();
        let ghost mut coins = Seq::<bool>::empty();
        let mut idx: usize = 0;
        while idx < count
            invariant
                self.wf(),
                self@.bots.len() == count,
                count == old(self)@.bots.len(),
                idx <= count,
                coins.len() == idx,
                self@ == old(self)@.bots_stepped(idx as nat, coins),
            decreases count - idx,
        {
            let ghost before = self@;
            let _ = self.do_bot_step(idx);
            proof {
                let coin = choose|coin: bool| self@ == #[trigger] before.bot_step(idx as int, coin);
                lemma_bots_stepped_coins(old(self)@, idx as nat, coins, coins.push(coin));
                coins = coins.push(coin);
            }
            idx += 1;
        }
        assert(self@ == old(self)@.stepped(coins));
    }

    /// Runs one tick of every bot, in the order in which the bots were
    /// added, with the outcomes of the random turns decided by the caller:
    /// bot `i` gets the coin at `i` of `coins`, and `false` if `coins` is
    /// too short to hold one. Each bot sees the grid as the bots before it
    /// have left it.
    pub fn step_with(&mut self, coins: &Vec<bool>)
        requires
            old(self).wf(),
        ensures
            final(self)@ == old(self)@.stepped(coins@),
            final(self).wf(),
    {
        let count = self.bots.len();
        let mut idx: usize = 0;
        while idx < count
            invariant
                self.wf(),
                self@.bots.len() == count,
                count == old(self)@.bots.len(),
                idx <= count,
                self@ == old(self)@.bots_stepped(idx as nat, coins@),
            decreases count - idx,
        {
            let coin = if idx < coins.len() {
                coins[idx]
            } else {
                false
            };
            let _ = self.do_bot_step_with(idx, coin);
            idx += 1;
        }
    }

    /// Puts up a wall on cell (`x`, `y`) if there is none, and takes it
    /// down if there is one. The cell need not lie on the grid.
    pub fn turn_wall(&mut self, x: i32, y: i32)
        ensures
            final(self)@ == old(self)@.wall_toggled(x as int, y as int),
    {
        let key = key_of(x, y);
        if self.walls.contains(&key) {
            self.walls.remove(&key);
        } else {
            self.walls.insert(key);
        }
        assert(self.walls_view() =~= old(self)@.wall_toggled(x as int, y as int).walls);
    }

    /// Adds `bot_wrapper` behind the bots that are on the grid.
    pub fn place_bot(&mut self, bot_wrapper: BotWrapper)
        requires
            old(self).wf(),
            bot_wrapper.wf(),
        ensures
            final(self)@ == old(self)@.bot_added(bot_wrapper@),
            final(self).wf(),
    {
        self.bots.push(bot_wrapper);
        assert(self.bots_view() =~= old(self).bots_view().push(bot_wrapper@));
    }

    /// The number of empty cells on the grid.
    pub fn empty_cell_count(&self) -> (count: u64)
        ensures
            count == self@.empty_count(),
    {
        if self.width <= 0 || self.height <= 0 {
            proof {
                lemma_empty_in_rows_grows(self@, 0, vstd::math::max(self.height as int, 0));
            }
            return 0;
        }
        let mut count: u64 = 0;
        let mut y: i32 = 0;
        while y < self.height
            invariant
                0 < self.width,
                0 <= y <= self.height,
                count == self@.empty_in_rows(y as int),
                count <= y * self.width,
            decreases self.height - y,
        {
            let mut x: i32 = 0;
            let mut in_row: u64 = 0;
            while x < self.width
                invariant
                    0 <= x <= self.width,
                    in_row == self@.empty_in_row(y as int, x as int),
                    in_row <= x,
                decreases self.width - x,
            {
                if self.get_cell_state(x, y).is_none() {
                    in_row += 1;
                }
                x += 1;
            }
            proof {
                assert(y * self.width + self.width == (y + 1) * self.width) by (nonlinear_arith);
                assert((y + 1) * self.width <= 0x7fff_ffff * 0x7fff_ffff) by (nonlinear_arith)
                    requires
                        0 <= y < 0x7fff_ffff,
                        0 <= self.width <= 0x7fff_ffff,
                ;
            }
            count += in_row;
            y += 1;
        }
        count
    }

    /// The empty cell that has `n` empty cells in front of it, going
    /// through the grid row by row, or `None` if the grid has no more than
    /// `n` empty cells.
    pub fn nth_empty_cell(&self, n: u64) -> (cell: Option<(i32, i32)>)
        ensures
            match cell {
                Some((x, y)) => {
                    &&& self@.is_empty(x as int, y as int)
                    &&& self@.empty_before(x as int, y as int) == n
                },
                None => self@.empty_count() <= n,
            },
    {
        if self.width <= 0 || self.height <= 0 {
            proof {
                lemma_empty_in_rows_grows(self@, 0, vstd::math::max(self.height as int, 0));
            }
            return None;
        }
        let mut seen: u64 = 0;
        let mut y: i32 = 0;
        while y < self.height
            invariant
                0 < self.width,
                0 <= y <= self.height,
                seen == self@.empty_in_rows(y as int),
                seen <= n,
            decreases self.height - y,
        {
            let mut x: i32 = 0;
            let ghost above = seen;
            while x < self.width
                invariant
                    0 <= x <= self.width,
                    0 <= y < self.height,
                    above == self@.empty_in_rows(y as int),
                    seen == above + self@.empty_in_row(y as int, x as int),
                    seen <= n,
                decreases self.width - x,
            {
                if self.get_cell_state(x, y).is_none() {
                    if seen == n {
                        return Some((x, y));
                    }
                    seen += 1;
                }
                x += 1;
            }
            y += 1;
        }
        None
    }

    /// An empty cell picked at random, each with the same chance, or
    /// `None` if the grid has no empty cell.
    pub fn get_random_empty_cell(&self) -> (cell: Option<(i32, i32)>)
        ensures
            match cell {
                Some((x, y)) => self@.is_empty(x as int, y as int),
                None => forall|x: int, y: int| !self@.is_empty(x, y),
            },
    {
        let count = self.empty_cell_count();
        if count == 0 {
            proof {
                assert forall|x: int, y: int| !self@.is_empty(x, y) by {
                    if self@.is_empty(x, y) {
                        lemma_empty_cell_is_counted(self@, x, y);
                    }
                }
            }
            return None;
        }
        self.nth_empty_cell(random_below(count))
    }

    /// Compiles `src` and adds a bot that runs it, on an empty cell and
    /// facing a direction that are both picked at random.
    ///
    /// Fails with the message of the failure if `src` does not compile,
    /// and with [`no_room_message`] if the grid has no empty cell. The
    /// grid is then left as it was.
    pub fn add_bot(&mut self, src: String) -> (result: Result<(), String>)
        requires
            old(self).wf(),
        ensures
            final(self).wf(),
            match compile_source(src@) {
                Err(failure) => {
                    &&& result matches Err(text)
                    &&& text@ == failure.message()
                    &&& final(self)@ == old(self)@
                },
                Ok(program) => if old(self)@.empty_count() == 0 {
                    &&& result matches Err(text)
                    &&& text@ == no_room_message()
                    &&& final(self)@ == old(self)@
                } else {
                    &&& result is Ok
                    &&& final(self)@ == old(self)@.bot_added(final(self)@.bots.last())
                    &&& final(self)@.bots.last().bot == BotState::loaded(program)
                    &&& old(self)@.is_empty(final(self)@.bots.last().x, final(self)@.bots.last().y)
                },
            },
    {
        let mut bot = Bot::new();
        match bot.load_from_string(src) {
            Err(text) => {
                return Err(text);
            },
            Ok(()) => {},
        }
        match self.get_random_empty_cell() {
            None => {
                proof {
                    lemma_full_grid_counts_zero(self@);
                }
                Err("Нет свободной клетки".to_string())
            },
            Some((x, y)) => {
                proof {
                    lemma_empty_cell_is_counted(self@, x as int, y as int);
                }
                let direction = get_random_direction();
                let wrapper = BotWrapper::new(bot, x, y, direction);
                self.place_bot(wrapper);
                assert(self@.bots.last() == wrapper@);
                Ok(())
            },
        }
    }

    /// Puts up walls on empty cells picked at random, on `wall_percent`
    /// hundredths of the cells of the grid as [`wall_target`] counts them,
    /// or on all empty cells if those are fewer. Walls that stand stay,
    /// and no bot is walled in on its cell.
    pub fn add_random_wall(&mut self, wall_percent: i32)
        ensures
            final(self)@.bots == old(self)@.bots,
            final(self)@.width == old(self)@.width,
            final(self)@.height == old(self)@.height,
            old(self)@.walls.subset_of(final(self)@.walls),
            forall|x: int, y: int|
                final(self)@.walls.contains((x, y)) && !old(self)@.walls.contains((x, y))
                    ==> old(self)@.is_empty(x, y),
            final(self)@.empty_count() == old(self)@.empty_count() - vstd::math::min(
                wall_target(old(self)@.width, old(self)@.height, wall_percent as int),
                old(self)@.empty_count() as int,
            ),
            wall_target(old(self)@.width, old(self)@.height, wall_percent as int) == 0 || old(
                self,
            )@.empty_count() == 0 ==> final(self)@ == old(self)@,
    {
        let target = wall_target_of(self.width, self.height, wall_percent);
        let mut wall_count = target;
        while wall_count > 0
            invariant_except_break
                self@.empty_count() == old(self)@.empty_count() - (target - wall_count),
            invariant
                wall_count <= target,
                wall_count == target ==> self@ == old(self)@,
                self@.bots == old(self)@.bots,
                self@.width == old(self)@.width,
                self@.height == old(self)@.height,
                old(self)@.walls.subset_of(self@.walls),
                forall|x: int, y: int|
                    self@.walls.contains((x, y)) && !old(self)@.walls.contains((x, y)) ==> old(
                        self,
                    )@.is_empty(x, y),
            ensures
                self@.empty_count() == old(self)@.empty_count() - vstd::math::min(
                    target as int,
                    old(self)@.empty_count() as int,
                ),
                target == 0 || old(self)@.empty_count() == 0 ==> self@ == old(self)@,
            decreases wall_count,
        {
            let ghost before = self@;
            match self.get_random_empty_cell() {
                None => {
                    proof {
                        lemma_full_grid_counts_zero(self@);
                    }
                    break ;
                },
                Some((x, y)) => {
                    self.walls.insert(key_of(x, y));
                    proof {
                        assert(self.walls_view() =~= before.walls.insert((x as int, y as int)));
                        assert(self@ == before.wall_added(x as int, y as int));
                        lemma_wall_takes_one(before, x as int, y as int);
                    }
                    wall_count -= 1;
                },
            }
        }
    }
}

} // verus!
