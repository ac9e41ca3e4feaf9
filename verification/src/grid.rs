//! The mathematical model of the grid: where the bots and the walls are,
//! what a cell holds, and what one tick does to a bot's placement.

use crate::program::{BotActionEnum, BotState};
use vstd::prelude::*;

verus! {

/// The four directions a bot can face. Turning right goes through them in
/// the order written here, turning left in the opposite order.
#[derive(Debug, PartialEq, Eq, Structural, Clone, Copy)]
pub enum DirectionEnum {
    Up,
    Right,
    Down,
    Left,
}

/// The direction a quarter turn to the right of `direction`.
pub open spec fn right_of(direction: DirectionEnum) -> DirectionEnum {
    match direction {
        DirectionEnum::Up => DirectionEnum::Right,
        DirectionEnum::Right => DirectionEnum::Down,
        DirectionEnum::Down => DirectionEnum::Left,
        DirectionEnum::Left => DirectionEnum::Up,
    }
}

/// The direction a quarter turn to the left of `direction`.
pub open spec fn left_of(direction: DirectionEnum) -> DirectionEnum {
    match direction {
        DirectionEnum::Up => DirectionEnum::Left,
        DirectionEnum::Right => DirectionEnum::Up,
        DirectionEnum::Down => DirectionEnum::Right,
        DirectionEnum::Left => DirectionEnum::Down,
    }
}

/// The model of a bot on the grid: its program state, its cell, the
/// direction it faces and the colour it is drawn in.
pub ghost struct Placement {
    pub bot: BotState,
    pub x: int,
    pub y: int,
    pub direction: DirectionEnum,
    pub color: Seq<char>,
}

/// What a cell shows: a wall, or a bot by its colour.
pub ghost enum CellContent {
    Wall,
    Bot(Seq<char>),
}

impl Placement {
    /// The cell one step ahead in the direction faced. Rows count
    /// downwards: up is towards row 0.
    pub open spec fn ahead(self) -> (int, int) {
        match self.direction {
            DirectionEnum::Up => (self.x, self.y - 1),
            DirectionEnum::Down => (self.x, self.y + 1),
            DirectionEnum::Right => (self.x + 1, self.y),
            DirectionEnum::Left => (self.x - 1, self.y),
        }
    }

    /// The placement after one step ahead on a grid of the given size. A
    /// step that would leave the grid does not happen.
    pub open spec fn advanced(self, width: int, height: int) -> Placement {
        match self.direction {
            DirectionEnum::Up if self.y > 0 => Placement { y: self.y - 1, ..self },
            DirectionEnum::Down if self.y < height - 1 => Placement { y: self.y + 1, ..self },
            DirectionEnum::Right if self.x < width - 1 => Placement { x: self.x + 1, ..self },
            DirectionEnum::Left if self.x > 0 => Placement { x: self.x - 1, ..self },
            _ => self,
        }
    }

    /// The placement after a quarter turn: to the left for a left turn, to
    /// the right for a right turn. Any other action leaves it as it is.
    pub open spec fn turned(self, action: BotActionEnum) -> Placement {
        match action {
            BotActionEnum::TurnLeft => Placement { direction: left_of(self.direction), ..self },
            BotActionEnum::TurnRight => Placement { direction: right_of(self.direction), ..self },
            _ => self,
        }
    }

    /// The placement after `action` has been applied on a grid of the
    /// given size.
    pub open spec fn acted(self, action: BotActionEnum, width: int, height: int) -> Placement {
        match action {
            BotActionEnum::Step => self.advanced(width, height),
            BotActionEnum::Nop => self,
            turn => self.turned(turn),
        }
    }
}

/// The first of `bots` that stands on cell (`x`, `y`).
pub open spec fn first_at(bots: Seq<Placement>, x: int, y: int) -> Option<Placement>
    decreases bots.len(),
{
    if bots.len() == 0 {
        None
    } else if bots[0].x == x && bots[0].y == y {
        Some(bots[0])
    } else {
        first_at(bots.drop_first(), x, y)
    }
}

/// The coin for the bot with the given number. Where `coins` holds no
/// coin for a bot, the bot's coin is `false`.
pub open spec fn coin_at(coins: Seq<bool>, index: int) -> bool {
    0 <= index < coins.len() && coins[index]
}

/// The model of the grid.
pub ghost struct FieldState {
    pub width: int,
    pub height: int,
    pub walls: Set<(int, int)>,
    pub bots: Seq<Placement>,
}

impl FieldState {
    /// Every bot's program state is well formed.
    pub open spec fn wf(self) -> bool {
        forall|i: int| 0 <= i < self.bots.len() ==> (#[trigger] self.bots[i]).bot.wf()
    }

    /// Cell (`x`, `y`) lies on the grid.
    pub open spec fn in_bounds(self, x: int, y: int) -> bool {
        0 <= x < self.width && 0 <= y < self.height
    }

    /// What cell (`x`, `y`) shows. A bot hides a wall, and of several bots
    /// on one cell the one added first shows.
    pub open spec fn cell(self, x: int, y: int) -> Option<CellContent> {
        match first_at(self.bots, x, y) {
            Some(placement) => Some(CellContent::Bot(placement.color)),
            None => if self.walls.contains((x, y)) {
                Some(CellContent::Wall)
            } else {
                None
            },
        }
    }

    /// Cell (`x`, `y`) lies on the grid and holds neither a wall nor a bot.
    pub open spec fn is_empty(self, x: int, y: int) -> bool {
        self.in_bounds(x, y) && self.cell(x, y) is None
    }

    /// Whether a bot placed as `placement` can advance: the cell ahead lies
    /// on the grid and holds neither a wall nor a bot.
    pub open spec fn can_step(self, placement: Placement) -> bool {
        self.is_empty(placement.ahead().0, placement.ahead().1)
    }

    /// The grid after bot `index` has run one tick, with `coin` deciding a
    /// random turn. The bot sees the grid as it is now, runs one
    /// instruction, and its action is applied to its placement.
    pub open spec fn bot_step(self, index: int, coin: bool) -> FieldState {
        let placement = self.bots[index];
        let (bot, action) = placement.bot.step(self.can_step(placement), coin);
        let stepped = Placement { bot, ..placement }.acted(action, self.width, self.height);
        FieldState { bots: self.bots.update(index, stepped), ..self }
    }

    /// The grid after the first `count` bots have run one tick each, in
    /// the order in which they were added, bot `i` with the coin at `i` of
    /// `coins`. Each bot sees the moves of those before it.
    pub open spec fn bots_stepped(self, count: nat, coins: Seq<bool>) -> FieldState
        decreases count,
    {
        if count == 0 {
            self
        } else {
            self.bots_stepped((count - 1) as nat, coins).bot_step(
                count - 1,
                coin_at(coins, count - 1),
            )
        }
    }

    /// The grid after one tick of every bot.
    pub open spec fn stepped(self, coins: Seq<bool>) -> FieldState {
        self.bots_stepped(self.bots.len(), coins)
    }

    /// The grid after one tick of every bot for each of `ticks`, in order.
    /// Each tick has coins of its own.
    pub open spec fn ticked(self, ticks: Seq<Seq<bool>>) -> FieldState
        decreases ticks.len(),
    {
        if ticks.len() == 0 {
            self
        } else {
            self.ticked(ticks.drop_last()).stepped(ticks.last())
        }
    }

    /// The grid with the wall on cell (`x`, `y`) put up if there is none
    /// and taken down if there is one.
    pub open spec fn wall_toggled(self, x: int, y: int) -> FieldState {
        FieldState {
            walls: if self.walls.contains((x, y)) {
                self.walls.remove((x, y))
            } else {
                self.walls.insert((x, y))
            },
            ..self
        }
    }

    /// The grid with one more bot, added behind those that are there.
    pub open spec fn bot_added(self, placement: Placement) -> FieldState {
        FieldState { bots: self.bots.push(placement), ..self }
    }

    /// The number of empty cells among the first `upto` cells of row `y`.
    pub open spec fn empty_in_row(self, y: int, upto: int) -> nat
        decreases upto,
    {
        if upto <= 0 {
            0
        } else {
            self.empty_in_row(y, upto - 1) + if self.cell(upto - 1, y) is None {
                1nat
            } else {
                0nat
            }
        }
    }

    /// The number of empty cells in the first `upto` rows.
    pub open spec fn empty_in_rows(self, upto: int) -> nat
        decreases upto,
    {
        if upto <= 0 {
            0
        } else {
            self.empty_in_rows(upto - 1) + self.empty_in_row(upto - 1, self.width)
        }
    }

    /// The number of empty cells on the grid.
    pub open spec fn empty_count(self) -> nat {
        self.empty_in_rows(self.height)
    }

    /// The number of empty cells in front of cell (`x`, `y`), going through
    /// the grid row by row.
    pub open spec fn empty_before(self, x: int, y: int) -> nat {
        self.empty_in_rows(y) + self.empty_in_row(y, x)
    }

    /// The grid with a wall put up on cell (`x`, `y`).
    pub open spec fn wall_added(self, x: int, y: int) -> FieldState {
        FieldState { walls: self.walls.insert((x, y)), ..self }
    }
}

/// The number of walls that a density of `percent` asks for on a grid of
/// the given size: `percent` hundredths of the number of cells, rounded
/// down. A grid without cells and a density that is not positive ask for
/// none.
pub open spec fn wall_target(width: int, height: int, percent: int) -> int {
    if width <= 0 || height <= 0 || percent <= 0 {
        0
    } else {
        width * height * percent / 100
    }
}

/// The direction with the given number: 0 is up, 1 left, 2 down, 3 right.
pub open spec fn direction_numbered(number: int) -> DirectionEnum {
    if number == 0 {
        DirectionEnum::Up
    } else if number == 1 {
        DirectionEnum::Left
    } else if number == 2 {
        DirectionEnum::Down
    } else {
        DirectionEnum::Right
    }
}

/// Stepping the first `count` bots looks at the first `count` coins only.
pub proof fn lemma_bots_stepped_coins(
    state: FieldState,
    count: nat,
    coins: Seq<bool>,
    others: Seq<bool>,
)
    requires
        forall|i: int| 0 <= i < count ==> coin_at(coins, i) == coin_at(others, i),
    ensures
        state.bots_stepped(count, coins) == state.bots_stepped(count, others),
    decreases count,
{
    if count > 0 {
        lemma_bots_stepped_coins(state, (count - 1) as nat, coins, others);
    }
}

/// A row holds no more empty cells than cells, and more of a row holds no
/// fewer empty cells.
pub proof fn lemma_empty_in_row_grows(state: FieldState, y: int, from: int, upto: int)
    requires
        from <= upto,
    ensures
        state.empty_in_row(y, from) <= state.empty_in_row(y, upto),
        state.empty_in_row(y, upto) <= state.empty_in_row(y, from) + (upto - from),
        upto <= 0 ==> state.empty_in_row(y, upto) == 0,
    decreases upto - from,
{
    if from < upto {
        lemma_empty_in_row_grows(state, y, from, upto - 1);
    }
}

/// More rows hold no fewer empty cells, and each row adds at most its
/// width.
pub proof fn lemma_empty_in_rows_grows(state: FieldState, from: int, upto: int)
    requires
        0 <= from <= upto,
    ensures
        state.empty_in_rows(from) <= state.empty_in_rows(upto),
        state.width >= 0 ==> state.empty_in_rows(upto) <= state.empty_in_rows(from) + (upto
            - from) * state.width,
        state.width <= 0 ==> state.empty_in_rows(upto) == 0,
    decreases upto - from,
{
    if from < upto {
        lemma_empty_in_rows_grows(state, from, upto - 1);
        if state.width >= 0 {
            lemma_empty_in_row_grows(state, upto - 1, 0, state.width);
        }
        lemma_empty_in_row_grows(state, upto - 1, state.width, state.width);
        assert((upto - from) * state.width == (upto - 1 - from) * state.width + state.width)
            by (nonlinear_arith);
    } else {
        assert((upto - from) * state.width == 0) by (nonlinear_arith)
            requires
                upto == from,
        ;
        if state.width <= 0 {
            lemma_no_rows_no_cells(state, upto);
        }
    }
}

/// A grid without columns has no empty cell.
pub proof fn lemma_no_rows_no_cells(state: FieldState, upto: int)
    requires
        state.width <= 0,
    ensures
        state.empty_in_rows(upto) == 0,
    decreases upto,
{
    if upto > 0 {
        lemma_no_rows_no_cells(state, upto - 1);
        lemma_empty_in_row_grows(state, upto - 1, state.width, state.width);
    }
}

/// An empty cell is counted: it has fewer empty cells in front of it than
/// the grid has in all.
pub proof fn lemma_empty_cell_is_counted(state: FieldState, x: int, y: int)
    requires
        state.is_empty(x, y),
    ensures
        state.empty_before(x, y) < state.empty_count(),
{
    lemma_empty_in_row_grows(state, y, x + 1, state.width);
    lemma_empty_in_rows_grows(state, y + 1, state.height);
}

/// A grid on which no cell is empty counts no empty cell.
pub proof fn lemma_full_grid_counts_zero(state: FieldState)
    requires
        forall|x: int, y: int| !state.is_empty(x, y),
    ensures
        state.empty_count() == 0,
{
    lemma_full_rows_count_zero(state, state.height);
}

proof fn lemma_full_rows_count_zero(state: FieldState, upto: int)
    requires
        forall|x: int, y: int| !state.is_empty(x, y),
        upto <= state.height,
    ensures
        state.empty_in_rows(upto) == 0,
    decreases upto,
{
    if upto > 0 {
        lemma_full_rows_count_zero(state, upto - 1);
        lemma_full_row_counts_zero(state, upto - 1, state.width);
    }
}

proof fn lemma_full_row_counts_zero(state: FieldState, y: int, upto: int)
    requires
        forall|x: int, y: int| !state.is_empty(x, y),
        0 <= y < state.height,
        upto <= state.width,
    ensures
        state.empty_in_row(y, upto) == 0,
    decreases upto,
{
    if upto > 0 {
        lemma_full_row_counts_zero(state, y, upto - 1);
        assert(!state.is_empty(upto - 1, y));
    }
}

/// A wall on a cell that showed nothing takes one empty cell from the row
/// of that cell, if the row reaches that far, and none from other rows.
pub proof fn lemma_wall_in_row(state: FieldState, x: int, y: int, row: int, upto: int)
    requires
        state.cell(x, y) is None,
    ensures
        state.wall_added(x, y).empty_in_row(row, upto) + (if row == y && 0 <= x < upto {
            1int
        } else {
            0int
        }) == state.empty_in_row(row, upto),
    decreases upto,
{
    if upto > 0 {
        lemma_wall_in_row(state, x, y, row, upto - 1);
    }
}

/// A wall on an empty cell leaves one empty cell fewer.
pub proof fn lemma_wall_takes_one(state: FieldState, x: int, y: int)
    requires
        state.is_empty(x, y),
    ensures
        state.wall_added(x, y).empty_count() + 1 == state.empty_count(),
{
    lemma_wall_in_rows(state, x, y, state.height);
}

proof fn lemma_wall_in_rows(state: FieldState, x: int, y: int, upto: int)
    requires
        state.is_empty(x, y),
    ensures
        state.wall_added(x, y).empty_in_rows(upto) + (if y < upto {
            1int
        } else {
            0int
        }) == state.empty_in_rows(upto),
    decreases upto,
{
    if upto > 0 {
        lemma_wall_in_rows(state, x, y, upto - 1);
        lemma_wall_in_row(state, x, y, upto - 1, state.width);
    }
}

} // verus!
