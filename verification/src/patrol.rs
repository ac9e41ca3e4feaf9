//! The patrol: the program of a bot that walks ahead until something is in
//! its way, then turns left or right at random and walks on, and what a
//! bot that runs it alone on a grid does tick by tick.
//!
//! ```text
//! loop            0: jump to 6 if blocked
//!   loop          1: jump to 4 if blocked
//!     step        2: step
//!   endLoop       3: jump to 1
//!   leftOrRight   4: turn left or right
//! endLoop         5: jump to 0
//! left            6: turn left
//! ```

use crate::compiler::{compile_source, parse_tokens, Compiled};
use crate::error::CompileFailure;
use crate::grid::{coin_at, first_at, left_of, right_of, FieldState};
use crate::laws::lemma_lex_joined_keywords;
use crate::lexer::{join_lines, keyword};
use crate::program::{jump_in_range, CommandEnum, OpCodeEnum, ParserStateEnum};
use vstd::prelude::*;

verus! {

/// The lines of the patrol.
pub open spec fn patrol_lines() -> Seq<Seq<char>> {
    seq!["loop"@, "loop"@, "step"@, "endLoop"@, "leftOrRight"@, "endLoop"@, "left"@]
}

/// The source text of the patrol.
pub open spec fn patrol_source() -> Seq<char> {
    join_lines(patrol_lines())
}

/// The tokens of the patrol.
pub open spec fn patrol_tokens() -> Seq<OpCodeEnum> {
    seq![
        OpCodeEnum::LoopStart,
        OpCodeEnum::LoopStart,
        OpCodeEnum::Step,
        OpCodeEnum::LoopEnd,
        OpCodeEnum::TurnRandom,
        OpCodeEnum::LoopEnd,
        OpCodeEnum::TurnLeft,
    ]
}

/// The program of the patrol.
pub open spec fn patrol_program() -> Seq<CommandEnum> {
    seq![
        CommandEnum::GoToNE(6),
        CommandEnum::GoToNE(4),
        CommandEnum::Step,
        CommandEnum::GoTo(1),
        CommandEnum::TurnRandom,
        CommandEnum::GoTo(0),
        CommandEnum::TurnLeft,
    ]
}

/// The tokens of the patrol compile to its program.
pub proof fn lemma_patrol_compiles()
    ensures
        parse_tokens(patrol_tokens(), 0, ParserStateEnum::Root) == Ok::<Compiled, CompileFailure>(
            Compiled { code: patrol_program(), rest: Seq::empty() },
        ),
{
    let t0 = patrol_tokens();
    let t1 = t0.drop_first();
    let t2 = t1.drop_first();
    let t3 = t2.drop_first();
    let t4 = t3.drop_first();
    let t5 = t4.drop_first();
    let t6 = t5.drop_first();
    let t7 = t6.drop_first();
    assert(t7 =~= Seq::<OpCodeEnum>::empty());
    let last = parse_tokens(t6, 6, ParserStateEnum::Root);
    assert(parse_tokens(t7, 7, ParserStateEnum::Root) is Ok);
    assert(last is Ok && last->Ok_0.code =~= seq![CommandEnum::TurnLeft] && last->Ok_0.rest == t7);
    let outer_end = parse_tokens(t5, 5, ParserStateEnum::Loop);
    assert(outer_end is Ok && outer_end->Ok_0.code =~= Seq::<CommandEnum>::empty()
        && outer_end->Ok_0.rest == t6);
    let turn = parse_tokens(t4, 4, ParserStateEnum::Loop);
    assert(turn is Ok && turn->Ok_0.code =~= seq![CommandEnum::TurnRandom] && turn->Ok_0.rest
        == t6);
    let inner_end = parse_tokens(t3, 3, ParserStateEnum::Loop);
    assert(inner_end is Ok && inner_end->Ok_0.code =~= Seq::<CommandEnum>::empty()
        && inner_end->Ok_0.rest == t4);
    let inner = parse_tokens(t2, 2, ParserStateEnum::Loop);
    assert(inner is Ok && inner->Ok_0.code =~= seq![CommandEnum::Step] && inner->Ok_0.rest == t4);
    let outer = parse_tokens(t1, 1, ParserStateEnum::Loop);
    assert(outer is Ok && outer->Ok_0.rest == t6 && outer->Ok_0.code =~= seq![
        CommandEnum::GoToNE(4),
        CommandEnum::Step,
        CommandEnum::GoTo(1),
        CommandEnum::TurnRandom,
    ]);
    let all = parse_tokens(t0, 0, ParserStateEnum::Root);
    assert(all is Ok && all->Ok_0.rest == t7 && all->Ok_0.code =~= patrol_program());
}

/// The source text of the patrol is the text that one would write.
pub proof fn lemma_patrol_source()
    ensures
        patrol_source() == "loop\nloop\nstep\nendLoop\nleftOrRight\nendLoop\nleft"@,
{
    reveal_strlit("loop\nloop\nstep\nendLoop\nleftOrRight\nendLoop\nleft");
    reveal_strlit("step");
    reveal_strlit("left");
    reveal_strlit("leftOrRight");
    reveal_strlit("loop");
    reveal_strlit("endLoop");
    let l0 = patrol_lines();
    let l1 = l0.drop_first();
    let l2 = l1.drop_first();
    let l3 = l2.drop_first();
    let l4 = l3.drop_first();
    let l5 = l4.drop_first();
    let l6 = l5.drop_first();
    assert(join_lines(l6) =~= "left"@);
    assert(join_lines(l5) =~= "endLoop"@ + seq!['\n'] + join_lines(l6));
    assert(join_lines(l4) =~= "leftOrRight"@ + seq!['\n'] + join_lines(l5));
    assert(join_lines(l3) =~= "endLoop"@ + seq!['\n'] + join_lines(l4));
    assert(join_lines(l2) =~= "step"@ + seq!['\n'] + join_lines(l3));
    assert(join_lines(l1) =~= "loop"@ + seq!['\n'] + join_lines(l2));
    assert(join_lines(l0) =~= "loop"@ + seq!['\n'] + join_lines(l1));
    assert(join_lines(l0) =~= "loop\nloop\nstep\nendLoop\nleftOrRight\nendLoop\nleft"@);
}

/// The source text of the patrol compiles to its program.
pub proof fn lemma_patrol_source_compiles()
    ensures
        compile_source(patrol_source()) == Ok::<Seq<CommandEnum>, CompileFailure>(patrol_program()),
{
    reveal_strlit("if");
    reveal_strlit("endIf");
    reveal_strlit("step");
    reveal_strlit("left");
    reveal_strlit("right");
    reveal_strlit("leftOrRight");
    reveal_strlit("loop");
    reveal_strlit("endLoop");
    let lines = patrol_lines();
    assert("if"@.len() == 2 && "endIf"@.len() == 5 && "right"@.len() == 5);
    assert("step"@.len() == 4 && "step"@[0] == 's');
    assert("left"@.len() == 4 && "left"@[0] == 'l' && "left"@[1] == 'e');
    assert("loop"@.len() == 4 && "loop"@[0] == 'l' && "loop"@[1] == 'o');
    assert("leftOrRight"@.len() == 11 && "endLoop"@.len() == 7);
    assert(keyword("loop"@) == Some(OpCodeEnum::LoopStart));
    assert(keyword("step"@) == Some(OpCodeEnum::Step));
    assert(keyword("endLoop"@) == Some(OpCodeEnum::LoopEnd));
    assert(keyword("leftOrRight"@) == Some(OpCodeEnum::TurnRandom));
    assert(keyword("left"@) == Some(OpCodeEnum::TurnLeft));
    lemma_lex_joined_keywords(lines);
    assert(Seq::new(lines.len(), |i: int| keyword(lines[i])->0) =~= patrol_tokens());
    lemma_patrol_compiles();
}

/// One bot runs the patrol alone on the grid, on a cell of the grid. When
/// it is about to step, the cell ahead is free; when it is about to turn,
/// the cell ahead is not.
pub open spec fn patrolling(state: FieldState) -> bool {
    let bot = state.bots[0];
    &&& state.bots.len() == 1
    &&& bot.bot.program == patrol_program()
    &&& bot.bot.pointer <= 7
    &&& state.in_bounds(bot.x, bot.y)
    &&& (bot.bot.pointer == 2 ==> state.can_step(bot))
    &&& (bot.bot.pointer == 4 || bot.bot.pointer == 6 ==> !state.can_step(bot))
}

/// The program state of a patrolling bot is well formed, so that the
/// ticks of the grid can go on.
pub proof fn lemma_patrolling_is_wf(state: FieldState)
    requires
        patrolling(state),
    ensures
        state.wf(),
{
    let program = patrol_program();
    assert forall|i: int| 0 <= i < program.len() implies jump_in_range(program, i) by {
        if i == 0 {
        } else if i == 1 {
        } else if i == 2 {
        } else if i == 3 {
        } else if i == 4 {
        } else if i == 5 {
        } else {
        }
    }
}

/// However long the grid runs, and whatever the coins, a patrolling bot
/// goes on patrolling, and nothing but the bot changes.
pub proof fn lemma_patrol_runs_on(state: FieldState, ticks: Seq<Seq<bool>>)
    requires
        patrolling(state),
    ensures
        patrolling(state.ticked(ticks)),
        state.ticked(ticks).wf(),
        state.ticked(ticks).walls == state.walls,
        state.ticked(ticks).width == state.width,
        state.ticked(ticks).height == state.height,
    decreases ticks.len(),
{
    if ticks.len() > 0 {
        lemma_patrol_runs_on(state, ticks.drop_last());
        lemma_patrol_tick(state.ticked(ticks.drop_last()), ticks.last());
    }
    lemma_patrolling_is_wf(state.ticked(ticks));
}

/// With one bot on the grid, whether a cell other than the bot's is free
/// is a matter of the walls and of the size of the grid alone.
proof fn lemma_alone(state: FieldState, x: int, y: int)
    requires
        state.bots.len() == 1,
    ensures
        state.is_empty(x, y) <==> state.in_bounds(x, y) && !state.walls.contains((x, y)) && !(
        state.bots[0].x == x && state.bots[0].y == y),
{
    assert(state.bots.drop_first().len() == 0);
    assert(first_at(state.bots.drop_first(), x, y) is None);
}

/// A bot that has just been given the patrol and stands on the grid alone
/// is patrolling: every run of the patrol that begins so is one of which
/// [`lemma_patrol_tick`] speaks.
pub proof fn lemma_patrol_begins(state: FieldState)
    requires
        state.bots.len() == 1,
        state.bots[0].bot.program == patrol_program(),
        state.bots[0].bot.pointer == 0,
        state.in_bounds(state.bots[0].x, state.bots[0].y),
    ensures
        patrolling(state),
{
}

/// One tick of the grid with a patrolling bot.
///
/// The bot goes on patrolling, and nothing but the bot changes. In this
/// tick the bot does one of three things. About to step, it moves to the
/// cell ahead: the step is never cut short at the edge of the grid or by
/// a wall. About to turn, it turns a quarter on its cell, and the cell
/// ahead was not free: a random turn goes by the coin, the turn at the end
/// of the program goes left. Otherwise it stays as it is.
pub proof fn lemma_patrol_tick(state: FieldState, coins: Seq<bool>)
    requires
        patrolling(state),
    ensures
        patrolling(state.stepped(coins)),
        state.stepped(coins).walls == state.walls,
        state.stepped(coins).width == state.width,
        state.stepped(coins).height == state.height,
        ({
            let before = state.bots[0];
            let after = state.stepped(coins).bots[0];
            if before.bot.pointer == 2 {
                &&& state.can_step(before)
                &&& (after.x, after.y) == before.ahead()
                &&& after.direction == before.direction
            } else if before.bot.pointer == 4 {
                &&& !state.can_step(before)
                &&& (after.x, after.y) == (before.x, before.y)
                &&& after.direction == if coin_at(coins, 0) {
                    right_of(before.direction)
                } else {
                    left_of(before.direction)
                }
            } else if before.bot.pointer == 6 {
                &&& !state.can_step(before)
                &&& (after.x, after.y) == (before.x, before.y)
                &&& after.direction == left_of(before.direction)
            } else {
                &&& (after.x, after.y) == (before.x, before.y)
                &&& after.direction == before.direction
            }
        }),
{
    let before = state.bots[0];
    let coin = coin_at(coins, 0);
    let next = state.bot_step(0, coin);
    assert(state.bots_stepped(0, coins) == state);
    assert(state.stepped(coins) == next) by {
        reveal_with_fuel(FieldState::bots_stepped, 2);
    }
    let after = next.bots[0];
    let ahead = before.ahead();
    lemma_alone(state, ahead.0, ahead.1);
    lemma_alone(next, after.ahead().0, after.ahead().1);
    lemma_alone(state, after.ahead().0, after.ahead().1);
}

/// A patrolling bot that stands at the head of the inner loop with the
/// cell ahead free is one cell further on three ticks later, facing as
/// before and at the head of the inner loop again: while nothing is in
/// its way it advances one cell in three ticks.
pub proof fn lemma_patrol_walks(
    state: FieldState,
    first: Seq<bool>,
    second: Seq<bool>,
    third: Seq<bool>,
)
    requires
        patrolling(state),
        state.bots[0].bot.pointer == 1,
        state.can_step(state.bots[0]),
    ensures
        ({
            let before = state.bots[0];
            let after = state.stepped(first).stepped(second).stepped(third).bots[0];
            &&& after.bot.pointer == 1
            &&& (after.x, after.y) == before.ahead()
            &&& after.direction == before.direction
        }),
{
    let one = state.stepped(first);
    let two = one.stepped(second);
    lemma_patrol_tick(state, first);
    lemma_patrol_pointer(state, first);
    lemma_patrol_tick(one, second);
    lemma_patrol_pointer(one, second);
    lemma_patrol_tick(two, third);
    lemma_patrol_pointer(two, third);
}

/// Where the pointer of a patrolling bot goes in one tick.
pub proof fn lemma_patrol_pointer(state: FieldState, coins: Seq<bool>)
    requires
        patrolling(state),
    ensures
        ({
            let before = state.bots[0];
            let after = state.stepped(coins).bots[0].bot.pointer;
            let free = state.can_step(before);
            after == if before.bot.pointer == 0 {
                if free {
                    1nat
                } else {
                    6nat
                }
            } else if before.bot.pointer == 1 {
                if free {
                    2nat
                } else {
                    4nat
                }
            } else if before.bot.pointer == 3 {
                1nat
            } else if before.bot.pointer == 5 || before.bot.pointer == 7 {
                0nat
            } else {
                before.bot.pointer + 1
            }
        }),
{
    assert(state.bots_stepped(0, coins) == state);
    assert(state.stepped(coins) == state.bot_step(0, coin_at(coins, 0))) by {
        reveal_with_fuel(FieldState::bots_stepped, 2);
    }
}

} // verus!
