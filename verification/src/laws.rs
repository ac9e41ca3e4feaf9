//! What holds of the library as a whole, proved from the models.

use crate::compiler::{
    compile_source, lemma_compiled_targets_in_range, lemma_parse_consumes, parse_tokens,
    plain_command, Compiled,
};
use crate::error::CompileFailure;
use crate::field::{cell_view, Field, FieldCellState};
use crate::grid::{
    coin_at, first_at, left_of, lemma_empty_in_row_grows, lemma_empty_in_rows_grows, right_of,
    CellContent, DirectionEnum, FieldState, Placement,
};
use crate::lexer::{
    join_lines, keyword, lemma_line_len, lex_lines, lex_source, line_len, source_lines, strip_cr,
};
use crate::nesting::{
    balanced, block_end, block_kind, code_len, is_block, lemma_balanced_compiles, lemma_block_in_parse,
    lemma_code_len_add, lemma_code_len_one, lemma_end_has_start, lemma_parse_balanced_prefix,
    lemma_parse_code_len, lemma_parse_follows_nesting, lemma_plain_in_parse,
    lemma_root_consumes_all, lemma_start_has_end, nesting_failure, used,
};
use crate::program::{
    jump_in_range, jump_target, plain_action, BotActionEnum, BotState, CommandEnum, OpCodeEnum,
    ParserStateEnum, Tick,
};
use vstd::prelude::*;

verus! {

/// One tick keeps the program as it is and a well-formed state well
/// formed: the pointer stays at an instruction or right behind the last.
pub proof fn lemma_step_keeps_wf(state: BotState, can_step: bool, coin: bool)
    requires
        state.wf(),
    ensures
        state.step(can_step, coin).0.program == state.program,
        state.step(can_step, coin).0.wf(),
        state.step(can_step, coin).0.pointer <= state.program.len(),
{
    if state.pointer < state.program.len() {
        assert(jump_in_range(state.program, state.pointer as int));
    }
}

/// With the pointer behind the last instruction, the next tick puts it
/// back to the first and does nothing else.
pub proof fn lemma_step_behind_end_restarts(state: BotState, can_step: bool, coin: bool)
    requires
        state.pointer >= state.program.len(),
    ensures
        state.step(can_step, coin) == (state.at(0), BotActionEnum::Nop),
{
}

/// However a well-formed bot is run, the program stays as it is and the
/// pointer stays at an instruction or right behind the last.
pub proof fn lemma_run_keeps_wf(state: BotState, ticks: Seq<Tick>)
    requires
        state.wf(),
    ensures
        state.run(ticks).program == state.program,
        state.run(ticks).wf(),
        state.run(ticks).pointer <= state.program.len(),
    decreases ticks.len(),
{
    if ticks.len() > 0 {
        lemma_run_keeps_wf(state, ticks.drop_last());
        lemma_step_keeps_wf(
            state.run(ticks.drop_last()),
            ticks.last().can_step,
            ticks.last().coin,
        );
    }
}

/// However a compiled program is run from its start, the pointer stays at
/// an instruction or right behind the last.
pub proof fn lemma_compiled_program_stays_in_range(text: Seq<char>, ticks: Seq<Tick>)
    requires
        compile_source(text) is Ok,
        lex_source(text)->Ok_0.len() <= usize::MAX,
    ensures
        BotState::loaded(compile_source(text)->Ok_0).wf(),
        BotState::loaded(compile_source(text)->Ok_0).run(ticks).pointer <= compile_source(
            text,
        )->Ok_0.len(),
{
    lemma_compiled_targets_in_range(lex_source(text)->Ok_0);
    lemma_run_keeps_wf(BotState::loaded(compile_source(text)->Ok_0), ticks);
}

/// Every tick gives one action.
pub proof fn lemma_actions_len(state: BotState, ticks: Seq<Tick>)
    ensures
        state.actions(ticks).len() == ticks.len(),
    decreases ticks.len(),
{
    if ticks.len() > 0 {
        lemma_actions_len(state, ticks.drop_last());
    }
}

/// A program without jumps, run from its start, gives the action of each
/// of its instructions in turn and ends with the pointer behind the last.
pub proof fn lemma_straight_line_run(program: Seq<CommandEnum>, ticks: Seq<Tick>)
    requires
        forall|i: int| 0 <= i < program.len() ==> jump_target(#[trigger] program[i]) is None,
        ticks.len() <= program.len(),
    ensures
        BotState::loaded(program).run(ticks) == BotState::loaded(program).at(ticks.len()),
        BotState::loaded(program).actions(ticks) == Seq::new(
            ticks.len(),
            |i: int| plain_action(program[i], ticks[i].coin),
        ),
    decreases ticks.len(),
{
    let start = BotState::loaded(program);
    if ticks.len() > 0 {
        let earlier = ticks.drop_last();
        lemma_straight_line_run(program, earlier);
        let k = earlier.len() as int;
        assert(jump_target(program[k]) is None);
        assert(start.actions(ticks) =~= Seq::new(
            ticks.len(),
            |i: int| plain_action(program[i], ticks[i].coin),
        ));
    } else {
        assert(start.actions(ticks) =~= Seq::new(
            ticks.len(),
            |i: int| plain_action(program[i], ticks[i].coin),
        ));
    }
}

/// A program without jumps, run for one tick more than it has
/// instructions, gives the action of each instruction exactly once, then
/// idles for a tick and stands at its start again.
pub proof fn lemma_straight_line_once(program: Seq<CommandEnum>, ticks: Seq<Tick>)
    requires
        forall|i: int| 0 <= i < program.len() ==> jump_target(#[trigger] program[i]) is None,
        ticks.len() == program.len() + 1,
    ensures
        BotState::loaded(program).run(ticks) == BotState::loaded(program),
        BotState::loaded(program).actions(ticks) == Seq::new(
            program.len(),
            |i: int| plain_action(program[i], ticks[i].coin),
        ).push(BotActionEnum::Nop),
{
    let earlier = ticks.drop_last();
    lemma_straight_line_run(program, earlier);
    assert(Seq::new(earlier.len(), |i: int| plain_action(program[i], earlier[i].coin)) =~= Seq::new(
        program.len(),
        |i: int| plain_action(program[i], ticks[i].coin),
    ));
}

/// The first line of a text ends in front of the first line feed, or at
/// the end of the text if it holds none.
pub proof fn lemma_first_line(text: Seq<char>)
    ensures
        line_len(text) <= text.len(),
        forall|k: int| 0 <= k < line_len(text) ==> text[k] != '\n',
        line_len(text) < text.len() ==> text[line_len(text) as int] == '\n',
    decreases text.len(),
{
    if text.len() > 0 && text[0] != '\n' {
        let later = text.drop_first();
        lemma_first_line(later);
        assert forall|k: int| 0 <= k < line_len(text) implies text[k] != '\n' by {
            if k > 0 {
                assert(text[k] == later[k - 1]);
            }
        }
    }
}

/// No line of a text holds a line feed.
pub proof fn lemma_lines_hold_no_line_feed(text: Seq<char>, line: int, at: int)
    requires
        0 <= line < source_lines(text).len(),
        0 <= at < source_lines(text)[line].len(),
    ensures
        source_lines(text)[line][at] != '\n',
    decreases text.len(),
{
    let n = line_len(text);
    lemma_first_line(text);
    if line > 0 {
        let later = text.skip(n as int + 1);
        assert(source_lines(text)[line] == source_lines(later)[line - 1]);
        lemma_lines_hold_no_line_feed(later, line - 1, at);
    } else if n < text.len() {
        let first = text.take(n as int);
        assert(strip_cr(first)[at] == first[at]);
    }
}

/// `line` can stand as a line of a text: it holds no line feed and does
/// not end with a carriage return.
pub open spec fn is_line(line: Seq<char>) -> bool {
    &&& forall|k: int| 0 <= k < line.len() ==> line[k] != '\n'
    &&& !(line.len() > 0 && line.last() == '\r')
}

/// Splitting undoes joining: the lines of a text that was joined from
/// lines are those lines, if the last of them is not empty.
pub proof fn lemma_split_undoes_join(lines: Seq<Seq<char>>)
    requires
        forall|i: int| 0 <= i < lines.len() ==> is_line(#[trigger] lines[i]),
        lines.len() > 0 ==> lines.last().len() > 0,
    ensures
        source_lines(join_lines(lines)) == lines,
        lines.len() > 0 ==> join_lines(lines).len() > 0,
    decreases lines.len(),
{
    if lines.len() == 0 {
        assert(source_lines(join_lines(lines)) =~= lines);
    } else if lines.len() == 1 {
        let only = lines[0];
        assert(is_line(only));
        lemma_line_len(only, only.len());
        assert(source_lines(only) =~= lines);
    } else {
        let first = lines[0];
        let later = lines.drop_first();
        let rest = join_lines(later);
        let text = join_lines(lines);
        assert(is_line(first));
        assert forall|i: int| 0 <= i < later.len() implies is_line(#[trigger] later[i]) by {
            assert(later[i] == lines[i + 1]);
        }
        assert(later.last() == lines.last());
        lemma_split_undoes_join(later);
        assert(text[first.len() as int] == '\n');
        assert forall|k: int| 0 <= k < first.len() implies text[k] != '\n' by {
            assert(text[k] == first[k]);
        }
        lemma_line_len(text, first.len());
        assert(text.take(first.len() as int) =~= first);
        assert(text.skip(first.len() as int + 1) =~= rest);
        assert(seq![first] + later =~= lines);
    }
}

/// Every keyword can stand as a line of a text, and is not empty.
pub proof fn lemma_keyword_is_a_line(line: Seq<char>)
    requires
        keyword(line) is Some,
    ensures
        is_line(line),
        line.len() > 0,
{
    reveal_strlit("if");
    reveal_strlit("endIf");
    reveal_strlit("step");
    reveal_strlit("left");
    reveal_strlit("right");
    reveal_strlit("leftOrRight");
    reveal_strlit("loop");
    reveal_strlit("endLoop");
}

/// Keywords joined to a text give their tokens back, one for each, in
/// order.
pub proof fn lemma_lex_joined_keywords(lines: Seq<Seq<char>>)
    requires
        forall|i: int| 0 <= i < lines.len() ==> keyword(#[trigger] lines[i]) is Some,
    ensures
        lex_source(join_lines(lines)) == Ok::<Seq<OpCodeEnum>, CompileFailure>(
            Seq::new(lines.len(), |i: int| keyword(lines[i])->0),
        ),
{
    assert forall|i: int| 0 <= i < lines.len() implies is_line(#[trigger] lines[i]) by {
        lemma_keyword_is_a_line(lines[i]);
    }
    if lines.len() > 0 {
        lemma_keyword_is_a_line(lines.last());
    }
    lemma_split_undoes_join(lines);
    lemma_lex_keywords(lines);
}

/// Lines that are all keywords give one token each, in order.
pub proof fn lemma_lex_keywords(lines: Seq<Seq<char>>)
    requires
        forall|i: int| 0 <= i < lines.len() ==> keyword(#[trigger] lines[i]) is Some,
    ensures
        lex_lines(lines) == Ok::<Seq<OpCodeEnum>, CompileFailure>(
            Seq::new(lines.len(), |i: int| keyword(lines[i])->0),
        ),
    decreases lines.len(),
{
    let tokens = Seq::new(lines.len(), |i: int| keyword(lines[i])->0);
    if lines.len() > 0 {
        let later = lines.drop_first();
        assert forall|i: int| 0 <= i < later.len() implies keyword(#[trigger] later[i]) is Some by {
            assert(later[i] == lines[i + 1]);
        }
        lemma_lex_keywords(later);
        assert(seq![keyword(lines[0])->0] + Seq::new(later.len(), |i: int| keyword(later[i])->0)
            =~= tokens);
    } else {
        assert(tokens =~= Seq::empty());
    }
}

/// Lexing fails with the first line that is no keyword, whatever comes
/// behind it.
pub proof fn lemma_lex_first_unknown(lines: Seq<Seq<char>>, bad: int)
    requires
        0 <= bad < lines.len(),
        keyword(lines[bad]) is None,
        forall|i: int| 0 <= i < bad ==> keyword(#[trigger] lines[i]) is Some,
    ensures
        lex_lines(lines) == Err::<Seq<OpCodeEnum>, CompileFailure>(
            CompileFailure::UnknownCommand(lines[bad]),
        ),
    decreases lines.len(),
{
    if bad > 0 {
        let later = lines.drop_first();
        assert forall|i: int| 0 <= i < bad - 1 implies keyword(#[trigger] later[i]) is Some by {
            assert(later[i] == lines[i + 1]);
        }
        lemma_lex_first_unknown(later, bad - 1);
    }
}

/// A source text with an unknown line does not compile, and the failure
/// names the first such line.
pub proof fn lemma_unknown_command_fails(text: Seq<char>, bad: int)
    requires
        0 <= bad < source_lines(text).len(),
        keyword(source_lines(text)[bad]) is None,
        forall|i: int| 0 <= i < bad ==> keyword(#[trigger] source_lines(text)[i]) is Some,
    ensures
        compile_source(text) == Err::<Seq<CommandEnum>, CompileFailure>(
            CompileFailure::UnknownCommand(source_lines(text)[bad]),
        ),
{
    lemma_lex_first_unknown(source_lines(text), bad);
}

/// Tokens that are neither the start nor the end of a block compile to
/// one instruction each, in order.
pub proof fn lemma_plain_tokens_compile(tokens: Seq<OpCodeEnum>, ptr: nat)
    requires
        forall|i: int| 0 <= i < tokens.len() ==> plain_command(#[trigger] tokens[i]) is Some,
    ensures
        parse_tokens(tokens, ptr, ParserStateEnum::Root) == Ok::<Compiled, CompileFailure>(
            Compiled {
                code: Seq::new(tokens.len(), |i: int| plain_command(tokens[i])->0),
                rest: Seq::empty(),
            },
        ),
    decreases tokens.len(),
{
    let code = Seq::new(tokens.len(), |i: int| plain_command(tokens[i])->0);
    if tokens.len() > 0 {
        let tail = tokens.drop_first();
        assert forall|i: int| 0 <= i < tail.len() implies plain_command(#[trigger] tail[i]) is Some by {
            assert(tail[i] == tokens[i + 1]);
        }
        lemma_plain_tokens_compile(tail, ptr + 1);
        assert(plain_command(tokens[0]) is Some);
        assert(seq![plain_command(tokens[0])->0] + Seq::new(
            tail.len(),
            |i: int| plain_command(tail[i])->0,
        ) =~= code);
    } else {
        assert(code =~= Seq::empty());
    }
}

/// A source text in which every line is a keyword that neither starts nor
/// ends a block compiles to a program with one instruction for each line,
/// in the order of the lines, and no line of it is empty.
pub proof fn lemma_straight_line_source(text: Seq<char>)
    requires
        forall|i: int|
            0 <= i < source_lines(text).len() ==> {
                &&& keyword(#[trigger] source_lines(text)[i]) matches Some(token)
                &&& plain_command(token) is Some
            },
    ensures
        compile_source(text) matches Ok(program) && {
            &&& program.len() == source_lines(text).len()
            &&& forall|i: int|
                0 <= i < program.len() ==> {
                    &&& #[trigger] program[i] == plain_command(keyword(source_lines(text)[i])->0)->0
                    &&& jump_target(program[i]) is None
                    &&& source_lines(text)[i].len() > 0
                }
        },
{
    let lines = source_lines(text);
    lemma_lex_keywords(lines);
    let tokens = Seq::new(lines.len(), |i: int| keyword(lines[i])->0);
    assert forall|i: int| 0 <= i < tokens.len() implies plain_command(#[trigger] tokens[i]) is Some by {
        assert(keyword(lines[i]) is Some);
    }
    lemma_plain_tokens_compile(tokens, 0);
    let program = compile_source(text)->Ok_0;
    assert forall|i: int| 0 <= i < program.len() implies {
        &&& #[trigger] program[i] == plain_command(keyword(lines[i])->0)->0
        &&& jump_target(program[i]) is None
        &&& lines[i].len() > 0
    } by {
        assert(keyword(lines[i]) is Some);
        lemma_keyword_is_a_line(lines[i]);
    }
}

/// A program has one instruction for each token but the ends of
/// conditionals.
pub proof fn lemma_program_len(tokens: Seq<OpCodeEnum>, ptr: nat)
    ensures
        parse_tokens(tokens, ptr, ParserStateEnum::Root) matches Ok(compiled)
            ==> compiled.code.len() == code_len(tokens),
{
    if let Ok(compiled) = parse_tokens(tokens, ptr, ParserStateEnum::Root) {
        lemma_root_consumes_all(tokens, ptr);
        lemma_parse_code_len(tokens, ptr, ParserStateEnum::Root);
        assert(used(tokens, compiled) =~= tokens);
    }
}

/// Where the first instruction goes decides no more than the jump
/// targets: whether compilation succeeds, how it fails, what is left over
/// and how many instructions come out are the same for every cursor.
#[verifier::rlimit(50)]
pub proof fn lemma_parse_any_cursor(
    tokens: Seq<OpCodeEnum>,
    ptr: nat,
    other: nat,
    state: ParserStateEnum,
)
    ensures
        match parse_tokens(tokens, ptr, state) {
            Ok(compiled) => {
                &&& parse_tokens(tokens, other, state) matches Ok(moved)
                &&& moved.rest == compiled.rest
                &&& moved.code.len() == compiled.code.len()
            },
            Err(failure) => parse_tokens(tokens, other, state) == Err::<Compiled, CompileFailure>(
                failure,
            ),
        },
    decreases tokens.len(),
{
    if tokens.len() > 0 {
        let tail = tokens.drop_first();
        match tokens[0] {
            OpCodeEnum::If => {
                lemma_parse_any_cursor(tail, ptr + 1, other + 1, ParserStateEnum::If);
                if let Ok(body) = parse_tokens(tail, ptr + 1, ParserStateEnum::If) {
                    lemma_parse_consumes(tail, ptr + 1, ParserStateEnum::If);
                    let len = body.code.len();
                    lemma_parse_any_cursor(body.rest, ptr + 1 + len, other + 1 + len, state);
                }
            },
            OpCodeEnum::LoopStart => {
                lemma_parse_any_cursor(tail, ptr + 1, other + 1, ParserStateEnum::Loop);
                if let Ok(body) = parse_tokens(tail, ptr + 1, ParserStateEnum::Loop) {
                    lemma_parse_consumes(tail, ptr + 1, ParserStateEnum::Loop);
                    let len = body.code.len();
                    lemma_parse_any_cursor(body.rest, ptr + len + 2, other + len + 2, state);
                }
            },
            OpCodeEnum::EndIf => {},
            OpCodeEnum::LoopEnd => {},
            _ => {
                lemma_parse_any_cursor(tail, ptr + 1, other + 1, state);
            },
        }
    }
}

/// Whether a source text compiles is a matter of its lines and of the
/// nesting of its blocks. It fails with the first line that is no keyword;
/// if all lines are keywords, it fails with what is wrong with the nesting;
/// and if nothing is, it compiles.
pub proof fn lemma_compile_outcome(text: Seq<char>)
    ensures
        match lex_source(text) {
            Err(failure) => compile_source(text) == Err::<Seq<CommandEnum>, CompileFailure>(failure),
            Ok(tokens) => match nesting_failure(tokens, Seq::empty()) {
                Some(failure) => compile_source(text) == Err::<Seq<CommandEnum>, CompileFailure>(
                    failure,
                ),
                None => compile_source(text) matches Ok(program) && program.len() == code_len(
                    tokens,
                ),
            },
        },
{
    if let Ok(tokens) = lex_source(text) {
        lemma_parse_follows_nesting(tokens, 0, ParserStateEnum::Root, Seq::empty());
        lemma_program_len(tokens, 0);
    }
}

/// In a program that compiles, the instruction of a token that neither
/// starts nor ends a block stands where the token stands among the
/// tokens.
pub proof fn lemma_plain_instruction(tokens: Seq<OpCodeEnum>, ptr: nat, index: int)
    requires
        parse_tokens(tokens, ptr, ParserStateEnum::Root) is Ok,
        0 <= index < tokens.len(),
        plain_command(tokens[index]) is Some,
    ensures
        ({
            let program = parse_tokens(tokens, ptr, ParserStateEnum::Root)->Ok_0.code;
            let at = code_len(tokens.take(index)) as int;
            at < program.len() && program[at] == plain_command(tokens[index])->0
        }),
{
    lemma_root_consumes_all(tokens, ptr);
    lemma_plain_in_parse(tokens, ptr, ParserStateEnum::Root, index);
}

/// In tokens that compile, every start of a block has its end, so that
/// what [`lemma_loop_jumps`] and [`lemma_if_jump`] say holds of every loop
/// and of every conditional.
pub proof fn lemma_every_start_has_end(tokens: Seq<OpCodeEnum>, ptr: nat, open: int) -> (close:
    int)
    requires
        parse_tokens(tokens, ptr, ParserStateEnum::Root) is Ok,
        0 <= open < tokens.len(),
        tokens[open] == OpCodeEnum::If || tokens[open] == OpCodeEnum::LoopStart,
    ensures
        is_block(tokens, open, close),
{
    lemma_root_consumes_all(tokens, ptr);
    lemma_start_has_end(tokens, ptr, ParserStateEnum::Root, open)
}

/// In tokens that compile, every end of a block has its start.
pub proof fn lemma_every_end_has_start(tokens: Seq<OpCodeEnum>, ptr: nat, close: int) -> (open:
    int)
    requires
        parse_tokens(tokens, ptr, ParserStateEnum::Root) is Ok,
        0 <= close < tokens.len(),
        tokens[close] == OpCodeEnum::EndIf || tokens[close] == OpCodeEnum::LoopEnd,
    ensures
        is_block(tokens, open, close),
{
    lemma_root_consumes_all(tokens, ptr);
    lemma_end_has_start(tokens, ptr, ParserStateEnum::Root, close)
}

/// In a program that compiles, a loop of the source, at whatever depth,
/// has become two jumps around its body. The first stands where the
/// loop's start stands among the tokens, is taken when the bot cannot
/// advance, and leads to the instruction right behind the second. The
/// second stands right behind the body and leads back to the first.
///
/// `ptr` is the index in the whole program at which the first of the
/// instructions stands; the targets count from the start of the whole
/// program. For a program of its own `ptr` is 0.
pub proof fn lemma_loop_jumps(tokens: Seq<OpCodeEnum>, ptr: nat, open: int, close: int)
    requires
        ptr + tokens.len() <= usize::MAX,
        parse_tokens(tokens, ptr, ParserStateEnum::Root) is Ok,
        is_block(tokens, open, close),
        tokens[open] == OpCodeEnum::LoopStart,
    ensures
        ({
            let program = parse_tokens(tokens, ptr, ParserStateEnum::Root)->Ok_0.code;
            let head = code_len(tokens.take(open)) as int;
            let body = code_len(tokens.subrange(open + 1, close)) as int;
            &&& head + body + 2 <= program.len()
            &&& program[head] matches CommandEnum::GoToNE(target)
            &&& target == ptr + head + body + 2
            &&& program[head + body + 1] matches CommandEnum::GoTo(back)
            &&& back == ptr + head
        }),
{
    lemma_root_consumes_all(tokens, ptr);
    lemma_parse_consumes(tokens, ptr, ParserStateEnum::Root);
    lemma_block_in_parse(tokens, ptr, ParserStateEnum::Root, open, close);
}

/// In a program that compiles, a conditional of the source, at whatever
/// depth, has become one jump in front of its body. It stands where the
/// conditional's start stands among the tokens, is taken when the bot
/// cannot advance, and leads to the instruction right behind the body:
/// nothing stands between the body and what follows the conditional, so
/// that the conditional is one instruction longer than its body.
///
/// `ptr` is the index in the whole program at which the first of the
/// instructions stands; the target counts from the start of the whole
/// program. For a program of its own `ptr` is 0.
pub proof fn lemma_if_jump(tokens: Seq<OpCodeEnum>, ptr: nat, open: int, close: int)
    requires
        ptr + tokens.len() <= usize::MAX,
        parse_tokens(tokens, ptr, ParserStateEnum::Root) is Ok,
        is_block(tokens, open, close),
        tokens[open] == OpCodeEnum::If,
    ensures
        ({
            let program = parse_tokens(tokens, ptr, ParserStateEnum::Root)->Ok_0.code;
            let head = code_len(tokens.take(open)) as int;
            let body = code_len(tokens.subrange(open + 1, close)) as int;
            &&& head + body + 1 <= program.len()
            &&& program[head] matches CommandEnum::GoToNE(target)
            &&& target == ptr + head + body + 1
            &&& code_len(tokens.take(close + 1)) == head + body + 1
        }),
{
    lemma_root_consumes_all(tokens, ptr);
    lemma_parse_consumes(tokens, ptr, ParserStateEnum::Root);
    lemma_block_in_parse(tokens, ptr, ParserStateEnum::Root, open, close);
    let front = tokens.take(open);
    let inner = tokens.subrange(open + 1, close);
    assert(tokens.take(close + 1) =~= front + seq![tokens[open]] + inner + seq![tokens[close]]);
    lemma_code_len_add(front + seq![tokens[open]] + inner, seq![tokens[close]]);
    lemma_code_len_add(front + seq![tokens[open]], inner);
    lemma_code_len_add(front, seq![tokens[open]]);
    lemma_code_len_one(tokens[open]);
    lemma_code_len_one(tokens[close]);
}

/// Tokens that end inside a block do not compile: behind balanced tokens,
/// the start of a block that is followed by balanced tokens only is never
/// closed. This is so wherever the first instruction goes and inside
/// whatever block the tokens stand.
pub proof fn lemma_unclosed_block_fails(
    front: Seq<OpCodeEnum>,
    opener: OpCodeEnum,
    body: Seq<OpCodeEnum>,
    ptr: nat,
    state: ParserStateEnum,
)
    requires
        balanced(front),
        balanced(body),
        opener == OpCodeEnum::LoopStart || opener == OpCodeEnum::If,
    ensures
        parse_tokens(front + seq![opener] + body, ptr, state) == Err::<Compiled, CompileFailure>(
            CompileFailure::Unterminated,
        ),
{
    let more = seq![opener] + body;
    let kind = block_kind(opener);
    lemma_balanced_compiles(front, ptr);
    let cursor = ptr + parse_tokens(front, ptr, ParserStateEnum::Root)->Ok_0.code.len();
    lemma_parse_balanced_prefix(front, more, ptr, state);
    assert(front + seq![opener] + body =~= front + more);
    assert(more.drop_first() =~= body);
    lemma_balanced_compiles(body, cursor + 1);
    lemma_parse_balanced_prefix(body, Seq::empty(), cursor + 1, kind);
    assert(body + Seq::<OpCodeEnum>::empty() =~= body);
}

/// Behind balanced tokens the end of a block closes the block in which
/// the tokens stand, if it is the end of a block of that kind: compiling
/// stops there, with what the balanced tokens gave, and hands back what
/// follows. Every other end of a block is a failure, whatever follows it:
/// the end of a block of another kind, and any end at the root.
pub proof fn lemma_end_behind_balanced(
    front: Seq<OpCodeEnum>,
    end: OpCodeEnum,
    back: Seq<OpCodeEnum>,
    ptr: nat,
    state: ParserStateEnum,
)
    requires
        balanced(front),
        end == OpCodeEnum::LoopEnd || end == OpCodeEnum::EndIf,
    ensures
        parse_tokens(front, ptr, ParserStateEnum::Root) is Ok,
        parse_tokens(front + seq![end] + back, ptr, state) == if state != ParserStateEnum::Root
            && end == block_end(state) {
            Ok::<Compiled, CompileFailure>(
                Compiled {
                    code: parse_tokens(front, ptr, ParserStateEnum::Root)->Ok_0.code,
                    rest: back,
                },
            )
        } else {
            Err::<Compiled, CompileFailure>(CompileFailure::Mismatched)
        },
{
    let more = seq![end] + back;
    lemma_balanced_compiles(front, ptr);
    let own = parse_tokens(front, ptr, ParserStateEnum::Root)->Ok_0;
    lemma_parse_balanced_prefix(front, more, ptr, state);
    assert(front + seq![end] + back =~= front + more);
    assert(more.drop_first() =~= back);
    assert(own.code + Seq::<CommandEnum>::empty() =~= own.code);
}

/// Tokens with the end of a block where no block is open do not compile:
/// behind balanced tokens the end of a block closes nothing, whatever
/// follows it.
pub proof fn lemma_stray_end_fails(
    front: Seq<OpCodeEnum>,
    end: OpCodeEnum,
    back: Seq<OpCodeEnum>,
)
    requires
        balanced(front),
        end == OpCodeEnum::LoopEnd || end == OpCodeEnum::EndIf,
    ensures
        parse_tokens(front + seq![end] + back, 0, ParserStateEnum::Root) == Err::<
            Compiled,
            CompileFailure,
        >(CompileFailure::Mismatched),
{
    lemma_end_behind_balanced(front, end, back, 0, ParserStateEnum::Root);
}

/// The bot that shows on a cell is one of the bots that stand on it, and
/// none of the bots added before it stands there; and no bot shows only
/// where no bot stands.
pub proof fn lemma_first_bot_shows(bots: Seq<Placement>, x: int, y: int)
    ensures
        match first_at(bots, x, y) {
            Some(shown) => exists|i: int|
                {
                    &&& 0 <= i < bots.len()
                    &&& #[trigger] bots[i] == shown
                    &&& shown.x == x
                    &&& shown.y == y
                    &&& forall|j: int| 0 <= j < i ==> !((#[trigger] bots[j]).x == x && bots[j].y == y)
                },
            None => forall|i: int| 0 <= i < bots.len() ==> !((#[trigger] bots[i]).x == x && bots[i].y == y),
        },
    decreases bots.len(),
{
    if bots.len() > 0 && !(bots[0].x == x && bots[0].y == y) {
        let later = bots.drop_first();
        lemma_first_bot_shows(later, x, y);
        match first_at(later, x, y) {
            Some(shown) => {
                let i = choose|i: int|
                    {
                        &&& 0 <= i < later.len()
                        &&& #[trigger] later[i] == shown
                        &&& shown.x == x
                        &&& shown.y == y
                        &&& forall|j: int|
                            0 <= j < i ==> !((#[trigger] later[j]).x == x && later[j].y == y)
                    };
                assert(bots[i + 1] == shown);
                assert forall|j: int| 0 <= j < i + 1 implies !((#[trigger] bots[j]).x == x
                    && bots[j].y == y) by {
                    if j > 0 {
                        assert(bots[j] == later[j - 1]);
                    }
                }
            },
            None => {
                assert forall|i: int| 0 <= i < bots.len() implies !((#[trigger] bots[i]).x == x
                    && bots[i].y == y) by {
                    if i > 0 {
                        assert(bots[i] == later[i - 1]);
                    }
                }
            },
        }
    } else if bots.len() > 0 {
        assert(bots[0] == first_at(bots, x, y)->0);
    }
}

/// A cell shows a wall exactly if it holds a wall and no bot stands on
/// it, and nothing exactly if it holds neither.
pub proof fn lemma_cell_shows(state: FieldState, x: int, y: int)
    ensures
        state.cell(x, y) == Some(CellContent::Wall) <==> state.walls.contains((x, y)) && forall|
            i: int,
        |
            0 <= i < state.bots.len() ==> !((#[trigger] state.bots[i]).x == x && state.bots[i].y
                == y),
        state.cell(x, y) is None <==> !state.walls.contains((x, y)) && forall|i: int|
            0 <= i < state.bots.len() ==> !((#[trigger] state.bots[i]).x == x && state.bots[i].y
                == y),
{
    lemma_first_bot_shows(state.bots, x, y);
}

/// Going through the grid row by row numbers the empty cells: an empty
/// cell has fewer empty cells in front of it than an empty cell that
/// comes later, so that no two have the same number.
pub proof fn lemma_empty_cells_are_numbered(
    state: FieldState,
    x: int,
    y: int,
    later_x: int,
    later_y: int,
)
    requires
        state.is_empty(x, y),
        state.is_empty(later_x, later_y),
        y < later_y || (y == later_y && x < later_x),
    ensures
        state.empty_before(x, y) < state.empty_before(later_x, later_y),
{
    if y == later_y {
        lemma_empty_in_row_grows(state, y, x + 1, later_x);
    } else {
        lemma_empty_in_row_grows(state, y, x + 1, state.width);
        lemma_empty_in_rows_grows(state, y + 1, later_y);
    }
}

/// Two answers to the question what a cell shows, asked of the same grid,
/// are the same.
pub proof fn lemma_cell_state_repeats(
    field: &Field,
    x: i32,
    y: i32,
    first: Option<FieldCellState>,
    second: Option<FieldCellState>,
)
    requires
        cell_view(first) == field@.cell(x as int, y as int),
        cell_view(second) == field@.cell(x as int, y as int),
    ensures
        cell_view(first) == cell_view(second),
{
}

/// A step on the grid leaves the bot on the grid.
pub proof fn lemma_advanced_stays_on_grid(placement: Placement, width: int, height: int)
    requires
        0 <= placement.x < width,
        0 <= placement.y < height,
    ensures
        0 <= placement.advanced(width, height).x < width,
        0 <= placement.advanced(width, height).y < height,
{
}

/// A left turn undoes a right turn and a right turn a left turn, and four
/// turns to one side come back to where they began.
pub proof fn lemma_turns_cycle(direction: DirectionEnum)
    ensures
        left_of(right_of(direction)) == direction,
        right_of(left_of(direction)) == direction,
        right_of(right_of(right_of(right_of(direction)))) == direction,
        left_of(left_of(left_of(left_of(direction)))) == direction,
{
}

/// A tick of one bot leaves every bot that was on the grid on the grid.
pub proof fn lemma_bot_step_stays_on_grid(state: FieldState, index: int, coin: bool)
    requires
        0 <= index < state.bots.len(),
        forall|i: int|
            0 <= i < state.bots.len() ==> state.in_bounds(
                (#[trigger] state.bots[i]).x,
                state.bots[i].y,
            ),
    ensures
        state.bot_step(index, coin).bots.len() == state.bots.len(),
        forall|i: int|
            0 <= i < state.bots.len() ==> state.in_bounds(
                (#[trigger] state.bot_step(index, coin).bots[i]).x,
                state.bot_step(index, coin).bots[i].y,
            ),
{
    assert(state.in_bounds(state.bots[index].x, state.bots[index].y));
}

/// A tick of one bot keeps every bot's program state well formed.
pub proof fn lemma_bot_step_keeps_wf(state: FieldState, index: int, coin: bool)
    requires
        state.wf(),
        0 <= index < state.bots.len(),
    ensures
        state.bot_step(index, coin).wf(),
{
    let placement = state.bots[index];
    lemma_step_keeps_wf(placement.bot, state.can_step(placement), coin);
    let after = state.bot_step(index, coin);
    assert forall|i: int| 0 <= i < after.bots.len() implies (#[trigger] after.bots[i]).bot.wf() by {
        if i != index {
            assert(after.bots[i] == state.bots[i]);
        }
    }
}

/// A tick of the grid leaves every bot on the grid and every program
/// state well formed, whatever the coins: no bot ever leaves the grid, and
/// no pointer ever leaves its program.
pub proof fn lemma_tick_keeps_the_grid(state: FieldState, count: nat, coins: Seq<bool>)
    requires
        state.wf(),
        count <= state.bots.len(),
        forall|i: int|
            0 <= i < state.bots.len() ==> state.in_bounds(
                (#[trigger] state.bots[i]).x,
                state.bots[i].y,
            ),
    ensures
        state.bots_stepped(count, coins).wf(),
        state.bots_stepped(count, coins).bots.len() == state.bots.len(),
        state.bots_stepped(count, coins).width == state.width,
        state.bots_stepped(count, coins).height == state.height,
        state.bots_stepped(count, coins).walls == state.walls,
        forall|i: int|
            0 <= i < state.bots.len() ==> state.in_bounds(
                (#[trigger] state.bots_stepped(count, coins).bots[i]).x,
                state.bots_stepped(count, coins).bots[i].y,
            ),
    decreases count,
{
    if count > 0 {
        let before = state.bots_stepped((count - 1) as nat, coins);
        lemma_tick_keeps_the_grid(state, (count - 1) as nat, coins);
        lemma_bot_step_keeps_wf(before, count - 1, coin_at(coins, count - 1));
        assert forall|i: int| 0 <= i < before.bots.len() implies before.in_bounds(
            (#[trigger] before.bots[i]).x,
            before.bots[i].y,
        ) by {
            assert(state.in_bounds(before.bots[i].x, before.bots[i].y));
        }
        lemma_bot_step_stays_on_grid(before, count - 1, coin_at(coins, count - 1));
        let after = before.bot_step(count - 1, coin_at(coins, count - 1));
        assert forall|i: int| 0 <= i < state.bots.len() implies state.in_bounds(
            (#[trigger] after.bots[i]).x,
            after.bots[i].y,
        ) by {
            assert(before.in_bounds(after.bots[i].x, after.bots[i].y));
        }
    }
}

} // verus!
