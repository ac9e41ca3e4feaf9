//! From tokens to a flat program.
//!
//! Blocks nest in the source and are flat in the program. A conditional
//! becomes a jump over its body, taken when the bot cannot advance, so the
//! body runs when the bot *can* advance. A loop becomes the same jump over
//! its body and over the jump back that closes it, so a blocked bot leaves
//! the loop; the closing jump returns to the jump at the loop's head.
//!
//! Compilation threads a cursor, the absolute index at which the next
//! instruction will stand, so that every jump target is final when written.

use crate::bot::Bot;
use crate::error::{CompileError, CompileFailure};
use crate::lexer::lex_source;
use crate::program::{jump_target, targets_in_range, CommandEnum, OpCodeEnum, ParserStateEnum};
use vstd::prelude::*;

verus! {

/// What compiling a block gives: its instructions, and the tokens that
/// follow the block.
pub ghost struct Compiled {
    pub code: Seq<CommandEnum>,
    pub rest: Seq<OpCodeEnum>,
}

/// `code` in front of what `then` holds; a failure in `then` stays.
pub open spec fn emit(code: Seq<CommandEnum>, then: Result<Compiled, CompileFailure>) -> Result<
    Compiled,
    CompileFailure,
> {
    match then {
        Ok(compiled) => Ok(Compiled { code: code + compiled.code, rest: compiled.rest }),
        Err(failure) => Err(failure),
    }
}

/// The instruction for a token that is neither the start nor the end of a
/// block.
pub open spec fn plain_command(token: OpCodeEnum) -> Option<CommandEnum> {
    match token {
        OpCodeEnum::Step => Some(CommandEnum::Step),
        OpCodeEnum::TurnLeft => Some(CommandEnum::TurnLeft),
        OpCodeEnum::TurnRight => Some(CommandEnum::TurnRight),
        OpCodeEnum::TurnRandom => Some(CommandEnum::TurnRandom),
        _ => None,
    }
}

/// The instructions of a conditional whose jump stands at `head`.
pub open spec fn if_block(head: nat, body: Seq<CommandEnum>) -> Seq<CommandEnum> {
    seq![CommandEnum::GoToNE((head + 1 + body.len()) as usize)] + body
}

/// The instructions of a loop whose first jump stands at `head`.
pub open spec fn loop_block(head: nat, body: Seq<CommandEnum>) -> Seq<CommandEnum> {
    seq![CommandEnum::GoToNE((head + body.len() + 2) as usize)] + body + seq![
        CommandEnum::GoTo(head as usize),
    ]
}

/// Compiles `tokens` from the front, with the first instruction going to
/// index `ptr`, inside a block of kind `state`.
///
/// At the root the whole text is compiled. Inside a block compilation stops
/// behind the terminator of that block and hands back what follows it.
/// Fails on a terminator that does not close the block it stands in, and on
/// the end of the text inside a block.
pub open spec fn parse_tokens(tokens: Seq<OpCodeEnum>, ptr: nat, state: ParserStateEnum) -> Result<
    Compiled,
    CompileFailure,
>
    decreases tokens.len(),
{
    if tokens.len() == 0 {
        if state == ParserStateEnum::Root {
            Ok(Compiled { code: Seq::empty(), rest: Seq::empty() })
        } else {
            Err(CompileFailure::Unterminated)
        }
    } else {
        let tail = tokens.drop_first();
        match tokens[0] {
            OpCodeEnum::If => match parse_tokens(tail, ptr + 1, ParserStateEnum::If) {
                Err(failure) => Err(failure),
                Ok(body) => if body.rest.len() < tokens.len() {
                    emit(
                        if_block(ptr, body.code),
                        parse_tokens(body.rest, ptr + 1 + body.code.len(), state),
                    )
                } else {
                    // Never taken: a block is shorter than the text it ends in.
                    Err(CompileFailure::Unterminated)
                },
            },
            OpCodeEnum::EndIf => if state == ParserStateEnum::If {
                Ok(Compiled { code: Seq::empty(), rest: tail })
            } else {
                Err(CompileFailure::Mismatched)
            },
            OpCodeEnum::LoopStart => match parse_tokens(tail, ptr + 1, ParserStateEnum::Loop) {
                Err(failure) => Err(failure),
                Ok(body) => if body.rest.len() < tokens.len() {
                    emit(
                        loop_block(ptr, body.code),
                        parse_tokens(body.rest, ptr + body.code.len() + 2, state),
                    )
                } else {
                    // Never taken: a block is shorter than the text it ends in.
                    Err(CompileFailure::Unterminated)
                },
            },
            OpCodeEnum::LoopEnd => if state == ParserStateEnum::Loop {
                Ok(Compiled { code: Seq::empty(), rest: tail })
            } else {
                Err(CompileFailure::Mismatched)
            },
            plain => emit(seq![plain_command(plain)->0], parse_tokens(tail, ptr + 1, state)),
        }
    }
}

/// The program that a source text compiles to.
pub open spec fn compile_source(text: Seq<char>) -> Result<Seq<CommandEnum>, CompileFailure> {
    match lex_source(text) {
        Err(failure) => Err(failure),
        Ok(tokens) => match parse_tokens(tokens, 0, ParserStateEnum::Root) {
            Err(failure) => Err(failure),
            Ok(compiled) => Ok(compiled.code),
        },
    }
}

/// What is left over is the end of what was given, and no token yields
/// more than one instruction; the terminator of a block yields none.
#[verifier::rlimit(50)]
pub proof fn lemma_parse_consumes(tokens: Seq<OpCodeEnum>, ptr: nat, state: ParserStateEnum)
    ensures
        parse_tokens(tokens, ptr, state) matches Ok(compiled) ==> {
            &&& compiled.rest.len() <= tokens.len()
            &&& compiled.rest == tokens.skip(tokens.len() - compiled.rest.len())
            &&& compiled.code.len() + compiled.rest.len() + (if state == ParserStateEnum::Root {
                0int
            } else {
                1int
            }) <= tokens.len()
        },
    decreases tokens.len(),
{
    if tokens.len() > 0 {
        let tail = tokens.drop_first();
        match tokens[0] {
            OpCodeEnum::If => {
                lemma_parse_consumes(tail, ptr + 1, ParserStateEnum::If);
                if let Ok(body) = parse_tokens(tail, ptr + 1, ParserStateEnum::If) {
                    lemma_parse_consumes(body.rest, ptr + 1 + body.code.len(), state);
                    if let Ok(after) = parse_tokens(body.rest, ptr + 1 + body.code.len(), state) {
                        assert(after.rest =~= tokens.skip(tokens.len() - after.rest.len()));
                    }
                }
            },
            OpCodeEnum::LoopStart => {
                lemma_parse_consumes(tail, ptr + 1, ParserStateEnum::Loop);
                if let Ok(body) = parse_tokens(tail, ptr + 1, ParserStateEnum::Loop) {
                    lemma_parse_consumes(body.rest, ptr + body.code.len() + 2, state);
                    if let Ok(after) = parse_tokens(body.rest, ptr + body.code.len() + 2, state) {
                        assert(after.rest =~= tokens.skip(tokens.len() - after.rest.len()));
                    }
                }
            },
            OpCodeEnum::EndIf => {
                assert(tail =~= tokens.skip(tokens.len() - tail.len()));
            },
            OpCodeEnum::LoopEnd => {
                assert(tail =~= tokens.skip(tokens.len() - tail.len()));
            },
            _ => {
                lemma_parse_consumes(tail, ptr + 1, state);
                if let Ok(after) = parse_tokens(tail, ptr + 1, state) {
                    assert(after.rest =~= tokens.skip(tokens.len() - after.rest.len()));
                }
            },
        }
    } else {
        assert(Seq::<OpCodeEnum>::empty() =~= tokens.skip(0));
    }
}

/// Every jump in `code`, which starts at index `base`, lands between
/// `base` and the index right behind `code`.
pub open spec fn jumps_within(code: Seq<CommandEnum>, base: nat) -> bool {
    forall|i: int|
        0 <= i < code.len() ==> match #[trigger] jump_target(code[i]) {
            Some(target) => base <= target <= base + code.len(),
            None => true,
        }
}

/// The jumps of a compiled block stay inside the block, or land right
/// behind it.
#[verifier::rlimit(50)]
pub proof fn lemma_parse_jumps_within(tokens: Seq<OpCodeEnum>, ptr: nat, state: ParserStateEnum)
    requires
        ptr + tokens.len() <= usize::MAX,
    ensures
        parse_tokens(tokens, ptr, state) matches Ok(compiled) ==> jumps_within(compiled.code, ptr),
    decreases tokens.len(),
{
    if tokens.len() > 0 {
        let tail = tokens.drop_first();
        match tokens[0] {
            OpCodeEnum::If => {
                lemma_parse_jumps_within(tail, ptr + 1, ParserStateEnum::If);
                lemma_parse_consumes(tail, ptr + 1, ParserStateEnum::If);
                if let Ok(body) = parse_tokens(tail, ptr + 1, ParserStateEnum::If) {
                    let next = ptr + 1 + body.code.len();
                    lemma_parse_jumps_within(body.rest, next, state);
                    if let Ok(after) = parse_tokens(body.rest, next, state) {
                        let code = if_block(ptr, body.code) + after.code;
                        assert forall|i: int| 0 <= i < code.len() implies match #[trigger] jump_target(
                            code[i],
                        ) {
                            Some(target) => ptr <= target <= ptr + code.len(),
                            None => true,
                        } by {
                            if i == 0 {
                            } else if i < 1 + body.code.len() {
                                assert(code[i] == body.code[i - 1]);
                            } else {
                                assert(code[i] == after.code[i - 1 - body.code.len()]);
                            }
                        }
                    }
                }
            },
            OpCodeEnum::LoopStart => {
                lemma_parse_jumps_within(tail, ptr + 1, ParserStateEnum::Loop);
                lemma_parse_consumes(tail, ptr + 1, ParserStateEnum::Loop);
                if let Ok(body) = parse_tokens(tail, ptr + 1, ParserStateEnum::Loop) {
                    let next = ptr + body.code.len() + 2;
                    lemma_parse_jumps_within(body.rest, next, state);
                    if let Ok(after) = parse_tokens(body.rest, next, state) {
                        let code = loop_block(ptr, body.code) + after.code;
                        assert forall|i: int| 0 <= i < code.len() implies match #[trigger] jump_target(
                            code[i],
                        ) {
                            Some(target) => ptr <= target <= ptr + code.len(),
                            None => true,
                        } by {
                            if i == 0 {
                            } else if i < 1 + body.code.len() {
                                assert(code[i] == body.code[i - 1]);
                            } else if i == 1 + body.code.len() {
                            } else {
                                assert(code[i] == after.code[i - 2 - body.code.len()]);
                            }
                        }
                    }
                }
            },
            OpCodeEnum::EndIf => {},
            OpCodeEnum::LoopEnd => {},
            plain => {
                lemma_parse_jumps_within(tail, ptr + 1, state);
                if let Ok(after) = parse_tokens(tail, ptr + 1, state) {
                    let code = seq![plain_command(plain)->0] + after.code;
                    assert forall|i: int| 0 <= i < code.len() implies match #[trigger] jump_target(
                        code[i],
                    ) {
                        Some(target) => ptr <= target <= ptr + code.len(),
                        None => true,
                    } by {
                        if i > 0 {
                            assert(code[i] == after.code[i - 1]);
                        }
                    }
                }
            },
        }
    }
}

/// A program compiled from the root has no jump that leaves it.
pub proof fn lemma_compiled_targets_in_range(tokens: Seq<OpCodeEnum>)
    requires
        tokens.len() <= usize::MAX,
    ensures
        parse_tokens(tokens, 0, ParserStateEnum::Root) matches Ok(compiled) ==> targets_in_range(
            compiled.code,
        ),
{
    lemma_parse_jumps_within(tokens, 0, ParserStateEnum::Root);
}

impl Bot {
    /// Compiles the tokens from index `start` on, inside a block of kind
    /// `state`, with the first instruction going to index `ptr`. Gives the
    /// instructions and the index of the first token behind the block.
    #[verifier::rlimit(50)]
    pub fn parse(tokens: &Vec<OpCodeEnum>, start: usize, ptr: usize, state: ParserStateEnum) -> (result:
        Result<(Vec<CommandEnum>, usize), CompileError>)
        requires
            start <= tokens.len(),
            ptr + (tokens.len() - start) <= usize::MAX,
        ensures
            match parse_tokens(tokens@.skip(start as int), ptr as nat, state) {
                Ok(compiled) => {
                    &&& result matches Ok((code, next))
                    &&& code@ == compiled.code
                    &&& start <= next <= tokens.len()
                    &&& tokens@.skip(next as int) == compiled.rest
                },
                Err(failure) => result matches Err(error) && error@ == failure,
            },
        decreases tokens.len() - start,
    {
        let len = tokens.len();
        let mut result: Vec<CommandEnum> = Vec::new();
        let mut at = start;
        let mut cursor = ptr;
        assert(parse_tokens(tokens@.skip(start as int), ptr as nat, state) matches Ok(all)
            ==> result@ + all.code =~= all.code);
        while at < len
            invariant
                len == tokens.len(),
                start <= at <= len,
                cursor == ptr + result.len(),
                cursor + (len - at) <= usize::MAX,
                parse_tokens(tokens@.skip(start as int), ptr as nat, state) == emit(
                    result@,
                    parse_tokens(tokens@.skip(at as int), cursor as nat, state),
                ),
            decreases len - at,
        {
            let ghost here = tokens@.skip(at as int);
            let ghost tail = here.drop_first();
            assert(tail =~= tokens@.skip(at + 1));
            match tokens[at] {
                OpCodeEnum::If => {
                    proof {
                        lemma_parse_consumes(tail, (cursor + 1) as nat, ParserStateEnum::If);
                    }
                    match Self::parse(tokens, at + 1, cursor + 1, ParserStateEnum::If) {
                        Err(error) => {
                            return Err(error);
                        },
                        Ok((mut part, next)) => {
                            let ghost body = part@;
                            let ghost before = result@;
                            let target = cursor + 1 + part.len();
                            result.push(CommandEnum::GoToNE(target));
                            result.append(&mut part);
                            proof {
                                assert(result@ =~= before + if_block(cursor as nat, body));
                                if let Ok(after) = parse_tokens(
                                    tokens@.skip(next as int),
                                    target as nat,
                                    state,
                                ) {
                                    assert(result@ + after.code =~= before + (if_block(
                                        cursor as nat,
                                        body,
                                    ) + after.code));
                                }
                            }
                            cursor = target;
                            at = next;
                        },
                    }
                },
                OpCodeEnum::EndIf => {
                    if state == ParserStateEnum::If {
                        assert(result@ + Seq::<CommandEnum>::empty() =~= result@);
                        return Ok((result, at + 1));
                    }
                    return Err(CompileError::Mismatched);
                },
                OpCodeEnum::LoopStart => {
                    proof {
                        lemma_parse_consumes(tail, (cursor + 1) as nat, ParserStateEnum::Loop);
                    }
                    match Self::parse(tokens, at + 1, cursor + 1, ParserStateEnum::Loop) {
                        Err(error) => {
                            return Err(error);
                        },
                        Ok((mut part, next)) => {
                            let ghost body = part@;
                            let ghost before = result@;
                            let target = cursor + part.len() + 2;
                            result.push(CommandEnum::GoToNE(target));
                            result.append(&mut part);
                            result.push(CommandEnum::GoTo(cursor));
                            proof {
                                assert(result@ =~= before + loop_block(cursor as nat, body));
                                if let Ok(after) = parse_tokens(
                                    tokens@.skip(next as int),
                                    target as nat,
                                    state,
                                ) {
                                    assert(result@ + after.code =~= before + (loop_block(
                                        cursor as nat,
                                        body,
                                    ) + after.code));
                                }
                            }
                            cursor = target;
                            at = next;
                        },
                    }
                },
                OpCodeEnum::LoopEnd => {
                    if state == ParserStateEnum::Loop {
                        assert(result@ + Seq::<CommandEnum>::empty() =~= result@);
                        return Ok((result, at + 1));
                    }
                    return Err(CompileError::Mismatched);
                },
                plain => {
                    let command = match plain {
                        OpCodeEnum::Step => CommandEnum::Step,
                        OpCodeEnum::TurnLeft => CommandEnum::TurnLeft,
                        OpCodeEnum::TurnRight => CommandEnum::TurnRight,
                        _ => CommandEnum::TurnRandom,
                    };
                    proof {
                        if let Ok(after) = parse_tokens(tail, (cursor + 1) as nat, state) {
                            assert(result@.push(command) + after.code =~= result@ + (seq![command]
                                + after.code));
                        }
                    }
                    result.push(command);
                    cursor += 1;
                    at += 1;
                },
            }
        }
        assert(tokens@.skip(at as int) =~= Seq::<OpCodeEnum>::empty());
        if state != ParserStateEnum::Root {
            return Err(CompileError::Unterminated);
        }
        assert(result@ + Seq::<CommandEnum>::empty() =~= result@);
        Ok((result, at))
    }

    /// Compiles source text into a program: all of it, or a failure and no
    /// program.
    pub fn compile(src: &str) -> (result: Result<Vec<CommandEnum>, CompileError>)
        ensures
            match compile_source(src@) {
                Ok(program) => result matches Ok(code) && code@ == program,
                Err(failure) => result matches Err(error) && error@ == failure,
            },
            result matches Ok(code) ==> targets_in_range(code@),
    {
        let tokens = match Self::lex(src) {
            Ok(tokens) => tokens,
            Err(error) => {
                return Err(error);
            },
        };
        assert(tokens@.skip(0) =~= tokens@);
        proof {
            lemma_compiled_targets_in_range(tokens@);
        }
        match Self::parse(&tokens, 0, 0, ParserStateEnum::Root) {
            Ok((code, _)) => Ok(code),
            Err(error) => Err(error),
        }
    }
}

} // verus!
