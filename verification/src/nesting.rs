//! How the blocks of the source lie in the compiled program.
//!
//! Every token stands for one instruction, at the place where the token
//! stands among the others, except the end of a conditional, which stands
//! for none. The lemmas here follow the compiler through the nesting to
//! show where the jumps of a block stand and where they lead.

use crate::compiler::{emit, if_block, loop_block, parse_tokens, plain_command, Compiled};
use crate::compiler::lemma_parse_consumes;
use crate::error::CompileFailure;
use crate::program::{CommandEnum, OpCodeEnum, ParserStateEnum};
use vstd::prelude::*;

verus! {

/// The number of instructions that `tokens` stand for: one for each token
/// but the ends of conditionals.
pub open spec fn code_len(tokens: Seq<OpCodeEnum>) -> nat
    decreases tokens.len(),
{
    if tokens.len() == 0 {
        0
    } else {
        code_len(tokens.drop_last()) + if tokens.last() == OpCodeEnum::EndIf {
            0nat
        } else {
            1nat
        }
    }
}

/// What is wrong with the nesting of `tokens`, read from the front with
/// the blocks in `open` open, the innermost last: the first end of a block
/// that does not end the innermost open block, or else that a block is
/// still open at the end. `None` if nothing is wrong.
pub open spec fn nesting_failure(tokens: Seq<OpCodeEnum>, open: Seq<ParserStateEnum>) -> Option<
    CompileFailure,
>
    decreases tokens.len(),
{
    if tokens.len() == 0 {
        if open.len() == 0 {
            None
        } else {
            Some(CompileFailure::Unterminated)
        }
    } else {
        let tail = tokens.drop_first();
        match tokens[0] {
            OpCodeEnum::If => nesting_failure(tail, open.push(ParserStateEnum::If)),
            OpCodeEnum::LoopStart => nesting_failure(tail, open.push(ParserStateEnum::Loop)),
            OpCodeEnum::EndIf => if open.len() > 0 && open.last() == ParserStateEnum::If {
                nesting_failure(tail, open.drop_last())
            } else {
                Some(CompileFailure::Mismatched)
            },
            OpCodeEnum::LoopEnd => if open.len() > 0 && open.last() == ParserStateEnum::Loop {
                nesting_failure(tail, open.drop_last())
            } else {
                Some(CompileFailure::Mismatched)
            },
            _ => nesting_failure(tail, open),
        }
    }
}

/// Every block in `tokens` is closed, and nothing is closed that was not
/// opened.
pub open spec fn balanced(tokens: Seq<OpCodeEnum>) -> bool {
    nesting_failure(tokens, Seq::empty()) is None
}

/// The blocks that are open inside a block of kind `state` around which
/// the blocks in `open` are open.
pub open spec fn open_inside(open: Seq<ParserStateEnum>, state: ParserStateEnum) -> Seq<
    ParserStateEnum,
> {
    if state == ParserStateEnum::Root {
        open
    } else {
        open.push(state)
    }
}

/// The kind of block that `opener` starts.
pub open spec fn block_kind(opener: OpCodeEnum) -> ParserStateEnum {
    if opener == OpCodeEnum::LoopStart {
        ParserStateEnum::Loop
    } else {
        ParserStateEnum::If
    }
}

/// Tokens `open` and `close` of `tokens` are the start and the end of one
/// block: of the same kind, with balanced tokens between them.
pub open spec fn is_block(tokens: Seq<OpCodeEnum>, open: int, close: int) -> bool {
    &&& 0 <= open < close < tokens.len()
    &&& {
        ||| tokens[open] == OpCodeEnum::LoopStart && tokens[close] == OpCodeEnum::LoopEnd
        ||| tokens[open] == OpCodeEnum::If && tokens[close] == OpCodeEnum::EndIf
    }
    &&& balanced(tokens.subrange(open + 1, close))
}

/// `code`, which starts at index `base` of a program, holds at its index
/// `head` the jumps of a block whose body is `len` instructions long.
///
/// For a loop the jump at the head leads behind the jump that closes the
/// loop, and that one leads back to the head. For a conditional the jump
/// at the head leads behind the body.
pub open spec fn block_in_code(
    code: Seq<CommandEnum>,
    base: nat,
    head: nat,
    len: nat,
    kind: ParserStateEnum,
) -> bool {
    if kind == ParserStateEnum::Loop {
        &&& head + len + 2 <= code.len()
        &&& code[head as int] == CommandEnum::GoToNE((base + head + len + 2) as usize)
        &&& code[head as int + len + 1] == CommandEnum::GoTo((base + head) as usize)
    } else {
        &&& head + len + 1 <= code.len()
        &&& code[head as int] == CommandEnum::GoToNE((base + head + len + 1) as usize)
    }
}

/// The instructions of two runs of tokens add up.
pub proof fn lemma_code_len_add(front: Seq<OpCodeEnum>, back: Seq<OpCodeEnum>)
    ensures
        code_len(front + back) == code_len(front) + code_len(back),
    decreases back.len(),
{
    if back.len() == 0 {
        assert(front + back =~= front);
    } else {
        assert((front + back).drop_last() =~= front + back.drop_last());
        lemma_code_len_add(front, back.drop_last());
    }
}

/// One token stands for one instruction, or for none if it ends a
/// conditional.
pub proof fn lemma_code_len_one(token: OpCodeEnum)
    ensures
        code_len(seq![token]) == if token == OpCodeEnum::EndIf {
            0nat
        } else {
            1nat
        },
{
    assert(seq![token].drop_last() =~= Seq::<OpCodeEnum>::empty());
    assert(code_len(seq![token].drop_last()) == 0);
}

/// At the root all tokens are compiled: nothing is left over.
#[verifier::rlimit(50)]
pub proof fn lemma_root_consumes_all(tokens: Seq<OpCodeEnum>, ptr: nat)
    ensures
        parse_tokens(tokens, ptr, ParserStateEnum::Root) matches Ok(compiled)
            ==> compiled.rest.len() == 0,
    decreases tokens.len(),
{
    if tokens.len() > 0 {
        let tail = tokens.drop_first();
        match tokens[0] {
            OpCodeEnum::If => {
                if let Ok(body) = parse_tokens(tail, ptr + 1, ParserStateEnum::If) {
                    lemma_parse_consumes(tail, ptr + 1, ParserStateEnum::If);
                    lemma_root_consumes_all(body.rest, ptr + 1 + body.code.len());
                }
            },
            OpCodeEnum::LoopStart => {
                if let Ok(body) = parse_tokens(tail, ptr + 1, ParserStateEnum::Loop) {
                    lemma_parse_consumes(tail, ptr + 1, ParserStateEnum::Loop);
                    lemma_root_consumes_all(body.rest, ptr + body.code.len() + 2);
                }
            },
            OpCodeEnum::EndIf => {},
            OpCodeEnum::LoopEnd => {},
            _ => {
                lemma_root_consumes_all(tail, ptr + 1);
            },
        }
    }
}

/// The tokens that a compilation has used up.
pub open spec fn used(tokens: Seq<OpCodeEnum>, compiled: Compiled) -> Seq<OpCodeEnum> {
    tokens.take(tokens.len() - compiled.rest.len())
}

/// The instructions that come out are those that the used tokens stand
/// for. The end of a loop is among the used tokens of the loop's body, but
/// its instruction, the jump back, is not among the body's instructions.
#[verifier::rlimit(50)]
pub proof fn lemma_parse_code_len(tokens: Seq<OpCodeEnum>, ptr: nat, state: ParserStateEnum)
    ensures
        parse_tokens(tokens, ptr, state) matches Ok(compiled) ==> compiled.code.len() + (if state
            == ParserStateEnum::Loop {
            1nat
        } else {
            0nat
        }) == code_len(used(tokens, compiled)),
    decreases tokens.len(),
{
    if let Ok(compiled) = parse_tokens(tokens, ptr, state) {
        lemma_parse_consumes(tokens, ptr, state);
        if tokens.len() == 0 {
            assert(used(tokens, compiled) =~= Seq::empty());
        } else {
            let tail = tokens.drop_first();
            let first = seq![tokens[0]];
            lemma_code_len_one(tokens[0]);
            match tokens[0] {
                OpCodeEnum::If => {
                    let body = parse_tokens(tail, ptr + 1, ParserStateEnum::If)->Ok_0;
                    let next = ptr + 1 + body.code.len();
                    let then = parse_tokens(body.rest, next, state)->Ok_0;
                    lemma_parse_consumes(tail, ptr + 1, ParserStateEnum::If);
                    lemma_parse_consumes(body.rest, next, state);
                    lemma_parse_code_len(tail, ptr + 1, ParserStateEnum::If);
                    lemma_parse_code_len(body.rest, next, state);
                    assert(used(tokens, compiled) =~= first + used(tail, body) + used(
                        body.rest,
                        then,
                    ));
                    lemma_code_len_add(first + used(tail, body), used(body.rest, then));
                    lemma_code_len_add(first, used(tail, body));
                },
                OpCodeEnum::LoopStart => {
                    let body = parse_tokens(tail, ptr + 1, ParserStateEnum::Loop)->Ok_0;
                    let next = ptr + body.code.len() + 2;
                    let then = parse_tokens(body.rest, next, state)->Ok_0;
                    lemma_parse_consumes(tail, ptr + 1, ParserStateEnum::Loop);
                    lemma_parse_consumes(body.rest, next, state);
                    lemma_parse_code_len(tail, ptr + 1, ParserStateEnum::Loop);
                    lemma_parse_code_len(body.rest, next, state);
                    assert(used(tokens, compiled) =~= first + used(tail, body) + used(
                        body.rest,
                        then,
                    ));
                    lemma_code_len_add(first + used(tail, body), used(body.rest, then));
                    lemma_code_len_add(first, used(tail, body));
                },
                OpCodeEnum::EndIf => {
                    assert(used(tokens, compiled) =~= first);
                },
                OpCodeEnum::LoopEnd => {
                    assert(used(tokens, compiled) =~= first);
                },
                _ => {
                    let then = parse_tokens(tail, ptr + 1, state)->Ok_0;
                    lemma_parse_consumes(tail, ptr + 1, state);
                    lemma_parse_code_len(tail, ptr + 1, state);
                    assert(used(tokens, compiled) =~= first + used(tail, then));
                    lemma_code_len_add(first, used(tail, then));
                },
            }
        }
    }
}

/// Compiling fails where the nesting is wrong, and with that failure.
/// Inside a block it stops at the end of the block, and what is wrong
/// behind that end is no concern of it.
#[verifier::rlimit(50)]
pub proof fn lemma_parse_follows_nesting(
    tokens: Seq<OpCodeEnum>,
    ptr: nat,
    state: ParserStateEnum,
    open: Seq<ParserStateEnum>,
)
    requires
        state == ParserStateEnum::Root ==> open.len() == 0,
    ensures
        nesting_failure(tokens, open_inside(open, state)) == match parse_tokens(tokens, ptr, state) {
            Err(failure) => Some(failure),
            Ok(compiled) => if state == ParserStateEnum::Root {
                None
            } else {
                nesting_failure(compiled.rest, open)
            },
        },
    decreases tokens.len(),
{
    let inside = open_inside(open, state);
    if tokens.len() > 0 {
        let tail = tokens.drop_first();
        if state != ParserStateEnum::Root {
            assert(inside.drop_last() =~= open);
        }
        match tokens[0] {
            OpCodeEnum::If => {
                lemma_parse_follows_nesting(tail, ptr + 1, ParserStateEnum::If, inside);
                if let Ok(body) = parse_tokens(tail, ptr + 1, ParserStateEnum::If) {
                    lemma_parse_consumes(tail, ptr + 1, ParserStateEnum::If);
                    lemma_parse_follows_nesting(body.rest, ptr + 1 + body.code.len(), state, open);
                }
            },
            OpCodeEnum::LoopStart => {
                lemma_parse_follows_nesting(tail, ptr + 1, ParserStateEnum::Loop, inside);
                if let Ok(body) = parse_tokens(tail, ptr + 1, ParserStateEnum::Loop) {
                    lemma_parse_consumes(tail, ptr + 1, ParserStateEnum::Loop);
                    lemma_parse_follows_nesting(body.rest, ptr + body.code.len() + 2, state, open);
                }
            },
            OpCodeEnum::EndIf => {},
            OpCodeEnum::LoopEnd => {},
            _ => {
                lemma_parse_follows_nesting(tail, ptr + 1, state, open);
            },
        }
    }
}

/// Balanced tokens, and no others, compile on their own, wherever the
/// first instruction goes.
pub proof fn lemma_balanced_compiles(tokens: Seq<OpCodeEnum>, ptr: nat)
    ensures
        balanced(tokens) <==> parse_tokens(tokens, ptr, ParserStateEnum::Root) is Ok,
{
    lemma_parse_follows_nesting(tokens, ptr, ParserStateEnum::Root, Seq::empty());
}

/// Inside a block, what stands behind the end of the block has no part in
/// compiling it: more tokens at the end are handed back untouched.
#[verifier::rlimit(50)]
pub proof fn lemma_parse_block_append(
    tokens: Seq<OpCodeEnum>,
    more: Seq<OpCodeEnum>,
    ptr: nat,
    state: ParserStateEnum,
)
    requires
        state != ParserStateEnum::Root,
        parse_tokens(tokens, ptr, state) is Ok,
    ensures
        parse_tokens(tokens + more, ptr, state) == Ok::<Compiled, CompileFailure>(
            Compiled {
                code: parse_tokens(tokens, ptr, state)->Ok_0.code,
                rest: parse_tokens(tokens, ptr, state)->Ok_0.rest + more,
            },
        ),
    decreases tokens.len(),
{
    let tail = tokens.drop_first();
    assert((tokens + more).drop_first() =~= tail + more);
    match tokens[0] {
        OpCodeEnum::If => {
            let body = parse_tokens(tail, ptr + 1, ParserStateEnum::If)->Ok_0;
            lemma_parse_consumes(tail, ptr + 1, ParserStateEnum::If);
            lemma_parse_block_append(tail, more, ptr + 1, ParserStateEnum::If);
            lemma_parse_block_append(body.rest, more, ptr + 1 + body.code.len(), state);
        },
        OpCodeEnum::LoopStart => {
            let body = parse_tokens(tail, ptr + 1, ParserStateEnum::Loop)->Ok_0;
            lemma_parse_consumes(tail, ptr + 1, ParserStateEnum::Loop);
            lemma_parse_block_append(tail, more, ptr + 1, ParserStateEnum::Loop);
            lemma_parse_block_append(body.rest, more, ptr + body.code.len() + 2, state);
        },
        OpCodeEnum::EndIf => {},
        OpCodeEnum::LoopEnd => {},
        _ => {
            lemma_parse_block_append(tail, more, ptr + 1, state);
        },
    }
}

/// The instructions of a block of kind `kind` whose first jump stands at
/// `head`.
pub open spec fn block_code(head: nat, body: Seq<CommandEnum>, kind: ParserStateEnum) -> Seq<
    CommandEnum,
> {
    if kind == ParserStateEnum::Loop {
        loop_block(head, body)
    } else {
        if_block(head, body)
    }
}

/// What compiling gives for tokens that start with the start of a block:
/// the block, and behind it what the tokens behind the block give.
#[verifier::rlimit(50)]
pub proof fn lemma_parse_opener(tokens: Seq<OpCodeEnum>, ptr: nat, state: ParserStateEnum)
    requires
        tokens.len() > 0,
        tokens[0] == OpCodeEnum::If || tokens[0] == OpCodeEnum::LoopStart,
        parse_tokens(tokens, ptr, state) is Ok,
    ensures
        ({
            let kind = block_kind(tokens[0]);
            let tail = tokens.drop_first();
            let body = parse_tokens(tail, ptr + 1, kind);
            let block = block_code(ptr, body->Ok_0.code, kind);
            let then = parse_tokens(body->Ok_0.rest, ptr + block.len(), state);
            &&& body is Ok
            &&& body->Ok_0.rest.len() < tail.len()
            &&& body->Ok_0.rest == tail.skip(tail.len() - body->Ok_0.rest.len())
            &&& then is Ok
            &&& then->Ok_0.rest.len() <= body->Ok_0.rest.len()
            &&& then->Ok_0.rest == body->Ok_0.rest.skip(
                body->Ok_0.rest.len() - then->Ok_0.rest.len(),
            )
            &&& parse_tokens(tokens, ptr, state)->Ok_0 == (Compiled {
                code: block + then->Ok_0.code,
                rest: then->Ok_0.rest,
            })
        }),
{
    let kind = block_kind(tokens[0]);
    let tail = tokens.drop_first();
    lemma_parse_consumes(tail, ptr + 1, kind);
    let body = parse_tokens(tail, ptr + 1, kind)->Ok_0;
    let block = block_code(ptr, body.code, kind);
    lemma_parse_consumes(body.rest, ptr + block.len(), state);
}

/// `front` in front of what `then` holds, when `front` is itself two
/// runs of instructions.
proof fn lemma_emit_twice(
    first: Seq<CommandEnum>,
    second: Seq<CommandEnum>,
    then: Result<Compiled, CompileFailure>,
)
    ensures
        emit(first, emit(second, then)) == emit(first + second, then),
{
    if let Ok(compiled) = then {
        assert(first + (second + compiled.code) =~= first + second + compiled.code);
    }
}

/// Balanced tokens in front of others compile to their own instructions,
/// and compilation goes on behind them as if they had not been there.
#[verifier::rlimit(50)]
pub proof fn lemma_parse_balanced_prefix(
    front: Seq<OpCodeEnum>,
    more: Seq<OpCodeEnum>,
    ptr: nat,
    state: ParserStateEnum,
)
    requires
        parse_tokens(front, ptr, ParserStateEnum::Root) is Ok,
    ensures
        parse_tokens(front + more, ptr, state) == emit(
            parse_tokens(front, ptr, ParserStateEnum::Root)->Ok_0.code,
            parse_tokens(
                more,
                ptr + parse_tokens(front, ptr, ParserStateEnum::Root)->Ok_0.code.len(),
                state,
            ),
        ),
    decreases front.len(), 1nat,
{
    if front.len() == 0 {
        assert(front + more =~= more);
        let own = parse_tokens(front, ptr, ParserStateEnum::Root)->Ok_0;
        if let Ok(then) = parse_tokens(more, ptr, state) {
            assert(own.code + then.code =~= then.code);
        }
    } else {
        match front[0] {
            OpCodeEnum::If => {
                lemma_balanced_prefix_opener(front, more, ptr, state);
            },
            OpCodeEnum::LoopStart => {
                lemma_balanced_prefix_opener(front, more, ptr, state);
            },
            OpCodeEnum::EndIf => {},
            OpCodeEnum::LoopEnd => {},
            _ => {
                lemma_balanced_prefix_plain(front, more, ptr, state);
            },
        }
    }
}

/// The case of [`lemma_parse_balanced_prefix`] in which the first token
/// is neither the start nor the end of a block.
#[verifier::rlimit(50)]
proof fn lemma_balanced_prefix_plain(
    front: Seq<OpCodeEnum>,
    more: Seq<OpCodeEnum>,
    ptr: nat,
    state: ParserStateEnum,
)
    requires
        parse_tokens(front, ptr, ParserStateEnum::Root) is Ok,
        front.len() > 0,
        plain_command(front[0]) is Some,
    ensures
        parse_tokens(front + more, ptr, state) == emit(
            parse_tokens(front, ptr, ParserStateEnum::Root)->Ok_0.code,
            parse_tokens(
                more,
                ptr + parse_tokens(front, ptr, ParserStateEnum::Root)->Ok_0.code.len(),
                state,
            ),
        ),
    decreases front.len(), 0nat,
{
    let tail = front.drop_first();
    let command = seq![plain_command(front[0])->0];
    let behind = parse_tokens(tail, ptr + 1, ParserStateEnum::Root)->Ok_0;
    let after = parse_tokens(more, ptr + 1 + behind.code.len(), state);
    assert((front + more).drop_first() =~= tail + more);
    assert((front + more)[0] == front[0]);
    lemma_parse_balanced_prefix(tail, more, ptr + 1, state);
    assert(parse_tokens(front + more, ptr, state) == emit(command, emit(behind.code, after)));
    lemma_emit_twice(command, behind.code, after);
}

/// The case of [`lemma_parse_balanced_prefix`] in which the first token
/// starts a block.
#[verifier::rlimit(50)]
proof fn lemma_balanced_prefix_opener(
    front: Seq<OpCodeEnum>,
    more: Seq<OpCodeEnum>,
    ptr: nat,
    state: ParserStateEnum,
)
    requires
        parse_tokens(front, ptr, ParserStateEnum::Root) is Ok,
        front.len() > 0,
        front[0] == OpCodeEnum::If || front[0] == OpCodeEnum::LoopStart,
    ensures
        parse_tokens(front + more, ptr, state) == emit(
            parse_tokens(front, ptr, ParserStateEnum::Root)->Ok_0.code,
            parse_tokens(
                more,
                ptr + parse_tokens(front, ptr, ParserStateEnum::Root)->Ok_0.code.len(),
                state,
            ),
        ),
    decreases front.len(), 0nat,
{
    let tail = front.drop_first();
    let kind = block_kind(front[0]);
    let body = parse_tokens(tail, ptr + 1, kind)->Ok_0;
    let block = if kind == ParserStateEnum::Loop {
        loop_block(ptr, body.code)
    } else {
        if_block(ptr, body.code)
    };
    let next = ptr + block.len();
    let behind = parse_tokens(body.rest, next, ParserStateEnum::Root)->Ok_0;
    let after = parse_tokens(more, next + behind.code.len(), state);
    assert((front + more).drop_first() =~= tail + more);
    assert((front + more)[0] == front[0]);
    lemma_parse_consumes(tail, ptr + 1, kind);
    lemma_parse_block_append(tail, more, ptr + 1, kind);
    lemma_parse_balanced_prefix(body.rest, more, next, state);
    assert(parse_tokens(front + more, ptr, state) == emit(block, emit(behind.code, after)));
    lemma_emit_twice(block, behind.code, after);
}

/// The body of a block, compiled inside the block, gives the instructions
/// that its tokens stand for and stops behind the end of the block.
#[verifier::rlimit(50)]
pub proof fn lemma_parse_block_body(tokens: Seq<OpCodeEnum>, ptr: nat, close: int)
    requires
        is_block(tokens, 0, close),
    ensures
        parse_tokens(tokens.drop_first(), ptr + 1, block_kind(tokens[0])) matches Ok(body) && {
            &&& body.rest == tokens.skip(close + 1)
            &&& body.code.len() == code_len(tokens.subrange(1, close))
        },
{
    let inner = tokens.subrange(1, close);
    let kind = block_kind(tokens[0]);
    let behind = tokens.skip(close);
    lemma_balanced_compiles(inner, ptr + 1);
    let own = parse_tokens(inner, ptr + 1, ParserStateEnum::Root)->Ok_0;
    lemma_root_consumes_all(inner, ptr + 1);
    lemma_parse_code_len(inner, ptr + 1, ParserStateEnum::Root);
    assert(used(inner, own) =~= inner);
    lemma_parse_balanced_prefix(inner, behind, ptr + 1, kind);
    assert(tokens.drop_first() =~= inner + behind);
    assert(behind.drop_first() =~= tokens.skip(close + 1));
    assert(own.code + Seq::<CommandEnum>::empty() =~= own.code);
}

/// `part` stands in `code` from index `at` on.
pub open spec fn stands_at(code: Seq<CommandEnum>, at: int, part: Seq<CommandEnum>) -> bool {
    &&& 0 <= at
    &&& at + part.len() <= code.len()
    &&& forall|i: int| 0 <= i < part.len() ==> code[at + i] == #[trigger] part[i]
}

/// What stands in some instructions stands, with instructions in front of
/// them and behind them, in all of them.
pub proof fn lemma_stands_within(
    front: Seq<CommandEnum>,
    code: Seq<CommandEnum>,
    back: Seq<CommandEnum>,
    at: int,
    part: Seq<CommandEnum>,
)
    requires
        stands_at(code, at, part),
    ensures
        stands_at(front + code + back, front.len() + at, part),
{
    let all = front + code + back;
    assert forall|i: int| 0 <= i < part.len() implies all[front.len() + at + i] == #[trigger] part[i] by {
        assert(all[front.len() + at + i] == code[at + i]);
    }
}

/// The jumps of a block in a part of some instructions are the jumps of
/// the block in all of them.
pub proof fn lemma_block_in_code_stands(
    code: Seq<CommandEnum>,
    part: Seq<CommandEnum>,
    base: nat,
    at: nat,
    len: nat,
    kind: ParserStateEnum,
)
    requires
        stands_at(code, at as int, part),
        block_in_code(part, base + at, 0, len, kind),
    ensures
        block_in_code(code, base, at, len, kind),
{
    let from = at as int;
    assert(code[from + 0] == part[0]);
    if kind == ParserStateEnum::Loop {
        assert(code[from + (len as int + 1)] == part[len as int + 1]);
    }
}

/// Compiling goes through the tokens one block inside the other. From
/// every token that is used, the rest of the block in which the token
/// stands is compiled as if compilation had begun there, with the cursor
/// at the number of instructions that the tokens in front stand for; and
/// what comes out stands at that place in the whole. The result is the
/// kind of the block in which the token stands.
#[verifier::rlimit(50)]
pub proof fn lemma_parse_at(
    tokens: Seq<OpCodeEnum>,
    ptr: nat,
    state: ParserStateEnum,
    index: int,
) -> (inner: ParserStateEnum)
    requires
        parse_tokens(tokens, ptr, state) is Ok,
        0 <= index < tokens.len() - parse_tokens(tokens, ptr, state)->Ok_0.rest.len(),
    ensures
        parse_tokens(tokens.skip(index), ptr + code_len(tokens.take(index)), inner) is Ok,
        stands_at(
            parse_tokens(tokens, ptr, state)->Ok_0.code,
            code_len(tokens.take(index)) as int,
            parse_tokens(tokens.skip(index), ptr + code_len(tokens.take(index)), inner)->Ok_0.code,
        ),
    decreases tokens.len(), 2nat,
{
    if index == 0 {
        assert(tokens.skip(0) =~= tokens);
        assert(tokens.take(0) =~= Seq::<OpCodeEnum>::empty());
        state
    } else {
        match tokens[0] {
            OpCodeEnum::If => lemma_parse_at_behind_opener(tokens, ptr, state, index),
            OpCodeEnum::LoopStart => lemma_parse_at_behind_opener(tokens, ptr, state, index),
            OpCodeEnum::EndIf => state,
            OpCodeEnum::LoopEnd => state,
            _ => lemma_parse_at_behind_plain(tokens, ptr, state, index),
        }
    }
}

/// The case of [`lemma_parse_at`] in which the first token is neither the
/// start nor the end of a block.
#[verifier::rlimit(50)]
proof fn lemma_parse_at_behind_plain(
    tokens: Seq<OpCodeEnum>,
    ptr: nat,
    state: ParserStateEnum,
    index: int,
) -> (inner: ParserStateEnum)
    requires
        parse_tokens(tokens, ptr, state) is Ok,
        0 < index < tokens.len() - parse_tokens(tokens, ptr, state)->Ok_0.rest.len(),
        plain_command(tokens[0]) is Some,
    ensures
        parse_tokens(tokens.skip(index), ptr + code_len(tokens.take(index)), inner) is Ok,
        stands_at(
            parse_tokens(tokens, ptr, state)->Ok_0.code,
            code_len(tokens.take(index)) as int,
            parse_tokens(tokens.skip(index), ptr + code_len(tokens.take(index)), inner)->Ok_0.code,
        ),
    decreases tokens.len(), 1nat,
{
    let compiled = parse_tokens(tokens, ptr, state)->Ok_0;
    let tail = tokens.drop_first();
    let first = seq![tokens[0]];
    let then = parse_tokens(tail, ptr + 1, state)->Ok_0;
    let command = seq![plain_command(tokens[0])->0];
    lemma_code_len_one(tokens[0]);
    assert(tokens.take(index) =~= first + tail.take(index - 1));
    lemma_code_len_add(first, tail.take(index - 1));
    assert(tail.skip(index - 1) =~= tokens.skip(index));
    let inner = lemma_parse_at(tail, ptr + 1, state, index - 1);
    let at = code_len(tail.take(index - 1));
    let part = parse_tokens(tail.skip(index - 1), ptr + 1 + at, inner)->Ok_0;
    lemma_stands_within(command, then.code, Seq::empty(), at as int, part.code);
    assert(compiled.code =~= command + then.code + Seq::<CommandEnum>::empty());
    inner
}

/// The case of [`lemma_parse_at`] in which the first token starts a
/// block, which holds the token in question or ends in front of it.
#[verifier::rlimit(50)]
proof fn lemma_parse_at_behind_opener(
    tokens: Seq<OpCodeEnum>,
    ptr: nat,
    state: ParserStateEnum,
    index: int,
) -> (inner: ParserStateEnum)
    requires
        parse_tokens(tokens, ptr, state) is Ok,
        0 < index < tokens.len() - parse_tokens(tokens, ptr, state)->Ok_0.rest.len(),
        tokens[0] == OpCodeEnum::If || tokens[0] == OpCodeEnum::LoopStart,
    ensures
        parse_tokens(tokens.skip(index), ptr + code_len(tokens.take(index)), inner) is Ok,
        stands_at(
            parse_tokens(tokens, ptr, state)->Ok_0.code,
            code_len(tokens.take(index)) as int,
            parse_tokens(tokens.skip(index), ptr + code_len(tokens.take(index)), inner)->Ok_0.code,
        ),
    decreases tokens.len(), 1nat,
{
    let tail = tokens.drop_first();
    let outer = block_kind(tokens[0]);
    let body = parse_tokens(tail, ptr + 1, outer)->Ok_0;
    lemma_parse_opener(tokens, ptr, state);
    if index - 1 < tail.len() - body.rest.len() {
        lemma_parse_at_inside_opener(tokens, ptr, state, index)
    } else {
        lemma_parse_at_past_opener(tokens, ptr, state, index)
    }
}

/// The case of [`lemma_parse_at_behind_opener`] in which the token stands
/// inside the block that the first token starts.
#[verifier::rlimit(50)]
proof fn lemma_parse_at_inside_opener(
    tokens: Seq<OpCodeEnum>,
    ptr: nat,
    state: ParserStateEnum,
    index: int,
) -> (inner: ParserStateEnum)
    requires
        parse_tokens(tokens, ptr, state) is Ok,
        0 < index,
        tokens[0] == OpCodeEnum::If || tokens[0] == OpCodeEnum::LoopStart,
        parse_tokens(tokens.drop_first(), ptr + 1, block_kind(tokens[0])) is Ok,
        index - 1 < tokens.len() - 1 - parse_tokens(
            tokens.drop_first(),
            ptr + 1,
            block_kind(tokens[0]),
        )->Ok_0.rest.len(),
    ensures
        parse_tokens(tokens.skip(index), ptr + code_len(tokens.take(index)), inner) is Ok,
        stands_at(
            parse_tokens(tokens, ptr, state)->Ok_0.code,
            code_len(tokens.take(index)) as int,
            parse_tokens(tokens.skip(index), ptr + code_len(tokens.take(index)), inner)->Ok_0.code,
        ),
    decreases tokens.len(), 0nat,
{
    let compiled = parse_tokens(tokens, ptr, state)->Ok_0;
    let tail = tokens.drop_first();
    let first = seq![tokens[0]];
    let outer = block_kind(tokens[0]);
    let body = parse_tokens(tail, ptr + 1, outer)->Ok_0;
    let block = block_code(ptr, body.code, outer);
    let then = parse_tokens(body.rest, ptr + block.len(), state)->Ok_0;
    lemma_parse_opener(tokens, ptr, state);
    lemma_code_len_one(tokens[0]);
    assert(tokens.take(index) =~= first + tail.take(index - 1));
    lemma_code_len_add(first, tail.take(index - 1));
    assert(tail.skip(index - 1) =~= tokens.skip(index));
    let inner = lemma_parse_at(tail, ptr + 1, outer, index - 1);
    let at = code_len(tail.take(index - 1));
    let part = parse_tokens(tail.skip(index - 1), ptr + 1 + at, inner)->Ok_0;
    let jump = seq![block[0]];
    let closing = block.skip(1 + body.code.len() as int);
    assert(block =~= jump + body.code + closing);
    lemma_stands_within(jump, body.code, closing + then.code, at as int, part.code);
    assert(compiled.code =~= jump + body.code + (closing + then.code));
    inner
}

/// The case of [`lemma_parse_at_behind_opener`] in which the token stands
/// behind the block that the first token starts.
#[verifier::rlimit(50)]
proof fn lemma_parse_at_past_opener(
    tokens: Seq<OpCodeEnum>,
    ptr: nat,
    state: ParserStateEnum,
    index: int,
) -> (inner: ParserStateEnum)
    requires
        parse_tokens(tokens, ptr, state) is Ok,
        0 < index < tokens.len() - parse_tokens(tokens, ptr, state)->Ok_0.rest.len(),
        tokens[0] == OpCodeEnum::If || tokens[0] == OpCodeEnum::LoopStart,
        parse_tokens(tokens.drop_first(), ptr + 1, block_kind(tokens[0])) is Ok,
        index - 1 >= tokens.len() - 1 - parse_tokens(
            tokens.drop_first(),
            ptr + 1,
            block_kind(tokens[0]),
        )->Ok_0.rest.len(),
    ensures
        parse_tokens(tokens.skip(index), ptr + code_len(tokens.take(index)), inner) is Ok,
        stands_at(
            parse_tokens(tokens, ptr, state)->Ok_0.code,
            code_len(tokens.take(index)) as int,
            parse_tokens(tokens.skip(index), ptr + code_len(tokens.take(index)), inner)->Ok_0.code,
        ),
    decreases tokens.len(), 0nat,
{
    let compiled = parse_tokens(tokens, ptr, state)->Ok_0;
    let tail = tokens.drop_first();
    let first = seq![tokens[0]];
    let outer = block_kind(tokens[0]);
    let body = parse_tokens(tail, ptr + 1, outer)->Ok_0;
    let block = block_code(ptr, body.code, outer);
    let then = parse_tokens(body.rest, ptr + block.len(), state)->Ok_0;
    lemma_parse_opener(tokens, ptr, state);
    let taken = tail.len() - body.rest.len();
    let from = index - 1 - taken;
    lemma_code_len_one(tokens[0]);
    assert(tokens.take(index) =~= first + tail.take(index - 1));
    lemma_code_len_add(first, tail.take(index - 1));
    lemma_parse_code_len(tail, ptr + 1, outer);
    assert(tail.take(index - 1) =~= used(tail, body) + body.rest.take(from));
    lemma_code_len_add(used(tail, body), body.rest.take(from));
    assert(body.rest.skip(from) =~= tokens.skip(index));
    let inner = lemma_parse_at(body.rest, ptr + block.len(), state, from);
    let at = code_len(body.rest.take(from));
    let part = parse_tokens(body.rest.skip(from), ptr + block.len() + at, inner)->Ok_0;
    lemma_stands_within(block, then.code, Seq::empty(), at as int, part.code);
    assert(compiled.code =~= block + then.code + Seq::<CommandEnum>::empty());
    inner
}

/// Where a block of the source stands in what the compiler gives for a
/// run of tokens that holds the start of the block among those it uses.
#[verifier::rlimit(50)]
pub proof fn lemma_block_in_parse(
    tokens: Seq<OpCodeEnum>,
    ptr: nat,
    state: ParserStateEnum,
    open: int,
    close: int,
)
    requires
        is_block(tokens, open, close),
        parse_tokens(tokens, ptr, state) is Ok,
        open < tokens.len() - parse_tokens(tokens, ptr, state)->Ok_0.rest.len(),
    ensures
        block_in_code(
            parse_tokens(tokens, ptr, state)->Ok_0.code,
            ptr,
            code_len(tokens.take(open)),
            code_len(tokens.subrange(open + 1, close)),
            block_kind(tokens[open]),
        ),
{
    let inner = lemma_parse_at(tokens, ptr, state, open);
    let here = tokens.skip(open);
    let at = code_len(tokens.take(open));
    let part = parse_tokens(here, ptr + at, inner)->Ok_0;
    assert(here.subrange(1, close - open) =~= tokens.subrange(open + 1, close));
    assert(is_block(here, 0, close - open));
    lemma_parse_block_body(here, ptr + at, close - open);
    lemma_block_in_code_stands(
        parse_tokens(tokens, ptr, state)->Ok_0.code,
        part.code,
        ptr,
        at,
        code_len(tokens.subrange(open + 1, close)),
        block_kind(tokens[open]),
    );
}

/// Where the instruction of a token that neither starts nor ends a block
/// stands in what the compiler gives for a run of tokens that uses the
/// token.
pub proof fn lemma_plain_in_parse(
    tokens: Seq<OpCodeEnum>,
    ptr: nat,
    state: ParserStateEnum,
    index: int,
)
    requires
        parse_tokens(tokens, ptr, state) is Ok,
        0 <= index < tokens.len() - parse_tokens(tokens, ptr, state)->Ok_0.rest.len(),
        plain_command(tokens[index]) is Some,
    ensures
        code_len(tokens.take(index)) < parse_tokens(tokens, ptr, state)->Ok_0.code.len(),
        parse_tokens(tokens, ptr, state)->Ok_0.code[code_len(tokens.take(index)) as int]
            == plain_command(tokens[index])->0,
{
    let inner = lemma_parse_at(tokens, ptr, state, index);
    let here = tokens.skip(index);
    let at = code_len(tokens.take(index));
    let part = parse_tokens(here, ptr + at, inner)->Ok_0;
    let then = parse_tokens(here.drop_first(), ptr + at + 1, inner)->Ok_0;
    assert(part.code =~= seq![plain_command(tokens[index])->0] + then.code);
    assert(part.code[0] == plain_command(tokens[index])->0);
    assert(parse_tokens(tokens, ptr, state)->Ok_0.code[at as int + 0] == part.code[0]);
}

/// The token that ends a block of kind `kind`.
pub open spec fn block_end(kind: ParserStateEnum) -> OpCodeEnum {
    if kind == ParserStateEnum::Loop {
        OpCodeEnum::LoopEnd
    } else {
        OpCodeEnum::EndIf
    }
}

/// The instructions `code` and nothing left over.
pub open spec fn all_used(code: Seq<CommandEnum>) -> Result<Compiled, CompileFailure> {
    Ok(Compiled { code, rest: Seq::empty() })
}

/// Inside a block, the tokens that were used give alone what all gave.
#[verifier::rlimit(50)]
pub proof fn lemma_parse_block_used(tokens: Seq<OpCodeEnum>, ptr: nat, state: ParserStateEnum)
    requires
        state != ParserStateEnum::Root,
        parse_tokens(tokens, ptr, state) is Ok,
    ensures
        parse_tokens(used(tokens, parse_tokens(tokens, ptr, state)->Ok_0), ptr, state) == all_used(
            parse_tokens(tokens, ptr, state)->Ok_0.code,
        ),
    decreases tokens.len(), 1nat,
{
    let compiled = parse_tokens(tokens, ptr, state)->Ok_0;
    let taken = used(tokens, compiled);
    let tail = tokens.drop_first();
    let first = seq![tokens[0]];
    lemma_parse_consumes(tokens, ptr, state);
    match tokens[0] {
        OpCodeEnum::If => {
            lemma_parse_opener_used(tokens, ptr, state);
        },
        OpCodeEnum::LoopStart => {
            lemma_parse_opener_used(tokens, ptr, state);
        },
        OpCodeEnum::EndIf => {
            assert(taken =~= first);
            assert(taken.drop_first() =~= Seq::<OpCodeEnum>::empty());
        },
        OpCodeEnum::LoopEnd => {
            assert(taken =~= first);
            assert(taken.drop_first() =~= Seq::<OpCodeEnum>::empty());
        },
        _ => {
            let then = parse_tokens(tail, ptr + 1, state)->Ok_0;
            lemma_parse_consumes(tail, ptr + 1, state);
            lemma_parse_block_used(tail, ptr + 1, state);
            assert(taken =~= first + used(tail, then));
            assert(taken.drop_first() =~= used(tail, then));
        },
    }
}

/// The case of [`lemma_parse_block_used`] in which the first token
/// starts a block.
#[verifier::rlimit(50)]
proof fn lemma_parse_opener_used(tokens: Seq<OpCodeEnum>, ptr: nat, state: ParserStateEnum)
    requires
        state != ParserStateEnum::Root,
        parse_tokens(tokens, ptr, state) is Ok,
        tokens.len() > 0,
        tokens[0] == OpCodeEnum::If || tokens[0] == OpCodeEnum::LoopStart,
    ensures
        parse_tokens(used(tokens, parse_tokens(tokens, ptr, state)->Ok_0), ptr, state) == all_used(
            parse_tokens(tokens, ptr, state)->Ok_0.code,
        ),
    decreases tokens.len(), 0nat,
{
    let compiled = parse_tokens(tokens, ptr, state)->Ok_0;
    let taken = used(tokens, compiled);
    let tail = tokens.drop_first();
    let first = seq![tokens[0]];
    let kind = block_kind(tokens[0]);
    let body = parse_tokens(tail, ptr + 1, kind)->Ok_0;
    let block = block_code(ptr, body.code, kind);
    let next = ptr + block.len();
    let then = parse_tokens(body.rest, next, state)->Ok_0;
    lemma_parse_opener(tokens, ptr, state);
    let inside = used(tail, body);
    let behind = used(body.rest, then);
    assert(taken =~= first + (inside + behind));
    assert(taken.drop_first() =~= inside + behind);
    assert(taken[0] == tokens[0]);
    lemma_parse_block_used(tail, ptr + 1, kind);
    lemma_parse_block_append(inside, behind, ptr + 1, kind);
    assert(Seq::<OpCodeEnum>::empty() + behind =~= behind);
    lemma_parse_block_used(body.rest, next, state);
    assert(parse_tokens(inside + behind, ptr + 1, kind)->Ok_0.rest == behind);
    assert(parse_tokens(taken, ptr, state) == emit(block, all_used(then.code)));
}

/// Tokens that are one block and no more end with the end of the block,
/// and the tokens in front of that end compile on their own to what the
/// block holds.
#[verifier::rlimit(50)]
pub proof fn lemma_closed_block(
    tokens: Seq<OpCodeEnum>,
    ptr: nat,
    state: ParserStateEnum,
    code: Seq<CommandEnum>,
)
    requires
        state != ParserStateEnum::Root,
        parse_tokens(tokens, ptr, state) == all_used(code),
    ensures
        tokens.len() > 0,
        tokens.last() == block_end(state),
        parse_tokens(tokens.drop_last(), ptr, ParserStateEnum::Root) == all_used(code),
    decreases tokens.len(), 1nat,
{
    let tail = tokens.drop_first();
    match tokens[0] {
        OpCodeEnum::If => {
            lemma_closed_block_opener(tokens, ptr, state, code);
        },
        OpCodeEnum::LoopStart => {
            lemma_closed_block_opener(tokens, ptr, state, code);
        },
        OpCodeEnum::EndIf => {
            assert(tail.len() == 0);
            assert(tokens.drop_last() =~= Seq::<OpCodeEnum>::empty());
            assert(code =~= Seq::<CommandEnum>::empty());
        },
        OpCodeEnum::LoopEnd => {
            assert(tail.len() == 0);
            assert(tokens.drop_last() =~= Seq::<OpCodeEnum>::empty());
            assert(code =~= Seq::<CommandEnum>::empty());
        },
        plain => {
            let then = parse_tokens(tail, ptr + 1, state)->Ok_0;
            assert(then.rest =~= Seq::<OpCodeEnum>::empty());
            lemma_closed_block(tail, ptr + 1, state, then.code);
            assert(tokens.drop_last().drop_first() =~= tail.drop_last());
            assert(tokens.drop_last()[0] == tokens[0]);
        },
    }
}

/// The case of [`lemma_closed_block`] in which the first token starts a
/// block.
#[verifier::rlimit(50)]
proof fn lemma_closed_block_opener(
    tokens: Seq<OpCodeEnum>,
    ptr: nat,
    state: ParserStateEnum,
    code: Seq<CommandEnum>,
)
    requires
        state != ParserStateEnum::Root,
        parse_tokens(tokens, ptr, state) == all_used(code),
        tokens.len() > 0,
        tokens[0] == OpCodeEnum::If || tokens[0] == OpCodeEnum::LoopStart,
    ensures
        tokens.last() == block_end(state),
        parse_tokens(tokens.drop_last(), ptr, ParserStateEnum::Root) == all_used(code),
    decreases tokens.len(), 0nat,
{
    let tail = tokens.drop_first();
    let kind = block_kind(tokens[0]);
    let body = parse_tokens(tail, ptr + 1, kind)->Ok_0;
    let block = block_code(ptr, body.code, kind);
    let next = ptr + block.len();
    let then = parse_tokens(body.rest, next, state)->Ok_0;
    lemma_parse_opener(tokens, ptr, state);
    assert(then.rest =~= Seq::<OpCodeEnum>::empty());
    lemma_closed_block(body.rest, next, state, then.code);
    let inside = used(tail, body);
    let behind = body.rest.drop_last();
    let shorter = tokens.drop_last();
    assert(shorter.drop_first() =~= inside + behind);
    assert(shorter[0] == tokens[0]);
    lemma_parse_block_used(tail, ptr + 1, kind);
    lemma_parse_block_append(inside, behind, ptr + 1, kind);
    assert(Seq::<OpCodeEnum>::empty() + behind =~= behind);
    assert(parse_tokens(inside + behind, ptr + 1, kind)->Ok_0.rest == behind);
    assert(parse_tokens(shorter, ptr, ParserStateEnum::Root) == emit(block, all_used(then.code)));
}

/// The tokens that a block uses up end with the end of the block, and
/// those in front of that end are balanced.
pub proof fn lemma_parse_block_shape(tokens: Seq<OpCodeEnum>, ptr: nat, state: ParserStateEnum)
    requires
        state != ParserStateEnum::Root,
        parse_tokens(tokens, ptr, state) is Ok,
    ensures
        ({
            let taken = tokens.len() - parse_tokens(tokens, ptr, state)->Ok_0.rest.len();
            &&& 1 <= taken <= tokens.len()
            &&& tokens[taken - 1] == block_end(state)
            &&& balanced(tokens.take(taken - 1))
        }),
{
    let compiled = parse_tokens(tokens, ptr, state)->Ok_0;
    let taken = used(tokens, compiled);
    lemma_parse_consumes(tokens, ptr, state);
    lemma_parse_block_used(tokens, ptr, state);
    lemma_closed_block(taken, ptr, state, compiled.code);
    assert(taken.drop_last() =~= tokens.take(taken.len() - 1));
    lemma_balanced_compiles(tokens.take(taken.len() - 1), ptr);
}

/// In tokens that compile, every start of a block has its end: the two
/// are one block.
pub proof fn lemma_start_has_end(
    tokens: Seq<OpCodeEnum>,
    ptr: nat,
    state: ParserStateEnum,
    open: int,
) -> (close: int)
    requires
        parse_tokens(tokens, ptr, state) is Ok,
        0 <= open < tokens.len() - parse_tokens(tokens, ptr, state)->Ok_0.rest.len(),
        tokens[open] == OpCodeEnum::If || tokens[open] == OpCodeEnum::LoopStart,
    ensures
        is_block(tokens, open, close),
{
    let inner = lemma_parse_at(tokens, ptr, state, open);
    let here = tokens.skip(open);
    let cursor = ptr + code_len(tokens.take(open));
    let kind = block_kind(tokens[open]);
    let tail = here.drop_first();
    lemma_parse_opener(here, cursor, inner);
    lemma_parse_block_shape(tail, cursor + 1, kind);
    let taken = tail.len() - parse_tokens(tail, cursor + 1, kind)->Ok_0.rest.len();
    assert(tokens.subrange(open + 1, open + taken) =~= tail.take(taken - 1));
    assert(tokens[open + taken] == tail[taken - 1]);
    open + taken
}

/// The number of tokens at the end of what a compilation has used up
/// that close the block in which it began: one inside a block, none at the
/// root.
pub open spec fn own_end(state: ParserStateEnum) -> int {
    if state == ParserStateEnum::Root {
        0
    } else {
        1
    }
}

/// A block of the tokens behind the first is a block of all tokens, one
/// place further on.
proof fn lemma_block_shifts(tokens: Seq<OpCodeEnum>, by: int, open: int, close: int)
    requires
        0 <= by <= tokens.len(),
        is_block(tokens.skip(by), open, close),
    ensures
        is_block(tokens, by + open, by + close),
{
    assert(tokens.subrange(by + open + 1, by + close) =~= tokens.skip(by).subrange(
        open + 1,
        close,
    ));
}

/// In tokens that compile, every end of a block has its start: the two
/// are one block. This does not hold of the end that closes the block in
/// which compilation began, whose start is not among the tokens.
#[verifier::rlimit(50)]
pub proof fn lemma_end_has_start(
    tokens: Seq<OpCodeEnum>,
    ptr: nat,
    state: ParserStateEnum,
    close: int,
) -> (open: int)
    requires
        parse_tokens(tokens, ptr, state) is Ok,
        0 <= close < tokens.len() - parse_tokens(tokens, ptr, state)->Ok_0.rest.len() - own_end(
            state,
        ),
        tokens[close] == OpCodeEnum::EndIf || tokens[close] == OpCodeEnum::LoopEnd,
    ensures
        is_block(tokens, open, close),
    decreases tokens.len(), 1nat,
{
    let tail = tokens.drop_first();
    match tokens[0] {
        OpCodeEnum::If => lemma_end_behind_opener(tokens, ptr, state, close),
        OpCodeEnum::LoopStart => lemma_end_behind_opener(tokens, ptr, state, close),
        OpCodeEnum::EndIf => 0,
        OpCodeEnum::LoopEnd => 0,
        _ => {
            lemma_parse_consumes(tail, ptr + 1, state);
            let open = lemma_end_has_start(tail, ptr + 1, state, close - 1);
            lemma_block_shifts(tokens, 1, open, close - 1);
            open + 1
        },
    }
}

/// The case of [`lemma_end_has_start`] in which the first token starts a
/// block.
#[verifier::rlimit(50)]
proof fn lemma_end_behind_opener(
    tokens: Seq<OpCodeEnum>,
    ptr: nat,
    state: ParserStateEnum,
    close: int,
) -> (open: int)
    requires
        parse_tokens(tokens, ptr, state) is Ok,
        0 <= close < tokens.len() - parse_tokens(tokens, ptr, state)->Ok_0.rest.len() - own_end(
            state,
        ),
        tokens[close] == OpCodeEnum::EndIf || tokens[close] == OpCodeEnum::LoopEnd,
        tokens[0] == OpCodeEnum::If || tokens[0] == OpCodeEnum::LoopStart,
    ensures
        is_block(tokens, open, close),
    decreases tokens.len(), 0nat,
{
    let tail = tokens.drop_first();
    let kind = block_kind(tokens[0]);
    let body = parse_tokens(tail, ptr + 1, kind)->Ok_0;
    let block = block_code(ptr, body.code, kind);
    lemma_parse_opener(tokens, ptr, state);
    let taken = tail.len() - body.rest.len();
    lemma_parse_block_shape(tail, ptr + 1, kind);
    if close < taken {
        let open = lemma_end_has_start(tail, ptr + 1, kind, close - 1);
        lemma_block_shifts(tokens, 1, open, close - 1);
        open + 1
    } else if close == taken {
        assert(tokens.subrange(1, close) =~= tail.take(taken - 1));
        0
    } else {
        assert(tokens.skip(1 + taken) =~= body.rest);
        let open = lemma_end_has_start(body.rest, ptr + block.len(), state, close - 1 - taken);
        lemma_block_shifts(tokens, 1 + taken, open, close - 1 - taken);
        open + 1 + taken
    }
}

} // verus!
