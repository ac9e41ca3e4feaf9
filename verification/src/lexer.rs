//! From source text to tokens: one line, one keyword.
//!
//! A line ends at a line feed; a carriage return right before that line
//! feed belongs to the line ending. The last line needs no line ending.
//! Each line must be a keyword exactly as written: nothing is trimmed, and
//! an empty line is not a keyword.

use crate::bot::Bot;
use crate::error::{CompileError, CompileFailure};
use crate::program::OpCodeEnum;
use vstd::prelude::*;
use vstd::string::StrSliceExecFns;

verus! {

/// The number of characters in front of the first line feed of `text`, or
/// the length of `text` if it holds none.
pub open spec fn line_len(text: Seq<char>) -> nat
    decreases text.len(),
{
    if text.len() == 0 || text[0] == '\n' {
        0
    } else {
        1 + line_len(text.drop_first())
    }
}

/// `line` without the carriage return at its end, if it has one.
pub open spec fn strip_cr(line: Seq<char>) -> Seq<char> {
    if line.len() > 0 && line.last() == '\r' {
        line.drop_last()
    } else {
        line
    }
}

/// The lines of `text`, without their line endings.
pub open spec fn source_lines(text: Seq<char>) -> Seq<Seq<char>>
    decreases text.len(),
{
    let n = line_len(text);
    if text.len() == 0 {
        Seq::empty()
    } else if n >= text.len() {
        seq![text]
    } else {
        seq![strip_cr(text.take(n as int))] + source_lines(text.skip(n as int + 1))
    }
}

/// The text that holds `lines` one after the other, with a line feed
/// between each two of them.
pub open spec fn join_lines(lines: Seq<Seq<char>>) -> Seq<char>
    decreases lines.len(),
{
    if lines.len() == 0 {
        Seq::empty()
    } else if lines.len() == 1 {
        lines[0]
    } else {
        lines[0] + seq!['\n'] + join_lines(lines.drop_first())
    }
}

/// The token that `line` spells, if it is a keyword.
pub open spec fn keyword(line: Seq<char>) -> Option<OpCodeEnum> {
    if line == "if"@ {
        Some(OpCodeEnum::If)
    } else if line == "endIf"@ {
        Some(OpCodeEnum::EndIf)
    } else if line == "step"@ {
        Some(OpCodeEnum::Step)
    } else if line == "left"@ {
        Some(OpCodeEnum::TurnLeft)
    } else if line == "right"@ {
        Some(OpCodeEnum::TurnRight)
    } else if line == "leftOrRight"@ {
        Some(OpCodeEnum::TurnRandom)
    } else if line == "loop"@ {
        Some(OpCodeEnum::LoopStart)
    } else if line == "endLoop"@ {
        Some(OpCodeEnum::LoopEnd)
    } else {
        None
    }
}

/// `tokens` in front of what `rest` holds; a failure in `rest` stays.
pub open spec fn after_tokens(
    tokens: Seq<OpCodeEnum>,
    rest: Result<Seq<OpCodeEnum>, CompileFailure>,
) -> Result<Seq<OpCodeEnum>, CompileFailure> {
    match rest {
        Ok(more) => Ok(tokens + more),
        Err(failure) => Err(failure),
    }
}

/// The tokens of `lines`, or the first line that is no keyword.
pub open spec fn lex_lines(lines: Seq<Seq<char>>) -> Result<Seq<OpCodeEnum>, CompileFailure>
    decreases lines.len(),
{
    if lines.len() == 0 {
        Ok(Seq::empty())
    } else {
        match keyword(lines[0]) {
            None => Err(CompileFailure::UnknownCommand(lines[0])),
            Some(token) => after_tokens(seq![token], lex_lines(lines.drop_first())),
        }
    }
}

/// The tokens of a source text.
pub open spec fn lex_source(text: Seq<char>) -> Result<Seq<OpCodeEnum>, CompileFailure> {
    lex_lines(source_lines(text))
}

/// The first `n` characters of `text` hold no line feed, and a line feed or
/// the end of the text follows them: then the first line is `n` long.
pub proof fn lemma_line_len(text: Seq<char>, n: nat)
    requires
        n <= text.len(),
        forall|k: int| 0 <= k < n ==> text[k] != '\n',
        n == text.len() || text[n as int] == '\n',
    ensures
        line_len(text) == n,
    decreases n,
{
    if n > 0 {
        lemma_line_len(text.drop_first(), (n - 1) as nat);
    }
}

/// The characters of `src`, in order.
fn chars_of(src: &str) -> (chars: Vec<char>)
    ensures
        chars@ == src@,
{
    let mut chars: Vec<char> = Vec::new();
    for c in it: src.chars()
        invariant
            it.seq() == src@,
            chars@ == it.seq().take(it.index()),
    {
        chars.push(c);
    }
    chars
}

/// Whether the characters of `chars` from `from` up to `to` spell `word`.
fn slice_is(chars: &Vec<char>, from: usize, to: usize, word: &str) -> (same: bool)
    requires
        from <= to <= chars.len(),
    ensures
        same == (chars@.subrange(from as int, to as int) == word@),
{
    let len = word.unicode_len();
    if to - from != len {
        return false;
    }
    let mut i: usize = 0;
    while i < len
        invariant
            from <= to <= chars.len(),
            to - from == len,
            len == word@.len(),
            i <= len,
            forall|k: int| 0 <= k < i ==> chars[from + k] == word@[k],
        decreases len - i,
    {
        if chars[from + i] != word.get_char(i) {
            assert(chars@.subrange(from as int, to as int)[i as int] != word@[i as int]);
            return false;
        }
        i += 1;
    }
    assert(chars@.subrange(from as int, to as int) =~= word@);
    true
}

/// The token spelled by the characters of `chars` from `from` up to `to`.
fn keyword_at(chars: &Vec<char>, from: usize, to: usize) -> (token: Option<OpCodeEnum>)
    requires
        from <= to <= chars.len(),
    ensures
        token == keyword(chars@.subrange(from as int, to as int)),
{
    if slice_is(chars, from, to, "if") {
        Some(OpCodeEnum::If)
    } else if slice_is(chars, from, to, "endIf") {
        Some(OpCodeEnum::EndIf)
    } else if slice_is(chars, from, to, "step") {
        Some(OpCodeEnum::Step)
    } else if slice_is(chars, from, to, "left") {
        Some(OpCodeEnum::TurnLeft)
    } else if slice_is(chars, from, to, "right") {
        Some(OpCodeEnum::TurnRight)
    } else if slice_is(chars, from, to, "leftOrRight") {
        Some(OpCodeEnum::TurnRandom)
    } else if slice_is(chars, from, to, "loop") {
        Some(OpCodeEnum::LoopStart)
    } else if slice_is(chars, from, to, "endLoop") {
        Some(OpCodeEnum::LoopEnd)
    } else {
        None
    }
}

impl Bot {
    /// Turns source text into tokens, one per line. Fails on the first line
    /// that is no keyword, and names that line.
    pub fn lex(src: &str) -> (result: Result<Vec<OpCodeEnum>, CompileError>)
        ensures
            match lex_source(src@) {
                Ok(tokens) => result matches Ok(found) && found@ == tokens,
                Err(failure) => result matches Err(error) && error@ == failure,
            },
    {
        let chars = chars_of(src);
        let n = chars.len();
        let mut tokens: Vec<OpCodeEnum> = Vec::new();
        let mut start: usize = 0;
        assert(chars@.skip(0) =~= src@);
        assert(lex_source(src@) matches Ok(all) ==> tokens@ + all =~= all);
        while start < n
            invariant
                n == chars.len(),
                chars@ == src@,
                start <= n,
                lex_source(src@) == after_tokens(tokens@, lex_source(chars@.skip(start as int))),
            decreases n - start,
        {
            let mut end = start;
            while end < n && chars[end] != '\n'
                invariant
                    n == chars.len(),
                    start <= end <= n,
                    forall|k: int| start <= k < end ==> chars[k] != '\n',
                decreases n - end,
            {
                end += 1;
            }
            let stop = if end < n && end > start && chars[end - 1] == '\r' {
                end - 1
            } else {
                end
            };
            let next = if end < n {
                end + 1
            } else {
                end
            };
            let ghost rest = chars@.skip(start as int);
            let ghost line = chars@.subrange(start as int, stop as int);
            proof {
                lemma_line_len(rest, (end - start) as nat);
                if end < n {
                    assert(rest.take(end - start) =~= chars@.subrange(start as int, end as int));
                    assert(strip_cr(chars@.subrange(start as int, end as int)) =~= line);
                    assert(rest.skip(end - start + 1) =~= chars@.skip(next as int));
                } else {
                    assert(rest =~= line);
                    assert(source_lines(chars@.skip(next as int)) =~= Seq::empty());
                }
                assert(source_lines(rest) =~= seq![line] + source_lines(chars@.skip(next as int)));
                assert(source_lines(rest).drop_first() =~= source_lines(chars@.skip(next as int)));
            }
            match keyword_at(&chars, start, stop) {
                Some(token) => {
                    proof {
                        if let Ok(later) = lex_source(chars@.skip(next as int)) {
                            assert(tokens@.push(token) + later =~= tokens@ + (seq![token] + later));
                        }
                    }
                    tokens.push(token);
                },
                None => {
                    let text = src.substring_char(start, stop);
                    return Err(CompileError::UnknownCommand(text.to_owned()));
                },
            }
            start = next;
        }
        assert(tokens@ + Seq::<OpCodeEnum>::empty() =~= tokens@);
        Ok(tokens)
    }
}

} // verus!
