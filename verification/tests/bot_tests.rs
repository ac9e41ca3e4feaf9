use grid_bots::{Bot, BotActionEnum, CommandEnum, CompileError, OpCodeEnum, ParserStateEnum};

fn program_of(bot: &Bot) -> Vec<CommandEnum> {
    let mut program = Vec::new();
    let mut index = 0;
    while let Some(command) = bot.command(index) {
        program.push(command);
        index += 1;
    }
    program
}

fn compiled(src: &str) -> Vec<CommandEnum> {
    let mut bot = Bot::new();
    assert_eq!(bot.load_from_string(src.to_string()), Ok(()));
    program_of(&bot)
}

fn failure(src: &str) -> String {
    let mut bot = Bot::new();
    match bot.load_from_string(src.to_string()) {
        Ok(()) => panic!("{:?} compiled", src),
        Err(text) => text,
    }
}

#[test]
fn new_bot_is_empty_and_idles() {
    let mut bot = Bot::new();
    assert_eq!(bot.program_len(), 0);
    assert_eq!(bot.pointer(), 0);
    assert_eq!(bot.command(0), None);
    assert_eq!(bot.do_step(true), Some(BotActionEnum::Nop));
    assert_eq!(bot.do_step(false), Some(BotActionEnum::Nop));
    assert_eq!(bot.pointer(), 0);
}

#[test]
fn lex_gives_one_token_per_line() {
    let tokens = Bot::lex("if\nendIf\nstep\nleft\nright\nleftOrRight\nloop\nendLoop").unwrap();
    assert_eq!(
        tokens,
        vec![
            OpCodeEnum::If,
            OpCodeEnum::EndIf,
            OpCodeEnum::Step,
            OpCodeEnum::TurnLeft,
            OpCodeEnum::TurnRight,
            OpCodeEnum::TurnRandom,
            OpCodeEnum::LoopStart,
            OpCodeEnum::LoopEnd,
        ]
    );
}

#[test]
fn lex_of_empty_text_is_empty() {
    assert_eq!(Bot::lex("").unwrap(), vec![]);
    assert_eq!(compiled(""), vec![]);
}

#[test]
fn lex_accepts_a_final_line_ending() {
    assert_eq!(Bot::lex("step\n").unwrap(), vec![OpCodeEnum::Step]);
    assert_eq!(Bot::lex("step\nleft\n").unwrap(), vec![OpCodeEnum::Step, OpCodeEnum::TurnLeft]);
}

#[test]
fn lex_takes_carriage_return_with_line_feed_as_line_ending() {
    assert_eq!(
        Bot::lex("step\r\nleft\r\n").unwrap(),
        vec![OpCodeEnum::Step, OpCodeEnum::TurnLeft]
    );
    assert_eq!(Bot::lex("step\r\nleft").unwrap(), vec![OpCodeEnum::Step, OpCodeEnum::TurnLeft]);
}

#[test]
fn lex_keeps_a_carriage_return_without_line_feed() {
    match Bot::lex("step\r") {
        Err(CompileError::UnknownCommand(line)) => assert_eq!(line, "step\r"),
        other => panic!("{:?}", other),
    }
    match Bot::lex("st\rep\nleft") {
        Err(CompileError::UnknownCommand(line)) => assert_eq!(line, "st\rep"),
        other => panic!("{:?}", other),
    }
}

#[test]
fn lex_strips_one_carriage_return_only() {
    match Bot::lex("step\r\r\nleft") {
        Err(CompileError::UnknownCommand(line)) => assert_eq!(line, "step\r"),
        other => panic!("{:?}", other),
    }
}

#[test]
fn lex_rejects_an_empty_line() {
    match Bot::lex("step\n\nleft") {
        Err(CompileError::UnknownCommand(line)) => assert_eq!(line, ""),
        other => panic!("{:?}", other),
    }
    match Bot::lex("\n") {
        Err(CompileError::UnknownCommand(line)) => assert_eq!(line, ""),
        other => panic!("{:?}", other),
    }
}

#[test]
fn lex_does_not_trim() {
    match Bot::lex("step\n left") {
        Err(CompileError::UnknownCommand(line)) => assert_eq!(line, " left"),
        other => panic!("{:?}", other),
    }
    match Bot::lex("step \nleft") {
        Err(CompileError::UnknownCommand(line)) => assert_eq!(line, "step "),
        other => panic!("{:?}", other),
    }
    match Bot::lex("Step") {
        Err(CompileError::UnknownCommand(line)) => assert_eq!(line, "Step"),
        other => panic!("{:?}", other),
    }
}

#[test]
fn lex_names_the_first_unknown_line() {
    match Bot::lex("step\nfoo\nbar") {
        Err(CompileError::UnknownCommand(line)) => assert_eq!(line, "foo"),
        other => panic!("{:?}", other),
    }
}

#[test]
fn lex_handles_text_outside_ascii() {
    match Bot::lex("step\nшаг\nleft") {
        Err(CompileError::UnknownCommand(line)) => assert_eq!(line, "шаг"),
        other => panic!("{:?}", other),
    }
}

#[test]
fn unknown_keyword_fails_and_is_named() {
    let text = failure("foo");
    assert!(text.contains("foo"));
    assert_eq!(text, "Нет такой комманды: foo");
}

#[test]
fn unknown_keyword_goes_before_block_errors() {
    assert_eq!(failure("endLoop\nfoo"), "Нет такой комманды: foo");
    assert_eq!(failure("loop\nfoo"), "Нет такой комманды: foo");
}

#[test]
fn unterminated_loop_fails() {
    assert_eq!(failure("loop\nstep"), "Похоже есть if или цикл не закрытый");
}

#[test]
fn unterminated_if_fails() {
    assert_eq!(failure("if\nstep"), "Похоже есть if или цикл не закрытый");
    assert_eq!(failure("loop\nif\nstep\nendIf"), "Похоже есть if или цикл не закрытый");
}

#[test]
fn end_loop_at_top_level_fails() {
    assert_eq!(failure("endLoop"), "Что то не так с циклами и ифами");
}

#[test]
fn end_if_at_top_level_fails() {
    assert_eq!(failure("endIf"), "Что то не так с циклами и ифами");
    assert_eq!(failure("step\nendIf\nstep"), "Что то не так с циклами и ифами");
}

#[test]
fn crossed_blocks_fail() {
    assert_eq!(failure("loop\nendIf"), "Что то не так с циклами и ифами");
    assert_eq!(failure("if\nendLoop"), "Что то не так с циклами и ифами");
    assert_eq!(failure("loop\nif\nendLoop\nendIf"), "Что то не так с циклами и ифами");
}

#[test]
fn first_block_error_is_reported() {
    assert_eq!(failure("endLoop\nloop"), "Что то не так с циклами и ифами");
    assert_eq!(failure("loop\nendLoop\nif"), "Похоже есть if или цикл не закрытый");
}

#[test]
fn compile_error_messages() {
    assert_eq!(
        CompileError::UnknownCommand("jump".to_string()).message(),
        "Нет такой комманды: jump"
    );
    assert_eq!(CompileError::Mismatched.message(), "Что то не так с циклами и ифами");
    assert_eq!(CompileError::Unterminated.message(), "Похоже есть if или цикл не закрытый");
}

#[test]
fn compile_gives_structured_errors() {
    assert!(matches!(Bot::compile("loop"), Err(CompileError::Unterminated)));
    assert!(matches!(Bot::compile("endIf"), Err(CompileError::Mismatched)));
    assert!(matches!(Bot::compile("go"), Err(CompileError::UnknownCommand(_))));
    assert_eq!(Bot::compile("step").unwrap(), vec![CommandEnum::Step]);
}

#[test]
fn failed_load_keeps_the_program() {
    let mut bot = Bot::new();
    assert_eq!(bot.load_from_string("step\nleft".to_string()), Ok(()));
    assert_eq!(bot.do_step(true), Some(BotActionEnum::Step));
    assert!(bot.load_from_string("loop\nstep".to_string()).is_err());
    assert_eq!(program_of(&bot), vec![CommandEnum::Step, CommandEnum::TurnLeft]);
    assert_eq!(bot.pointer(), 1);
}

#[test]
fn load_starts_at_the_first_instruction() {
    let mut bot = Bot::new();
    assert_eq!(bot.load_from_string("step\nleft\nright".to_string()), Ok(()));
    assert_eq!(bot.do_step(true), Some(BotActionEnum::Step));
    assert_eq!(bot.do_step(true), Some(BotActionEnum::TurnLeft));
    assert_eq!(bot.load_from_string("right".to_string()), Ok(()));
    assert_eq!(bot.pointer(), 0);
    assert_eq!(bot.do_step(true), Some(BotActionEnum::TurnRight));
}

#[test]
fn straight_line_program_has_one_instruction_per_line() {
    assert_eq!(
        compiled("step\nleft\nright\nleftOrRight\nstep"),
        vec![
            CommandEnum::Step,
            CommandEnum::TurnLeft,
            CommandEnum::TurnRight,
            CommandEnum::TurnRandom,
            CommandEnum::Step,
        ]
    );
}

#[test]
fn straight_line_program_runs_once_then_restarts() {
    let mut bot = Bot::new();
    assert_eq!(bot.load_from_string("step\nleft\nright\nleftOrRight\nstep".to_string()), Ok(()));
    for _ in 0..3 {
        assert_eq!(bot.do_step_with(false, false), Some(BotActionEnum::Step));
        assert_eq!(bot.do_step_with(true, false), Some(BotActionEnum::TurnLeft));
        assert_eq!(bot.do_step_with(false, true), Some(BotActionEnum::TurnRight));
        assert_eq!(bot.do_step_with(true, true), Some(BotActionEnum::TurnRight));
        assert_eq!(bot.do_step_with(true, false), Some(BotActionEnum::Step));
        assert_eq!(bot.pointer(), 5);
        assert_eq!(bot.do_step_with(true, false), Some(BotActionEnum::Nop));
        assert_eq!(bot.pointer(), 0);
    }
}

#[test]
fn random_turn_follows_the_coin() {
    let mut bot = Bot::new();
    assert_eq!(bot.load_from_string("leftOrRight\nleftOrRight".to_string()), Ok(()));
    assert!(bot.next_is_random_turn());
    assert_eq!(bot.do_step_with(true, true), Some(BotActionEnum::TurnRight));
    assert_eq!(bot.do_step_with(true, false), Some(BotActionEnum::TurnLeft));
    assert!(!bot.next_is_random_turn());
}

#[test]
fn random_turn_is_a_turn() {
    let mut bot = Bot::new();
    assert_eq!(bot.load_from_string("leftOrRight".to_string()), Ok(()));
    let mut left = 0;
    let mut right = 0;
    for _ in 0..400 {
        match bot.do_step(true) {
            Some(BotActionEnum::TurnLeft) => left += 1,
            Some(BotActionEnum::TurnRight) => right += 1,
            other => panic!("{:?}", other),
        }
        assert_eq!(bot.pointer(), 1);
        assert_eq!(bot.do_step(true), Some(BotActionEnum::Nop));
        assert_eq!(bot.pointer(), 0);
    }
    assert_eq!(left + right, 400);
    assert!(left > 0);
    assert!(right > 0);
}

#[test]
fn loop_jumps_behind_its_closing_jump() {
    assert_eq!(
        compiled("loop\nstep\nendLoop"),
        vec![CommandEnum::GoToNE(3), CommandEnum::Step, CommandEnum::GoTo(0)]
    );
    assert_eq!(
        compiled("left\nloop\nstep\nstep\nendLoop\nright"),
        vec![
            CommandEnum::TurnLeft,
            CommandEnum::GoToNE(5),
            CommandEnum::Step,
            CommandEnum::Step,
            CommandEnum::GoTo(1),
            CommandEnum::TurnRight,
        ]
    );
}

#[test]
fn empty_loop_compiles_to_two_jumps() {
    assert_eq!(compiled("loop\nendLoop"), vec![CommandEnum::GoToNE(2), CommandEnum::GoTo(0)]);
}

#[test]
fn if_jumps_behind_its_body() {
    assert_eq!(
        compiled("if\nstep\nendIf\nleft"),
        vec![CommandEnum::GoToNE(2), CommandEnum::Step, CommandEnum::TurnLeft]
    );
    assert_eq!(
        compiled("right\nif\nstep\nleft\nendIf"),
        vec![
            CommandEnum::TurnRight,
            CommandEnum::GoToNE(4),
            CommandEnum::Step,
            CommandEnum::TurnLeft,
        ]
    );
    assert_eq!(compiled("if\nendIf"), vec![CommandEnum::GoToNE(1)]);
}

#[test]
fn blocks_behind_blocks_keep_absolute_targets() {
    assert_eq!(
        compiled("loop\nstep\nendLoop\nloop\nstep\nendLoop"),
        vec![
            CommandEnum::GoToNE(3),
            CommandEnum::Step,
            CommandEnum::GoTo(0),
            CommandEnum::GoToNE(6),
            CommandEnum::Step,
            CommandEnum::GoTo(3),
        ]
    );
    assert_eq!(
        compiled("if\nstep\nendIf\nif\nleft\nendIf\nloop\nendLoop"),
        vec![
            CommandEnum::GoToNE(2),
            CommandEnum::Step,
            CommandEnum::GoToNE(4),
            CommandEnum::TurnLeft,
            CommandEnum::GoToNE(6),
            CommandEnum::GoTo(4),
        ]
    );
}

#[test]
fn nested_blocks_compile_flat() {
    assert_eq!(
        compiled("loop\nloop\nstep\nendLoop\nleftOrRight\nendLoop\nleft"),
        vec![
            CommandEnum::GoToNE(6),
            CommandEnum::GoToNE(4),
            CommandEnum::Step,
            CommandEnum::GoTo(1),
            CommandEnum::TurnRandom,
            CommandEnum::GoTo(0),
            CommandEnum::TurnLeft,
        ]
    );
    assert_eq!(
        compiled("loop\nif\nstep\nendIf\nif\nloop\nleft\nendLoop\nendIf\nendLoop\nright"),
        vec![
            CommandEnum::GoToNE(8),
            CommandEnum::GoToNE(3),
            CommandEnum::Step,
            CommandEnum::GoToNE(7),
            CommandEnum::GoToNE(7),
            CommandEnum::TurnLeft,
            CommandEnum::GoTo(4),
            CommandEnum::GoTo(0),
            CommandEnum::TurnRight,
        ]
    );
}

#[test]
fn parse_compiles_a_block_from_the_middle() {
    let tokens = vec![
        OpCodeEnum::LoopStart,
        OpCodeEnum::Step,
        OpCodeEnum::LoopEnd,
        OpCodeEnum::TurnLeft,
    ];
    let (code, next) = Bot::parse(&tokens, 1, 1, ParserStateEnum::Loop).unwrap();
    assert_eq!(code, vec![CommandEnum::Step]);
    assert_eq!(next, 3);
    let (code, next) = Bot::parse(&tokens, 0, 10, ParserStateEnum::Root).unwrap();
    assert_eq!(
        code,
        vec![
            CommandEnum::GoToNE(13),
            CommandEnum::Step,
            CommandEnum::GoTo(10),
            CommandEnum::TurnLeft,
        ]
    );
    assert_eq!(next, 4);
    assert!(matches!(
        Bot::parse(&tokens, 3, 0, ParserStateEnum::If),
        Err(CompileError::Unterminated)
    ));
    assert!(matches!(
        Bot::parse(&tokens, 2, 0, ParserStateEnum::If),
        Err(CompileError::Mismatched)
    ));
    let (code, next) = Bot::parse(&tokens, 4, 7, ParserStateEnum::Root).unwrap();
    assert_eq!(code, vec![]);
    assert_eq!(next, 4);
}

#[test]
fn if_body_runs_when_the_bot_can_advance() {
    let mut bot = Bot::new();
    assert_eq!(bot.load_from_string("if\nstep\nendIf\nleft".to_string()), Ok(()));
    assert_eq!(bot.do_step_with(true, false), Some(BotActionEnum::Nop));
    assert_eq!(bot.pointer(), 1);
    assert_eq!(bot.do_step_with(true, false), Some(BotActionEnum::Step));
    assert_eq!(bot.do_step_with(true, false), Some(BotActionEnum::TurnLeft));
    assert_eq!(bot.do_step_with(true, false), Some(BotActionEnum::Nop));
    assert_eq!(bot.pointer(), 0);
}

#[test]
fn if_body_is_skipped_when_the_bot_is_blocked() {
    let mut bot = Bot::new();
    assert_eq!(bot.load_from_string("if\nstep\nendIf\nleft".to_string()), Ok(()));
    assert_eq!(bot.do_step_with(false, false), Some(BotActionEnum::Nop));
    assert_eq!(bot.pointer(), 2);
    assert_eq!(bot.do_step_with(false, false), Some(BotActionEnum::TurnLeft));
}

#[test]
fn loop_repeats_until_the_bot_is_blocked() {
    let mut bot = Bot::new();
    assert_eq!(bot.load_from_string("loop\nstep\nendLoop\nright".to_string()), Ok(()));
    for _ in 0..5 {
        assert_eq!(bot.pointer(), 0);
        assert_eq!(bot.do_step_with(true, false), Some(BotActionEnum::Nop));
        assert_eq!(bot.do_step_with(true, false), Some(BotActionEnum::Step));
        assert_eq!(bot.do_step_with(true, false), Some(BotActionEnum::Nop));
    }
    assert_eq!(bot.pointer(), 0);
    assert_eq!(bot.do_step_with(false, false), Some(BotActionEnum::Nop));
    assert_eq!(bot.pointer(), 3);
    assert_eq!(bot.do_step_with(false, false), Some(BotActionEnum::TurnRight));
    assert_eq!(bot.pointer(), 4);
    assert_eq!(bot.do_step_with(false, false), Some(BotActionEnum::Nop));
    assert_eq!(bot.pointer(), 0);
}

#[test]
fn jump_at_the_end_lands_behind_the_program() {
    let mut bot = Bot::new();
    assert_eq!(bot.load_from_string("loop\nendLoop".to_string()), Ok(()));
    assert_eq!(bot.do_step_with(false, false), Some(BotActionEnum::Nop));
    assert_eq!(bot.pointer(), 2);
    assert_eq!(bot.pointer(), bot.program_len());
    assert_eq!(bot.do_step_with(false, false), Some(BotActionEnum::Nop));
    assert_eq!(bot.pointer(), 0);
}

#[test]
fn pointer_stays_in_range_on_any_run() {
    let sources = [
        "loop\nloop\nstep\nendLoop\nleftOrRight\nendLoop\nleft",
        "if\nif\nif\nstep\nendIf\nendIf\nendIf",
        "loop\nif\nstep\nendIf\nif\nloop\nleft\nendLoop\nendIf\nendLoop\nright",
        "",
        "step",
    ];
    for source in sources {
        let mut bot = Bot::new();
        assert_eq!(bot.load_from_string(source.to_string()), Ok(()));
        let mut seed: u32 = 12345;
        for _ in 0..2000 {
            seed = seed.wrapping_mul(1664525).wrapping_add(1013904223);
            let can_step = seed & 0x10000 != 0;
            let coin = seed & 0x20000 != 0;
            let at_end = bot.pointer() == bot.program_len();
            let action = bot.do_step_with(can_step, coin);
            assert!(action.is_some());
            assert!(bot.pointer() <= bot.program_len());
            if at_end {
                assert_eq!(action, Some(BotActionEnum::Nop));
                assert_eq!(bot.pointer(), 0);
            }
        }
    }
}

fn token_of(line: &str) -> Option<OpCodeEnum> {
    match line {
        "if" => Some(OpCodeEnum::If),
        "endIf" => Some(OpCodeEnum::EndIf),
        "step" => Some(OpCodeEnum::Step),
        "left" => Some(OpCodeEnum::TurnLeft),
        "right" => Some(OpCodeEnum::TurnRight),
        "leftOrRight" => Some(OpCodeEnum::TurnRandom),
        "loop" => Some(OpCodeEnum::LoopStart),
        "endLoop" => Some(OpCodeEnum::LoopEnd),
        _ => None,
    }
}

#[test]
fn lex_splits_lines_as_the_standard_library_does() {
    let words = ["step", "loop", "", "go", "endIf\r", "\r", "leftOrRight", " left"];
    let ends = ["\n", "\r\n", "\n\n", "\r", "\r\r\n", ""];
    let mut texts = Vec::new();
    for first in words {
        for end in ends {
            texts.push(format!("{}{}", first, end));
            for second in words {
                for last in ends {
                    texts.push(format!("{}{}{}{}", first, end, second, last));
                }
            }
        }
    }
    assert_eq!(texts.len(), 8 * 6 + 8 * 6 * 8 * 6);
    for text in texts {
        let mut expected: Result<Vec<OpCodeEnum>, String> = Ok(Vec::new());
        for line in text.lines() {
            match token_of(line) {
                Some(token) => expected.as_mut().unwrap().push(token),
                None => {
                    expected = Err(line.to_string());
                    break;
                }
            }
        }
        let found = match Bot::lex(&text) {
            Ok(tokens) => Ok(tokens),
            Err(CompileError::UnknownCommand(line)) => Err(line),
            Err(other) => panic!("{:?}", other),
        };
        assert_eq!(found, expected, "{:?}", text);
    }
}
