//! A bot: a compiled program and the pointer into it.

use crate::compiler::compile_source;
use crate::program::{jump_in_range, BotActionEnum, BotState, CommandEnum};
use crate::random::random_below;
use vstd::prelude::*;

verus! {

/// Executes a compiled program one instruction per tick. A bot knows
/// nothing of the grid: it is told whether it can advance and answers with
/// the action it wants.
#[derive(Debug)]
pub struct Bot {
    program: Vec<CommandEnum>,
    command_ptr: usize,
}

impl View for Bot {
    type V = BotState;

    closed spec fn view(&self) -> BotState {
        BotState { program: self.program@, pointer: self.command_ptr as nat }
    }
}

impl Bot {
    /// See [`BotState::wf`].
    pub open spec fn wf(&self) -> bool {
        self@.wf()
    }

    /// A bot with an empty program.
    pub fn new() -> (bot: Self)
        ensures
            bot@ == BotState::loaded(Seq::empty()),
            bot.wf(),
    {
        Self { program: Vec::new(), command_ptr: 0 }
    }

    /// Compiles `src` and installs the program, with the pointer at its
    /// first instruction. On failure the bot is left as it was and the
    /// message of the failure is returned.
    pub fn load_from_string(&mut self, src: String) -> (result: Result<(), String>)
        ensures
            match compile_source(src@) {
                Ok(program) => {
                    &&& result is Ok
                    &&& final(self)@ == BotState::loaded(program)
                    &&& final(self).wf()
                },
                Err(failure) => {
                    &&& result matches Err(text)
                    &&& text@ == failure.message()
                    &&& final(self)@ == old(self)@
                },
            },
    {
        match Self::compile(src.as_str()) {
            Ok(program) => {
                self.program = program;
                self.command_ptr = 0;
                Ok(())
            },
            Err(error) => Err(error.message()),
        }
    }

    /// The number of instructions in the program.
    pub fn program_len(&self) -> (len: usize)
        ensures
            len == self@.program.len(),
    {
        self.program.len()
    }

    /// The index of the instruction that runs next.
    pub fn pointer(&self) -> (pointer: usize)
        ensures
            pointer == self@.pointer,
    {
        self.command_ptr
    }

    /// The instruction at `index`, or `None` behind the end of the program.
    pub fn command(&self, index: usize) -> (command: Option<CommandEnum>)
        ensures
            command == if index < self@.program.len() {
                Some(self@.program[index as int])
            } else {
                None
            },
    {
        if index < self.program.len() {
            Some(self.program[index])
        } else {
            None
        }
    }

    /// Whether the instruction that runs next is a random turn, the only
    /// one whose outcome is left to chance.
    pub fn next_is_random_turn(&self) -> (random: bool)
        ensures
            random == self@.awaits_coin(),
    {
        if self.command_ptr < self.program.len() {
            match self.program[self.command_ptr] {
                CommandEnum::TurnRandom => true,
                _ => false,
            }
        } else {
            false
        }
    }

    /// Runs one tick, with the outcome of a random turn decided by the
    /// caller: `coin` is used only if the instruction is a random turn,
    /// and `true` then turns right.
    pub fn do_step_with(&mut self, can_step: bool, coin: bool) -> (action: Option<BotActionEnum>)
        requires
            old(self).wf(),
        ensures
            final(self)@ == old(self)@.step(can_step, coin).0,
            action == Some(old(self)@.step(can_step, coin).1),
            final(self).wf(),
    {
        if self.command_ptr >= self.program.len() {
            self.command_ptr = 0;
            return Some(BotActionEnum::Nop);
        }
        let current_command = self.program[self.command_ptr];
        assert(jump_in_range(self.program@, self.command_ptr as int));
        self.command_ptr += 1;
        match current_command {
            CommandEnum::Step => Some(BotActionEnum::Step),
            CommandEnum::TurnLeft => Some(BotActionEnum::TurnLeft),
            CommandEnum::TurnRight => Some(BotActionEnum::TurnRight),
            CommandEnum::TurnRandom => {
                if coin {
                    Some(BotActionEnum::TurnRight)
                } else {
                    Some(BotActionEnum::TurnLeft)
                }
            },
            CommandEnum::GoTo(new_ptr) => {
                self.command_ptr = new_ptr;
                Some(BotActionEnum::Nop)
            },
            CommandEnum::GoToNE(new_ptr) => {
                if !can_step {
                    self.command_ptr = new_ptr;
                }
                Some(BotActionEnum::Nop)
            },
        }
    }

    /// Runs one tick. A random turn goes right or left on a fair coin, so
    /// the outcome is one of the two that [`Bot::do_step_with`] can give;
    /// for every other instruction there is one outcome only.
    pub fn do_step(&mut self, can_step: bool) -> (action: Option<BotActionEnum>)
        requires
            old(self).wf(),
        ensures
            exists|coin: bool|
                {
                    &&& final(self)@ == (#[trigger] old(self)@.step(can_step, coin)).0
                    &&& action == Some(old(self)@.step(can_step, coin).1)
                },
            !old(self)@.awaits_coin() ==> {
                &&& final(self)@ == old(self)@.step(can_step, false).0
                &&& action == Some(old(self)@.step(can_step, false).1)
            },
            final(self).wf(),
    {
        let coin = if self.next_is_random_turn() {
            random_below(2) == 0
        } else {
            false
        };
        self.do_step_with(can_step, coin)
    }
}

} // verus!
