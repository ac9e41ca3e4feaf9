//! The instruction set and the meaning of one tick of execution.

use vstd::prelude::*;

verus! {

/// One lexical unit: what a single source line stands for.
#[derive(PartialEq, Eq, Structural, Debug, Clone, Copy)]
pub enum OpCodeEnum {
    Step,
    TurnLeft,
    TurnRight,
    TurnRandom,
    LoopStart,
    LoopEnd,
    If,
    EndIf,
}

/// One instruction of a compiled program. Jump targets are absolute indices
/// into the program.
#[derive(PartialEq, Eq, Structural, Debug, Clone, Copy)]
pub enum CommandEnum {
    Step,
    TurnLeft,
    TurnRight,
    TurnRandom,
    /// Jump to the target unconditionally.
    GoTo(usize),
    /// Jump to the target if the bot cannot advance, else fall through.
    GoToNE(usize),
}

/// Which kind of block the compiler is inside of.
#[derive(PartialEq, Eq, Structural, Debug, Clone, Copy)]
pub enum ParserStateEnum {
    Loop,
    If,
    Root,
}

/// What a bot asks the grid to do for it in one tick.
#[derive(PartialEq, Eq, Structural, Debug, Clone, Copy)]
pub enum BotActionEnum {
    Step,
    TurnLeft,
    TurnRight,
    Nop,
}

/// The mathematical model of a bot: its program and its instruction pointer.
pub ghost struct BotState {
    pub program: Seq<CommandEnum>,
    pub pointer: nat,
}

/// What a bot is given in one tick: whether the cell ahead is free, and the
/// coin that decides a random turn.
pub ghost struct Tick {
    pub can_step: bool,
    pub coin: bool,
}

/// The jump target of an instruction, if it is a jump.
pub open spec fn jump_target(command: CommandEnum) -> Option<nat> {
    match command {
        CommandEnum::GoTo(target) => Some(target as nat),
        CommandEnum::GoToNE(target) => Some(target as nat),
        _ => None,
    }
}

/// Every jump in `program` lands inside the program or right behind its
/// last instruction.
pub open spec fn targets_in_range(program: Seq<CommandEnum>) -> bool {
    forall|i: int| 0 <= i < program.len() ==> jump_in_range(program, i)
}

/// The instruction at `i`, if it is a jump, lands inside `program` or right
/// behind its last instruction.
pub open spec fn jump_in_range(program: Seq<CommandEnum>, i: int) -> bool {
    match jump_target(program[i]) {
        Some(target) => target <= program.len(),
        None => true,
    }
}

impl BotState {
    /// The state a freshly loaded program starts in.
    pub open spec fn loaded(program: Seq<CommandEnum>) -> BotState {
        BotState { program, pointer: 0 }
    }

    /// The same program with the pointer moved.
    pub open spec fn at(self, pointer: nat) -> BotState {
        BotState { program: self.program, pointer }
    }

    /// The pointer is at an instruction or right behind the last one, and
    /// no jump leaves that range.
    pub open spec fn wf(self) -> bool {
        &&& self.pointer <= self.program.len()
        &&& targets_in_range(self.program)
    }

    /// Whether the instruction that runs next is a random turn, the only
    /// one whose outcome hangs on the coin.
    pub open spec fn awaits_coin(self) -> bool {
        self.pointer < self.program.len() && self.program[self.pointer as int]
            == CommandEnum::TurnRandom
    }

    /// One tick. `can_step` says whether the cell ahead is free; `coin`
    /// decides a random turn (`true` turns right).
    ///
    /// With the pointer behind the program the bot restarts and idles for
    /// this tick. Otherwise the instruction at the pointer runs: the pointer
    /// moves on by one, and a jump then overwrites it. A conditional jump
    /// is taken when the bot can *not* advance.
    pub open spec fn step(self, can_step: bool, coin: bool) -> (BotState, BotActionEnum) {
        if self.pointer >= self.program.len() {
            (self.at(0), BotActionEnum::Nop)
        } else {
            match self.program[self.pointer as int] {
                CommandEnum::Step => (self.at(self.pointer + 1), BotActionEnum::Step),
                CommandEnum::TurnLeft => (self.at(self.pointer + 1), BotActionEnum::TurnLeft),
                CommandEnum::TurnRight => (self.at(self.pointer + 1), BotActionEnum::TurnRight),
                CommandEnum::TurnRandom => (
                    self.at(self.pointer + 1),
                    if coin {
                        BotActionEnum::TurnRight
                    } else {
                        BotActionEnum::TurnLeft
                    },
                ),
                CommandEnum::GoTo(target) => (self.at(target as nat), BotActionEnum::Nop),
                CommandEnum::GoToNE(target) => (
                    if can_step {
                        self.at(self.pointer + 1)
                    } else {
                        self.at(target as nat)
                    },
                    BotActionEnum::Nop,
                ),
            }
        }
    }

    /// The state after one tick for each of `ticks`, in order.
    pub open spec fn run(self, ticks: Seq<Tick>) -> BotState
        decreases ticks.len(),
    {
        if ticks.len() == 0 {
            self
        } else {
            self.run(ticks.drop_last()).step(ticks.last().can_step, ticks.last().coin).0
        }
    }

    /// The actions of one tick for each of `ticks`, in order.
    pub open spec fn actions(self, ticks: Seq<Tick>) -> Seq<BotActionEnum>
        decreases ticks.len(),
    {
        if ticks.len() == 0 {
            Seq::empty()
        } else {
            self.actions(ticks.drop_last()).push(
                self.run(ticks.drop_last()).step(ticks.last().can_step, ticks.last().coin).1,
            )
        }
    }
}

/// The action of an instruction that is no jump; `coin` decides a random
/// turn.
pub open spec fn plain_action(command: CommandEnum, coin: bool) -> BotActionEnum {
    match command {
        CommandEnum::Step => BotActionEnum::Step,
        CommandEnum::TurnLeft => BotActionEnum::TurnLeft,
        CommandEnum::TurnRight => BotActionEnum::TurnRight,
        CommandEnum::TurnRandom => if coin {
            BotActionEnum::TurnRight
        } else {
            BotActionEnum::TurnLeft
        },
        _ => BotActionEnum::Nop,
    }
}

} // verus!
