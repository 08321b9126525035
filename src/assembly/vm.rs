use vstd::prelude::*;
use super::parser::{Instr, Program};

verus! {

/// A stack machine running a program.
#[derive(Debug, Default)]
pub struct Vm {
    stack: Vec<i32>,
    ip: usize,
    halted: bool,
}

/// What a run left: whether the machine halted, and its stack.
#[derive(Debug, Clone)]
pub struct VmResult {
    pub halted: bool,
    pub stack: Vec<i32>,
}

/// A machine state as plain values.
pub struct VmState {
    pub stack: Seq<i32>,
    pub ip: int,
    pub halted: bool,
}

/// `v` wrapped into the `i32` range, as two's complement addition wraps.
pub open spec fn wrap_i32(v: int) -> i32 {
    if v > i32::MAX {
        (v - 0x1_0000_0000) as i32
    } else if v < i32::MIN {
        (v + 0x1_0000_0000) as i32
    } else {
        v as i32
    }
}

/// The top of `s` and the rest, or 0 and `s` when it is empty.
pub open spec fn pop_or_zero(s: Seq<i32>) -> (i32, Seq<i32>) {
    if s.len() > 0 {
        (s.last(), s.drop_last())
    } else {
        (0, s)
    }
}

/// One instruction carried out.
pub open spec fn step(i: Instr, st: VmState) -> VmState {
    let ip = st.ip + 1;
    match i {
        Instr::Nop => VmState { ip, ..st },
        Instr::LoadI32(v) => VmState { stack: st.stack.push(v), ip, ..st },
        Instr::Add => {
            let (rhs, s1) = pop_or_zero(st.stack);
            let (lhs, s2) = pop_or_zero(s1);
            VmState { stack: s2.push(wrap_i32(lhs + rhs)), ip, ..st }
        },
        Instr::Halt => VmState { halted: true, ip, ..st },
    }
}

/// The state once the machine stops: it halted or ran past the last instruction.
pub open spec fn run_from(prog: Seq<Instr>, st: VmState) -> VmState
    decreases prog.len() - st.ip,
    when st.ip >= 0
{
    if st.ip >= prog.len() || st.halted {
        st
    } else {
        run_from(prog, step(prog[st.ip], st))
    }
}

impl Vm {
    pub closed spec fn state(&self) -> VmState {
        VmState { stack: self.stack@, ip: self.ip as int, halted: self.halted }
    }

    pub fn new() -> (vm: Self)
        ensures
            vm.state() == (VmState { stack: Seq::empty(), ip: 0, halted: false }),
    {
        Self { stack: Vec::new(), ip: 0, halted: false }
    }

    fn pop_or_zero(&mut self) -> (v: i32)
        ensures
            (v, final(self).stack@) == pop_or_zero(old(self).stack@),
            final(self).ip == old(self).ip,
            final(self).halted == old(self).halted,
    {
        match self.stack.pop() {
            Some(v) => v,
            None => 0,
        }
    }

    /// Runs from the current instruction until the machine halts or the
    /// program ends.
    pub fn run(&mut self, program: &Program) -> (r: VmResult)
        ensures
            final(self).state() == run_from(program.instructions@, old(self).state()),
            r.halted == final(self).state().halted,
            r.stack@ == final(self).state().stack,
    {
        let ghost prog = program.instructions@;
        while self.ip < program.instructions.len() && !self.halted
            invariant
                prog == program.instructions@,
                run_from(prog, self.state()) == run_from(prog, old(self).state()),
            decreases prog.len() - self.ip,
        {
            let ghost before = self.state();
            match program.instructions[self.ip] {
                Instr::Nop => {},
                Instr::LoadI32(value) => self.stack.push(value),
                Instr::Add => {
                    let rhs = self.pop_or_zero();
                    let lhs = self.pop_or_zero();
                    let sum = lhs as i64 + rhs as i64;
                    let wrapped = if sum > i32::MAX as i64 {
                        (sum - 0x1_0000_0000) as i32
                    } else if sum < i32::MIN as i64 {
                        (sum + 0x1_0000_0000) as i32
                    } else {
                        sum as i32
                    };
                    self.stack.push(wrapped);
                },
                Instr::Halt => self.halted = true,
            }
            self.ip = self.ip + 1;
            assert(self.state() =~= step(prog[before.ip], before));
        }
        VmResult { halted: self.halted, stack: self.stack.clone() }
    }

    pub fn reset(&mut self)
        ensures
            final(self).state() == (VmState { stack: Seq::empty(), ip: 0, halted: false }),
    {
        self.stack.clear();
        self.ip = 0;
        self.halted = false;
    }
}

} // verus!
