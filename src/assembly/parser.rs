use vstd::prelude::*;
use crate::strings::{parse_i32, parsed_i32, same_text, split_lines, split_words, trim, trimmed, words};
use crate::text::lines_of;

verus! {

/// One instruction of the stack machine.
#[derive(Debug, Clone, Copy, PartialEq, Eq)]
pub enum Instr {
    Nop,
    LoadI32(i32),
    Add,
    Halt,
}

/// A list of instructions.
#[derive(Debug, Clone)]
pub struct Program {
    pub instructions: Vec<Instr>,
}

/// The instruction a trimmed source line gives: none for a blank line or a
/// `#` comment; `nop`, `load.i32 <n>` (0 when `n` is no `i32`), `add`, `halt`;
/// anything else is a `nop`.
pub open spec fn instr_of(t: Seq<char>) -> Option<Instr> {
    if t.len() == 0 || t[0] == '#' {
        None
    } else {
        let ws = words(t);
        Some(
            if ws == seq![seq!['n', 'o', 'p']] {
                Instr::Nop
            } else if ws.len() == 2 && ws[0] == seq!['l', 'o', 'a', 'd', '.', 'i', '3', '2'] {
                Instr::LoadI32(
                    match parsed_i32(ws[1]) {
                        Some(v) => v,
                        None => 0,
                    },
                )
            } else if ws == seq![seq!['a', 'd', 'd']] {
                Instr::Add
            } else if ws == seq![seq!['h', 'a', 'l', 't']] {
                Instr::Halt
            } else {
                Instr::Nop
            },
        )
    }
}

/// The instructions of the source lines `ls`, in order.
pub open spec fn program_of(ls: Seq<Seq<char>>) -> Seq<Instr>
    decreases ls.len(),
{
    if ls.len() == 0 {
        Seq::empty()
    } else {
        program_of(ls.drop_last()) + match instr_of(trimmed(ls.last())) {
            Some(i) => seq![i],
            None => Seq::empty(),
        }
    }
}

fn instr_for(t: &String) -> (r: Option<Instr>)
    ensures
        r == instr_of(t@),
{
    proof {
        reveal_strlit("nop");
        reveal_strlit("load.i32");
        reveal_strlit("add");
        reveal_strlit("halt");
        assert("nop"@ =~= seq!['n', 'o', 'p']);
        assert("load.i32"@ =~= seq!['l', 'o', 'a', 'd', '.', 'i', '3', '2']);
        assert("add"@ =~= seq!['a', 'd', 'd']);
        assert("halt"@ =~= seq!['h', 'a', 'l', 't']);
    }
    let s = t.as_str();
    if s.is_empty() {
        return None;
    }
    let v = crate::strings::chars_of(s);
    if v[0] == '#' {
        return None;
    }
    let parts = split_words(s);
    let ghost ws = words(t@);
    let n = parts.len();
    if n == 1 && same_text(&parts[0], "nop") {
        assert(ws =~= seq![seq!['n', 'o', 'p']]);
        Some(Instr::Nop)
    } else if n == 2 && same_text(&parts[0], "load.i32") {
        let value = match parse_i32(parts[1].as_str()) {
            Some(v) => v,
            None => 0,
        };
        Some(Instr::LoadI32(value))
    } else if n == 1 && same_text(&parts[0], "add") {
        assert(ws =~= seq![seq!['a', 'd', 'd']]);
        Some(Instr::Add)
    } else if n == 1 && same_text(&parts[0], "halt") {
        assert(ws =~= seq![seq!['h', 'a', 'l', 't']]);
        Some(Instr::Halt)
    } else {
        proof {
            if ws.len() == 1 {
                assert(ws[0] == parts@[0]@);
            }
        }
        Some(Instr::Nop)
    }
}

/// Reads a program: one instruction per line, blank and `#` lines skipped.
pub fn parse_program(source: &str) -> (p: Program)
    ensures
        p.instructions@ == program_of(lines_of(source@)),
{
    let lines = split_lines(source);
    let ghost ls = lines_of(source@);
    let mut instructions: Vec<Instr> = Vec::new();
    let mut i: usize = 0;
    assert(ls.take(0) =~= Seq::<Seq<char>>::empty());
    while i < lines.len()
        invariant
            i <= lines@.len(),
            lines@.len() == ls.len(),
            forall|k: int| 0 <= k < lines@.len() ==> (#[trigger] lines@[k])@ == ls[k],
            instructions@ == program_of(ls.take(i as int)),
        decreases lines@.len() - i,
    {
        let t = trim(lines[i].as_str());
        let ins = instr_for(&t);
        proof {
            assert(ls.take(i + 1).drop_last() =~= ls.take(i as int));
            assert(ls.take(i + 1).last() == ls[i as int]);
        }
        match ins {
            Some(x) => {
                instructions.push(x);
            },
            None => {
                assert(instructions@ + Seq::<Instr>::empty() =~= instructions@);
            },
        }
        i = i + 1;
    }
    assert(ls.take(ls.len() as int) =~= ls);
    Program { instructions }
}

} // verus!
