//! Whole-program statements about the machine's model: what running the
//! streams that literal statements compile to yields, for every value of
//! the literal.

use vstd::prelude::*;

use crate::code::{be_u16, opcode_of_byte, opcode_value, Opcode};
use crate::object::ObjV;
use crate::vm::{
    advance, lemma_halted_within_budget, m_push, run_model, step_op, with_ip, FrameModel,
    StepResult, VmModel,
};

verus! {

broadcast use vstd::std_specs::vec::group_vec_axioms, vstd::seq::group_seq_axioms;

/// The instruction stream a lone pooled-literal statement (an integer or
/// a string) compiles to: load the pool's first entry, then discard it.
pub open spec fn constant_pop_code() -> Seq<u8> {
    seq![
        opcode_value(Opcode::Constant),
        0u8,
        0u8,
        opcode_value(Opcode::Pop),
    ]
}

/// The instruction stream a lone boolean-literal statement compiles to:
/// the boolean singleton opcode, then pop. Booleans never enter the pool.
pub open spec fn boolean_pop_code(b: bool) -> Seq<u8> {
    seq![
        opcode_value(if b { Opcode::True } else { Opcode::False }),
        opcode_value(Opcode::Pop),
    ]
}

/// The machine state at the start of a run over `code` with the given
/// constant pool and global slots.
pub open spec fn start_state(code: Seq<u8>, constants: Seq<ObjV>, globals: Seq<ObjV>) -> VmModel {
    VmModel {
        constants,
        stack: Seq::empty(),
        globals,
        frames: seq![FrameModel { code, ip: 0, base: 0 }],
        last_popped: None,
    }
}

/// Running the lone load-constant statement halts after three steps with
/// the constant as the last popped value and an empty stack, whatever the
/// constant and whatever the globals hold: a pooled literal comes back
/// from a run unchanged.
pub proof fn lemma_constant_pop_program_halts(v: ObjV, globals: Seq<ObjV>)
    ensures
        run_model(start_state(constant_pop_code(), seq![v], globals), 3) matches
            StepResult::Halted(h) && h.last_popped == Some(v) && h.stack.len() == 0,
        run_model(start_state(constant_pop_code(), seq![v], globals), u64::MAX as nat) matches
            StepResult::Halted(h) && h.last_popped == Some(v),
        forall|k: nat|
            !(run_model(start_state(constant_pop_code(), seq![v], globals), k) is Failed),
{
    let c = constant_pop_code();
    assert(c.len() == 4);
    assert(c[0] == 0 && c[1] == 0 && c[2] == 0 && c[3] == 1);
    let m = start_state(c, seq![v], globals);
    let f1 = FrameModel { code: c, ip: 3, base: 0 };
    let m1 = VmModel { stack: seq![v], frames: seq![f1], ..m };
    let f2 = FrameModel { code: c, ip: 4, base: 0 };
    let m2 = VmModel {
        stack: Seq::empty(),
        frames: seq![f2],
        last_popped: Some(v),
        ..m
    };

    // step one: load-constant pushes the pool's first entry
    assert(opcode_of_byte(c[0]) == Some(Opcode::Constant));
    assert(be_u16(c[1], c[2]) == 0);
    let w = with_ip(m, 3);
    assert(w.frames =~= seq![f1]);
    assert(advance(m) == step_op(w, Opcode::Constant, 0));
    assert(m_push(w, v).stack =~= seq![v]);
    assert(m_push(w, v) =~= m1);
    assert(advance(m) == StepResult::Running(m1));

    // step two: pop discards it and retains it as the last popped value
    assert(opcode_of_byte(c[3]) == Some(Opcode::Pop));
    let w1 = with_ip(m1, 4);
    assert(w1.frames =~= seq![f2]);
    assert(advance(m1) == step_op(w1, Opcode::Pop, 0));
    assert(seq![v].drop_last() =~= Seq::<ObjV>::empty());
    assert(seq![v].last() == v);
    assert((VmModel {
        stack: w1.stack.drop_last(),
        last_popped: Some(w1.stack.last()),
        ..w1
    }) =~= m2);
    assert(advance(m1) == StepResult::Running(m2));

    // step three: the top-level frame's pointer has reached its end
    assert(advance(m2) == StepResult::Halted(m2));
    assert(run_model(m, 0) == StepResult::Running(m));
    assert(run_model(m, 1) == advance(m));
    assert(run_model(m, 2) == advance(m1));
    assert(run_model(m, 3) == StepResult::Halted(m2));
    lemma_halted_within_budget(m, 3, m2);
}

/// Running the lone boolean-singleton statement halts after three steps
/// with exactly that boolean as the last popped value, whatever the
/// globals hold: a boolean literal comes back from a run unchanged.
pub proof fn lemma_boolean_pop_program_halts(b: bool, globals: Seq<ObjV>)
    ensures
        run_model(start_state(boolean_pop_code(b), Seq::empty(), globals), 3) matches
            StepResult::Halted(h) && h.last_popped == Some(ObjV::Bool(b)) && h.stack.len() == 0,
        run_model(start_state(boolean_pop_code(b), Seq::empty(), globals), u64::MAX as nat)
            matches StepResult::Halted(h) && h.last_popped == Some(ObjV::Bool(b)),
        forall|k: nat|
            !(run_model(start_state(boolean_pop_code(b), Seq::empty(), globals), k) is Failed),
{
    let c = boolean_pop_code(b);
    let op = if b { Opcode::True } else { Opcode::False };
    assert(c.len() == 2);
    assert(c[1] == 1);
    let m = start_state(c, Seq::empty(), globals);
    let f1 = FrameModel { code: c, ip: 1, base: 0 };
    let m1 = VmModel { stack: seq![ObjV::Bool(b)], frames: seq![f1], ..m };
    let f2 = FrameModel { code: c, ip: 2, base: 0 };
    let m2 = VmModel {
        stack: Seq::empty(),
        frames: seq![f2],
        last_popped: Some(ObjV::Bool(b)),
        ..m
    };

    // step one: the singleton opcode pushes its boolean
    if b {
        assert(opcode_of_byte(c[0]) == Some(Opcode::True));
    } else {
        assert(opcode_of_byte(c[0]) == Some(Opcode::False));
    }
    let w = with_ip(m, 1);
    assert(w.frames =~= seq![f1]);
    assert(advance(m) == step_op(w, op, 0));
    assert(m_push(w, ObjV::Bool(b)).stack =~= seq![ObjV::Bool(b)]);
    assert(m_push(w, ObjV::Bool(b)) =~= m1);
    assert(advance(m) == StepResult::Running(m1));

    // step two: pop discards it and retains it as the last popped value
    assert(opcode_of_byte(c[1]) == Some(Opcode::Pop));
    let w1 = with_ip(m1, 2);
    assert(w1.frames =~= seq![f2]);
    assert(advance(m1) == step_op(w1, Opcode::Pop, 0));
    assert(seq![ObjV::Bool(b)].drop_last() =~= Seq::<ObjV>::empty());
    assert((VmModel {
        stack: w1.stack.drop_last(),
        last_popped: Some(w1.stack.last()),
        ..w1
    }) =~= m2);
    assert(advance(m1) == StepResult::Running(m2));

    // step three: the top-level frame's pointer has reached its end
    assert(advance(m2) == StepResult::Halted(m2));
    assert(run_model(m, 0) == StepResult::Running(m));
    assert(run_model(m, 1) == advance(m));
    assert(run_model(m, 2) == advance(m1));
    assert(run_model(m, 3) == StepResult::Halted(m2));
    lemma_halted_within_budget(m, 3, m2);
}

} // verus!
