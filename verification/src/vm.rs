//! The virtual machine: executes a finished instruction stream against a
//! constant pool, over a value stack, a fixed-size global slot array and a
//! stack of call frames.
//!
//! Execution is specified against a deterministic small-step model:
//! `advance` performs one instruction on a `VmModel`, `run_model` iterates
//! it, and `run`'s contract states that the machine's outcome is exactly
//! an outcome of that model.

use vstd::prelude::*;

use crate::code::{be_u16, opcode_has_operand, opcode_of_byte, read_u16, Opcode};
use crate::compiler::Bytecode;
use crate::object::{
    lemma_obj_views_drop_last, lemma_obj_views_index, lemma_obj_views_push, obj_view, obj_views,
    truthy_spec, Object, ObjV,
};

verus! {

broadcast use vstd::std_specs::vec::group_vec_axioms, vstd::seq::group_seq_axioms;

/// The number of global slots the machine allocates.
pub const GLOBALS_SIZE: usize = 65536;

/// A runtime error: execution halts at the first one.
#[derive(Clone, Copy, PartialEq, Eq, Structural, Debug)]
pub enum VmError {
    /// A value was needed from an empty operand stack.
    EmptyStack,
    /// An operator was applied to operands of incompatible types.
    TypeMismatch,
    /// Division by zero.
    DivisionByZero,
    /// A hash key of a type that cannot be hashed.
    NotHashable,
    /// Indexing into a value that is not indexable, or with an index of
    /// the wrong type.
    IndexNotSupported,
    /// A call on a value that is not a compiled function.
    NotCallable,
    /// An unrecognized opcode byte: stream corruption.
    UnknownOpcode,
    /// An instruction's operand runs past the end of the stream.
    TruncatedInstruction,
    /// A constant operand beyond the constant pool.
    ConstantOutOfRange,
    /// A global operand beyond the global slot array.
    GlobalOutOfRange,
    /// A return-value instruction with no enclosing call frame.
    ReturnOutsideFunction,
    /// The machine's step budget ran out while the program was still
    /// running. The budget is 2^64 - 1 instructions, so this marks a
    /// program that does not terminate in any practical time (an
    /// unbounded loop over jump back-edges).
    StepLimitReached,
}

/// One call frame: the running function's instruction stream, its
/// instruction pointer, and the stack height at the moment of the call.
pub struct Frame {
    pub instructions: Vec<u8>,
    pub ip: usize,
    pub base_pointer: usize,
}

/// The mathematical state of one frame.
#[verifier::ext_equal]
pub struct FrameModel {
    pub code: Seq<u8>,
    pub ip: int,
    pub base: int,
}

/// The mathematical state of the whole machine.
#[verifier::ext_equal]
pub struct VmModel {
    pub constants: Seq<ObjV>,
    pub stack: Seq<ObjV>,
    pub globals: Seq<ObjV>,
    pub frames: Seq<FrameModel>,
    pub last_popped: Option<ObjV>,
}

/// The outcome of one model step: still running, halted normally, or
/// failed with a runtime error.
pub enum StepResult {
    Running(VmModel),
    Halted(VmModel),
    Failed(VmError),
}

/// Whether a value may serve as a hash key.
pub open spec fn hashable(v: ObjV) -> bool {
    v matches ObjV::Int(_) || v matches ObjV::Bool(_) || v matches ObjV::Str(_)
}

/// Whether a value belongs to the primitive kinds equality is defined on.
pub open spec fn primitive(v: ObjV) -> bool {
    hashable(v) || v == ObjV::Null
}

/// Equality as the machine computes it: defined on integers, booleans,
/// strings and null (mixed primitive kinds compare unequal); comparing a
/// composite value is not supported and yields `None`.
pub open spec fn prim_eq_model(a: ObjV, b: ObjV) -> Option<bool> {
    match (a, b) {
        (ObjV::Int(x), ObjV::Int(y)) => Some(x == y),
        (ObjV::Bool(x), ObjV::Bool(y)) => Some(x == y),
        (ObjV::Str(x), ObjV::Str(y)) => Some(x == y),
        _ => if primitive(a) && primitive(b) {
            if a == ObjV::Null && b == ObjV::Null {
                Some(true)
            } else {
                Some(false)
            }
        } else {
            None
        },
    }
}

/// What a binary opcode computes from its left and right operands.
/// Integer arithmetic wraps; `+` also concatenates strings; comparisons
/// order integers; equality follows `prim_eq_model`; logical and/or take
/// booleans and evaluate both operands (no short-circuit exists at this
/// level). Anything else is a type mismatch.
pub open spec fn binop_model(op: Opcode, l: ObjV, r: ObjV) -> Result<ObjV, VmError> {
    match op {
        Opcode::Add => match (l, r) {
            (ObjV::Int(x), ObjV::Int(y)) => Ok(
                ObjV::Int(vstd::wrapping::i64_specs::wrapping_add(x, y)),
            ),
            (ObjV::Str(x), ObjV::Str(y)) => Ok(ObjV::Str(x + y)),
            _ => Err(VmError::TypeMismatch),
        },
        Opcode::Sub => match (l, r) {
            (ObjV::Int(x), ObjV::Int(y)) => Ok(
                ObjV::Int(vstd::wrapping::i64_specs::wrapping_sub(x, y)),
            ),
            _ => Err(VmError::TypeMismatch),
        },
        Opcode::Mul => match (l, r) {
            (ObjV::Int(x), ObjV::Int(y)) => Ok(
                ObjV::Int(vstd::wrapping::i64_specs::wrapping_mul(x, y)),
            ),
            _ => Err(VmError::TypeMismatch),
        },
        Opcode::Div => match (l, r) {
            (ObjV::Int(x), ObjV::Int(y)) => if y == 0 {
                Err(VmError::DivisionByZero)
            } else {
                match x.checked_div(y) {
                    Some(q) => Ok(ObjV::Int(q)),
                    None => Ok(ObjV::Int(i64::MIN)),
                }
            },
            _ => Err(VmError::TypeMismatch),
        },
        Opcode::GreaterThan => match (l, r) {
            (ObjV::Int(x), ObjV::Int(y)) => Ok(ObjV::Bool(x > y)),
            _ => Err(VmError::TypeMismatch),
        },
        Opcode::GreaterEqualThan => match (l, r) {
            (ObjV::Int(x), ObjV::Int(y)) => Ok(ObjV::Bool(x >= y)),
            _ => Err(VmError::TypeMismatch),
        },
        Opcode::Equal => match prim_eq_model(l, r) {
            Some(b) => Ok(ObjV::Bool(b)),
            None => Err(VmError::TypeMismatch),
        },
        Opcode::NotEqual => match prim_eq_model(l, r) {
            Some(b) => Ok(ObjV::Bool(!b)),
            None => Err(VmError::TypeMismatch),
        },
        Opcode::And => match (l, r) {
            (ObjV::Bool(x), ObjV::Bool(y)) => Ok(ObjV::Bool(x && y)),
            _ => Err(VmError::TypeMismatch),
        },
        Opcode::Or => match (l, r) {
            (ObjV::Bool(x), ObjV::Bool(y)) => Ok(ObjV::Bool(x || y)),
            _ => Err(VmError::TypeMismatch),
        },
        _ => Err(VmError::TypeMismatch),
    }
}

/// Looking a key up among a hash's pairs: the value of the latest pair
/// whose key the machine's equality finds equal.
pub open spec fn hash_lookup(pairs: Seq<(ObjV, ObjV)>, key: ObjV) -> Option<ObjV>
    decreases pairs.len(),
{
    if pairs.len() == 0 {
        None
    } else if prim_eq_model(pairs.last().0, key) == Some(true) {
        Some(pairs.last().1)
    } else {
        hash_lookup(pairs.drop_last(), key)
    }
}

/// What index-into-collection computes: an integer index into an array
/// bounds-checks and yields null when out of range; a hash lookup yields
/// null on a missing key; anything else is an error.
pub open spec fn index_model(collection: ObjV, idx: ObjV) -> Result<ObjV, VmError> {
    match collection {
        ObjV::Arr(s) => match idx {
            ObjV::Int(i) => if 0 <= i < s.len() {
                Ok(s[i as int])
            } else {
                Ok(ObjV::Null)
            },
            _ => Err(VmError::IndexNotSupported),
        },
        ObjV::Hash(pairs) => if hashable(idx) {
            match hash_lookup(pairs, idx) {
                Some(v) => Ok(v),
                None => Ok(ObjV::Null),
            }
        } else {
            Err(VmError::NotHashable)
        },
        _ => Err(VmError::IndexNotSupported),
    }
}

/// Grouping popped elements into key-value pairs, front first; a key that
/// cannot hash, or a dangling element, is an error.
pub open spec fn build_pairs(elems: Seq<ObjV>) -> Result<Seq<(ObjV, ObjV)>, VmError>
    decreases elems.len(),
{
    if elems.len() == 0 {
        Ok(Seq::empty())
    } else if elems.len() == 1 {
        Err(VmError::TypeMismatch)
    } else if !hashable(elems[0]) {
        Err(VmError::NotHashable)
    } else {
        match build_pairs(elems.skip(2)) {
            Ok(rest) => Ok(seq![(elems[0], elems[1])] + rest),
            Err(e) => Err(e),
        }
    }
}

/// The model with the current frame's instruction pointer set to `ip`.
pub open spec fn with_ip(m: VmModel, ip: int) -> VmModel {
    let f = m.frames.last();
    VmModel {
        frames: m.frames.update(
            m.frames.len() - 1,
            FrameModel { code: f.code, ip, base: f.base },
        ),
        ..m
    }
}

/// The model with a value pushed onto the stack.
pub open spec fn m_push(m: VmModel, v: ObjV) -> VmModel {
    VmModel { stack: m.stack.push(v), ..m }
}

/// One instruction's effect after the pointer has been advanced past it;
/// `operand` is meaningful only for opcodes that carry one.
pub open spec fn step_op(m: VmModel, op: Opcode, operand: int) -> StepResult {
    match op {
        Opcode::Constant => if 0 <= operand < m.constants.len() {
            StepResult::Running(m_push(m, m.constants[operand]))
        } else {
            StepResult::Failed(VmError::ConstantOutOfRange)
        },
        Opcode::True => StepResult::Running(m_push(m, ObjV::Bool(true))),
        Opcode::False => StepResult::Running(m_push(m, ObjV::Bool(false))),
        Opcode::Null => StepResult::Running(m_push(m, ObjV::Null)),
        Opcode::Pop => if m.stack.len() == 0 {
            StepResult::Failed(VmError::EmptyStack)
        } else {
            StepResult::Running(
                VmModel {
                    stack: m.stack.drop_last(),
                    last_popped: Some(m.stack.last()),
                    ..m
                },
            )
        },
        Opcode::Add | Opcode::Sub | Opcode::Mul | Opcode::Div | Opcode::GreaterThan
            | Opcode::GreaterEqualThan | Opcode::Equal | Opcode::NotEqual | Opcode::And
            | Opcode::Or => if m.stack.len() < 2 {
            StepResult::Failed(VmError::EmptyStack)
        } else {
            let r = m.stack.last();
            let l = m.stack.drop_last().last();
            match binop_model(op, l, r) {
                Ok(v) => StepResult::Running(
                    VmModel { stack: m.stack.drop_last().drop_last().push(v), ..m },
                ),
                Err(e) => StepResult::Failed(e),
            }
        },
        Opcode::Bang => if m.stack.len() == 0 {
            StepResult::Failed(VmError::EmptyStack)
        } else {
            match m.stack.last() {
                ObjV::Bool(b) => StepResult::Running(
                    VmModel { stack: m.stack.drop_last().push(ObjV::Bool(!b)), ..m },
                ),
                ObjV::Null => StepResult::Running(
                    VmModel { stack: m.stack.drop_last().push(ObjV::Bool(true)), ..m },
                ),
                _ => StepResult::Failed(VmError::TypeMismatch),
            }
        },
        Opcode::Minus => if m.stack.len() == 0 {
            StepResult::Failed(VmError::EmptyStack)
        } else {
            match m.stack.last() {
                ObjV::Int(x) => StepResult::Running(
                    VmModel {
                        stack: m.stack.drop_last().push(
                            ObjV::Int(vstd::wrapping::i64_specs::wrapping_sub(0, x)),
                        ),
                        ..m
                    },
                ),
                _ => StepResult::Failed(VmError::TypeMismatch),
            }
        },
        Opcode::Jump => StepResult::Running(with_ip(m, operand)),
        Opcode::JumpNotTruthy => if m.stack.len() == 0 {
            StepResult::Failed(VmError::EmptyStack)
        } else {
            let m1 = VmModel { stack: m.stack.drop_last(), ..m };
            if !truthy_spec(m.stack.last()) {
                StepResult::Running(with_ip(m1, operand))
            } else {
                StepResult::Running(m1)
            }
        },
        Opcode::GetGlobal => if 0 <= operand < m.globals.len() {
            StepResult::Running(m_push(m, m.globals[operand]))
        } else {
            StepResult::Failed(VmError::GlobalOutOfRange)
        },
        Opcode::SetGlobal => if m.stack.len() == 0 {
            StepResult::Failed(VmError::EmptyStack)
        } else if 0 <= operand < m.globals.len() {
            StepResult::Running(
                VmModel {
                    stack: m.stack.drop_last(),
                    globals: m.globals.update(operand, m.stack.last()),
                    ..m
                },
            )
        } else {
            StepResult::Failed(VmError::GlobalOutOfRange)
        },
        Opcode::Array => if !(0 <= operand <= m.stack.len()) {
            StepResult::Failed(VmError::EmptyStack)
        } else {
            let split = m.stack.len() - operand;
            StepResult::Running(
                VmModel {
                    stack: m.stack.take(split).push(ObjV::Arr(m.stack.skip(split))),
                    ..m
                },
            )
        },
        Opcode::Hash => if !(0 <= operand <= m.stack.len()) {
            StepResult::Failed(VmError::EmptyStack)
        } else {
            let split = m.stack.len() - operand;
            match build_pairs(m.stack.skip(split)) {
                Ok(pairs) => StepResult::Running(
                    VmModel { stack: m.stack.take(split).push(ObjV::Hash(pairs)), ..m },
                ),
                Err(e) => StepResult::Failed(e),
            }
        },
        Opcode::Index => if m.stack.len() < 2 {
            StepResult::Failed(VmError::EmptyStack)
        } else {
            let idx = m.stack.last();
            let collection = m.stack.drop_last().last();
            match index_model(collection, idx) {
                Ok(v) => StepResult::Running(
                    VmModel { stack: m.stack.drop_last().drop_last().push(v), ..m },
                ),
                Err(e) => StepResult::Failed(e),
            }
        },
        Opcode::Call => if m.stack.len() == 0 {
            StepResult::Failed(VmError::EmptyStack)
        } else {
            match m.stack.last() {
                ObjV::Fun(code) => StepResult::Running(
                    VmModel {
                        stack: m.stack.drop_last(),
                        frames: m.frames.push(
                            FrameModel { code, ip: 0, base: m.stack.len() - 1 },
                        ),
                        ..m
                    },
                ),
                _ => StepResult::Failed(VmError::NotCallable),
            }
        },
        Opcode::ReturnValue => if m.stack.len() == 0 {
            StepResult::Failed(VmError::EmptyStack)
        } else if m.frames.len() <= 1 {
            StepResult::Failed(VmError::ReturnOutsideFunction)
        } else {
            let rv = m.stack.last();
            let f = m.frames.last();
            let popped = m.stack.drop_last();
            let restored = if 0 <= f.base <= popped.len() {
                popped.take(f.base)
            } else {
                popped
            };
            StepResult::Running(
                VmModel {
                    stack: restored.push(rv),
                    frames: m.frames.drop_last(),
                    ..m
                },
            )
        },
    }
}

/// One model step: fetch the opcode at the current frame's pointer,
/// decode its operand, advance the pointer past the instruction, then
/// dispatch. A frame whose pointer has reached its stream's end halts the
/// machine at the top level and otherwise returns null to its caller (a
/// body that falls off its stream without an explicit return).
pub open spec fn advance(m: VmModel) -> StepResult {
    let f = m.frames.last();
    if !(0 <= f.ip < f.code.len()) {
        if m.frames.len() <= 1 {
            StepResult::Halted(m)
        } else {
            let restored = if 0 <= f.base <= m.stack.len() {
                m.stack.take(f.base)
            } else {
                m.stack
            };
            StepResult::Running(
                VmModel {
                    stack: restored.push(ObjV::Null),
                    frames: m.frames.drop_last(),
                    ..m
                },
            )
        }
    } else {
        match opcode_of_byte(f.code[f.ip]) {
            None => StepResult::Failed(VmError::UnknownOpcode),
            Some(op) => if opcode_has_operand(op) {
                if f.ip + 3 > f.code.len() {
                    StepResult::Failed(VmError::TruncatedInstruction)
                } else {
                    let operand = be_u16(f.code[f.ip + 1], f.code[f.ip + 2]) as int;
                    step_op(with_ip(m, f.ip + 3), op, operand)
                }
            } else {
                step_op(with_ip(m, f.ip + 1), op, 0)
            },
        }
    }
}

/// The model after `n` steps; halting and failing absorb.
pub open spec fn run_model(m: VmModel, n: nat) -> StepResult
    decreases n,
{
    if n == 0 {
        StepResult::Running(m)
    } else {
        match run_model(m, (n - 1) as nat) {
            StepResult::Running(m2) => advance(m2),
            r => r,
        }
    }
}

/// Once the model halts or fails, more steps change nothing: with a
/// deterministic step function every outcome the machine can reach is the
/// single outcome of the model.
pub proof fn lemma_run_model_absorbing(m: VmModel, n1: nat, n2: nat)
    requires
        n1 <= n2,
        !(run_model(m, n1) is Running),
    ensures
        run_model(m, n2) == run_model(m, n1),
    decreases n2,
{
    if n2 > n1 {
        lemma_run_model_absorbing(m, n1, (n2 - 1) as nat);
    }
}

/// The virtual machine: the constant pool, the operand stack, the fixed
/// global slot array, the call-frame stack, and the most recently
/// discarded value, which is the program's result on termination.
pub struct VM {
    pub constants: Vec<Object>,
    pub stack: Vec<Object>,
    pub globals: Vec<Object>,
    pub frames: Vec<Frame>,
    pub last_popped: Option<Object>,
}

impl View for VM {
    type V = VmModel;

    open spec fn view(&self) -> VmModel {
        VmModel {
            constants: obj_views(self.constants@),
            stack: obj_views(self.stack@),
            globals: obj_views(self.globals@),
            frames: Seq::new(
                self.frames@.len(),
                |i: int| FrameModel {
                    code: self.frames@[i].instructions@,
                    ip: self.frames@[i].ip as int,
                    base: self.frames@[i].base_pointer as int,
                },
            ),
            last_popped: match self.last_popped {
                Some(o) => Some(obj_view(o)),
                None => None,
            },
        }
    }
}

impl VM {
    /// Structural validity: at least one frame is always running.
    pub open spec fn wf(self) -> bool {
        self@.frames.len() >= 1
    }

    /// A machine over finished bytecode: empty stack, all global slots
    /// null, one frame over the top-level instructions.
    pub fn new(bytecode: Bytecode) -> (r: Self)
        ensures
            r.wf(),
            r@ == (VmModel {
                constants: obj_views(bytecode.constants@),
                stack: Seq::empty(),
                globals: Seq::new(GLOBALS_SIZE as nat, |i: int| ObjV::Null),
                frames: seq![FrameModel { code: bytecode.instructions@, ip: 0, base: 0 }],
                last_popped: None,
            }),
    {
        let mut globals: Vec<Object> = Vec::new();
        let mut i: usize = 0;
        while i < GLOBALS_SIZE
            invariant
                i <= GLOBALS_SIZE,
                globals@.len() == i as int,
                forall|k: int| 0 <= k < i as int ==> globals@[k] == Object::NULL,
            decreases GLOBALS_SIZE - i,
        {
            globals.push(Object::NULL);
            i = i + 1;
        }
        let mut frames: Vec<Frame> = Vec::new();
        frames.push(Frame { instructions: bytecode.instructions.data, ip: 0, base_pointer: 0 });
        let r = VM {
            constants: bytecode.constants,
            stack: Vec::new(),
            globals,
            frames,
            last_popped: None,
        };
        proof {
            lemma_obj_views_index(r.globals@);
            assert(r@.globals =~= Seq::new(GLOBALS_SIZE as nat, |j: int| ObjV::Null));
            assert(r@.stack =~= Seq::<ObjV>::empty());
            assert(r@.frames =~= seq![
                FrameModel { code: bytecode.instructions@, ip: 0, base: 0 },
            ]);
            assert(r@ =~= (VmModel {
                constants: obj_views(bytecode.constants@),
                stack: Seq::empty(),
                globals: Seq::new(GLOBALS_SIZE as nat, |j: int| ObjV::Null),
                frames: seq![FrameModel { code: bytecode.instructions@, ip: 0, base: 0 }],
                last_popped: None,
            }));
        }
        r
    }

    /// The most recently discarded stack value: the program's result once
    /// execution has terminated.
    pub fn last_popped_stack_element(&self) -> (r: Option<Object>)
        ensures
            match r {
                Some(o) => self@.last_popped == Some(o@),
                None => self@.last_popped is None,
            },
    {
        match &self.last_popped {
            Some(o) => Some(o.duplicate()),
            None => None,
        }
    }

    /// Pushes a value onto the operand stack.
    fn push_value(&mut self, obj: Object)
        ensures
            final(self)@ == m_push(old(self)@, obj@),
    {
        let ghost s0 = self.stack@;
        self.stack.push(obj);
        proof {
            lemma_obj_views_push(s0, obj);
            assert(self@ =~= m_push(old(self)@, obj@));
        }
    }

    /// Pops the top of the operand stack; an empty stack is a runtime
    /// error and leaves the machine unchanged.
    fn pop_value(&mut self) -> (r: Result<Object, VmError>)
        ensures
            match r {
                Ok(v) => old(self)@.stack.len() > 0 && v@ == old(self)@.stack.last()
                    && final(self)@ == (VmModel {
                    stack: old(self)@.stack.drop_last(),
                    ..old(self)@
                }),
                Err(e) => e == VmError::EmptyStack && old(self)@.stack.len() == 0 && *final(self)
                    == *old(self),
            },
    {
        let ghost s0 = self.stack@;
        proof {
            lemma_obj_views_index(s0);
        }
        if self.stack.len() == 0 {
            return Err(VmError::EmptyStack);
        }
        match self.stack.pop() {
            Some(v) => {
                proof {
                    lemma_obj_views_drop_last(s0);
                    assert(self.stack@ =~= s0.drop_last());
                    assert(self@ =~= (VmModel {
                        stack: old(self)@.stack.drop_last(),
                        ..old(self)@
                    }));
                }
                Ok(v)
            },
            None => {
                proof {
                    assert(false);
                }
                Err(VmError::EmptyStack)
            },
        }
    }
}

/// Keys past position `i` that the machine's equality never matches do
/// not affect a hash lookup: it equals the lookup in the prefix.
pub proof fn lemma_hash_lookup_skip(pairs: Seq<(ObjV, ObjV)>, key: ObjV, i: int)
    requires
        0 <= i <= pairs.len(),
        forall|k: int| i <= k < pairs.len() ==> prim_eq_model(pairs[k].0, key) != Some(true),
    ensures
        hash_lookup(pairs, key) == hash_lookup(pairs.take(i), key),
    decreases pairs.len(),
{
    if i == pairs.len() {
        assert(pairs.take(i) =~= pairs);
    } else {
        assert(pairs.drop_last() =~= pairs.take(pairs.len() - 1));
        lemma_hash_lookup_skip(pairs.drop_last(), key, i);
        assert(pairs.drop_last().take(i) =~= pairs.take(i));
    }
}

impl VM {
    /// Whether the machine can use this value as a hash key.
    fn is_hashable(o: &Object) -> (r: bool)
        ensures
            r == hashable(o@),
    {
        match o {
            Object::INTEGER(_) => true,
            Object::BOOLEAN(_) => true,
            Object::STRING(_) => true,
            _ => false,
        }
    }

    /// Whether this value belongs to the kinds equality is defined on.
    fn is_primitive_kind(o: &Object) -> (r: bool)
        ensures
            r == primitive(o@),
    {
        match o {
            Object::INTEGER(_) => true,
            Object::BOOLEAN(_) => true,
            Object::STRING(_) => true,
            Object::NULL => true,
            _ => false,
        }
    }

    /// Equality as the machine computes it; `None` for operands it is not
    /// defined on.
    fn prim_eq(a: &Object, b: &Object) -> (r: Option<bool>)
        ensures
            r == prim_eq_model(a@, b@),
    {
        match (a, b) {
            (Object::INTEGER(x), Object::INTEGER(y)) => Some(*x == *y),
            (Object::BOOLEAN(x), Object::BOOLEAN(y)) => Some(*x == *y),
            (Object::STRING(x), Object::STRING(y)) => Some(x.eq(y)),
            (Object::NULL, Object::NULL) => Some(true),
            _ => {
                if Self::is_primitive_kind(a) && Self::is_primitive_kind(b) {
                    Some(false)
                } else {
                    None
                }
            },
        }
    }

    /// Computes one binary operator over its popped operands.
    fn apply_binop(op: Opcode, l: Object, r: Object) -> (res: Result<Object, VmError>)
        ensures
            (match res {
                Ok(v) => binop_model(op, l@, r@) == Ok::<ObjV, VmError>(v@),
                Err(e) => binop_model(op, l@, r@) == Err::<ObjV, VmError>(e),
            }),
    {
        match op {
            Opcode::Add => match (l, r) {
                (Object::INTEGER(x), Object::INTEGER(y)) => Ok(
                    Object::INTEGER(x.wrapping_add(y)),
                ),
                (Object::STRING(x), Object::STRING(y)) => {
                    let mut s = x;
                    s.append(y.as_str());
                    Ok(Object::STRING(s))
                },
                _ => Err(VmError::TypeMismatch),
            },
            Opcode::Sub => match (l, r) {
                (Object::INTEGER(x), Object::INTEGER(y)) => Ok(
                    Object::INTEGER(x.wrapping_sub(y)),
                ),
                _ => Err(VmError::TypeMismatch),
            },
            Opcode::Mul => match (l, r) {
                (Object::INTEGER(x), Object::INTEGER(y)) => Ok(
                    Object::INTEGER(x.wrapping_mul(y)),
                ),
                _ => Err(VmError::TypeMismatch),
            },
            Opcode::Div => match (l, r) {
                (Object::INTEGER(x), Object::INTEGER(y)) => {
                    if y == 0 {
                        Err(VmError::DivisionByZero)
                    } else {
                        match x.checked_div(y) {
                            Some(q) => Ok(Object::INTEGER(q)),
                            None => Ok(Object::INTEGER(i64::MIN)),
                        }
                    }
                },
                _ => Err(VmError::TypeMismatch),
            },
            Opcode::GreaterThan => match (l, r) {
                (Object::INTEGER(x), Object::INTEGER(y)) => Ok(Object::BOOLEAN(x > y)),
                _ => Err(VmError::TypeMismatch),
            },
            Opcode::GreaterEqualThan => match (l, r) {
                (Object::INTEGER(x), Object::INTEGER(y)) => Ok(Object::BOOLEAN(x >= y)),
                _ => Err(VmError::TypeMismatch),
            },
            Opcode::Equal => match Self::prim_eq(&l, &r) {
                Some(b) => Ok(Object::BOOLEAN(b)),
                None => Err(VmError::TypeMismatch),
            },
            Opcode::NotEqual => match Self::prim_eq(&l, &r) {
                Some(b) => Ok(Object::BOOLEAN(!b)),
                None => Err(VmError::TypeMismatch),
            },
            Opcode::And => match (l, r) {
                (Object::BOOLEAN(x), Object::BOOLEAN(y)) => Ok(Object::BOOLEAN(x && y)),
                _ => Err(VmError::TypeMismatch),
            },
            Opcode::Or => match (l, r) {
                (Object::BOOLEAN(x), Object::BOOLEAN(y)) => Ok(Object::BOOLEAN(x || y)),
                _ => Err(VmError::TypeMismatch),
            },
            _ => Err(VmError::TypeMismatch),
        }
    }

    /// Computes index-into-collection over its popped operands.
    #[verifier::loop_isolation(false)]
    fn apply_index(collection: &Object, idx: &Object) -> (res: Result<Object, VmError>)
        ensures
            (match res {
                Ok(v) => index_model(collection@, idx@) == Ok::<ObjV, VmError>(v@),
                Err(e) => index_model(collection@, idx@) == Err::<ObjV, VmError>(e),
            }),
    {
        match collection {
            Object::ARRAY(elements) => match idx {
                Object::INTEGER(i) => {
                    proof {
                        assert(collection@ == ObjV::Arr(obj_views(elements@)));
                        assert(idx@ == ObjV::Int(*i));
                        lemma_obj_views_index(elements@);
                    }
                    if *i >= 0 && (*i as u64) < (elements.len() as u64) {
                        Ok(elements[*i as usize].duplicate())
                    } else {
                        Ok(Object::NULL)
                    }
                },
                _ => Err(VmError::IndexNotSupported),
            },
            Object::HASHMAP(pairs) => {
                if !Self::is_hashable(idx) {
                    return Err(VmError::NotHashable);
                }
                let ghost pv = crate::object::pair_views(pairs@);
                proof {
                    crate::object::lemma_pair_views_index(pairs@);
                }
                let n: usize = pairs.len();
                let mut j: usize = n;
                while j > 0
                    invariant
                        j <= n,
                        forall|k: int|
                            j as int <= k < n as int ==> prim_eq_model(pv[k].0, idx@) != Some(
                                true,
                            ),
                    decreases j,
                {
                    j = j - 1;
                    let eq = Self::prim_eq(&pairs[j].0, idx);
                    match eq {
                        Some(true) => {
                            let v = pairs[j].1.duplicate();
                            proof {
                                lemma_hash_lookup_skip(pv, idx@, j as int + 1);
                                assert(pv.take(j as int + 1).last() == pv[j as int]);
                                assert(pv.take(j as int + 1).drop_last() =~= pv.take(j as int));
                            }
                            return Ok(v);
                        },
                        _ => {},
                    }
                }
                proof {
                    lemma_hash_lookup_skip(pv, idx@, 0);
                    assert(pv.take(0) =~= Seq::<(ObjV, ObjV)>::empty());
                }
                Ok(Object::NULL)
            },
            _ => Err(VmError::IndexNotSupported),
        }
    }
}

impl VM {
    /// One array instruction, after the pointer has advanced.
    #[verifier::rlimit(100)]
    fn op_array(&mut self, operand: u16) -> (r: Result<(), VmError>)
        requires
            old(self).wf(),
        ensures
            (match r {
                Ok(()) => step_op(old(self)@, Opcode::Array, operand as int)
                    == StepResult::Running(final(self)@) && final(self).wf(),
                Err(e) => step_op(old(self)@, Opcode::Array, operand as int)
                    == StepResult::Failed(e),
            }),
    {
        let ghost m0 = self@;
        let count = operand as usize;
        proof {
            lemma_obj_views_index(self.stack@);
        }
        if count > self.stack.len() {
            return Err(VmError::EmptyStack);
        }
        let split = self.stack.len() - count;
        let ghost s0 = self.stack@;
        let elements = self.stack.split_off(split);
        proof {
            lemma_obj_views_index(elements@);
            lemma_obj_views_index(self.stack@);
            assert(obj_views(elements@) =~= m0.stack.skip(split as int));
            assert(obj_views(self.stack@) =~= m0.stack.take(split as int));
        }
        self.push_value(Object::ARRAY(elements));
        proof {
            assert(self@ =~= (VmModel {
                stack: m0.stack.take(split as int).push(
                    ObjV::Arr(m0.stack.skip(split as int)),
                ),
                ..m0
            }));
        }
        Ok(())
    }

    /// One hash instruction, after the pointer has advanced.
    #[verifier::rlimit(100)]
    #[verifier::loop_isolation(false)]
    fn op_hash(&mut self, operand: u16) -> (r: Result<(), VmError>)
        requires
            old(self).wf(),
        ensures
            (match r {
                Ok(()) => step_op(old(self)@, Opcode::Hash, operand as int)
                    == StepResult::Running(final(self)@) && final(self).wf(),
                Err(e) => step_op(old(self)@, Opcode::Hash, operand as int)
                    == StepResult::Failed(e),
            }),
    {
        let ghost m0 = self@;
        let count = operand as usize;
        proof {
            lemma_obj_views_index(self.stack@);
        }
        if count > self.stack.len() {
            return Err(VmError::EmptyStack);
        }
        let split = self.stack.len() - count;
        let elements = self.stack.split_off(split);
        proof {
            lemma_obj_views_index(elements@);
            lemma_obj_views_index(self.stack@);
            assert(obj_views(elements@) =~= m0.stack.skip(split as int));
            assert(obj_views(self.stack@) =~= m0.stack.take(split as int));
        }
        let ghost ev = obj_views(elements@);
        let mut pairs: Vec<(Object, Object)> = Vec::new();
        let mut i: usize = 0;
        proof {
            assert(ev.skip(0) =~= ev);
        }
        while i * 2 + 1 < count
            invariant
                i * 2 <= count,
                count == elements@.len(),
                ev == obj_views(elements@),
                pairs@.len() == i as int,
                build_pairs(ev) == (match build_pairs(ev.skip(2 * i as int)) {
                    Ok(rest) => Ok::<Seq<(ObjV, ObjV)>, VmError>(
                        crate::object::pair_views(pairs@) + rest,
                    ),
                    Err(e) => Err(e),
                }),
            decreases count - i * 2,
        {
            let k = elements[i * 2].duplicate();
            let v = elements[i * 2 + 1].duplicate();
            proof {
                lemma_obj_views_index(elements@);
                assert(ev.skip(2 * i as int)[0] == ev[2 * i as int]);
                assert(ev.skip(2 * i as int)[1] == ev[2 * i as int + 1]);
            }
            if !Self::is_hashable(&k) {
                return Err(VmError::NotHashable);
            }
            let ghost pairs0 = pairs@;
            pairs.push((k, v));
            proof {
                crate::object::lemma_pair_views_push(pairs0, k, v);
                assert(ev.skip(2 * i as int).skip(2) =~= ev.skip(2 * (i as int + 1)));
                match build_pairs(ev.skip(2 * (i as int + 1))) {
                    Ok(rest) => {
                        assert(crate::object::pair_views(pairs0) + (seq![
                            (ev[2 * i as int], ev[2 * i as int + 1]),
                        ] + rest) =~= crate::object::pair_views(pairs@) + rest);
                    },
                    Err(_) => {},
                }
            }
            i = i + 1;
        }
        if count % 2 == 1 {
            proof {
                assert(ev.skip(2 * i as int).len() == 1);
            }
            return Err(VmError::TypeMismatch);
        }
        let ghost pv2 = crate::object::pair_views(pairs@);
        proof {
            assert(ev.skip(2 * i as int).len() == 0);
            assert(ev.skip(2 * i as int) =~= Seq::<ObjV>::empty());
            assert(pv2 + Seq::<(ObjV, ObjV)>::empty() =~= pv2);
            assert(build_pairs(ev) == Ok::<Seq<(ObjV, ObjV)>, VmError>(pv2));
            assert(build_pairs(m0.stack.skip(split as int)) == Ok::<
                Seq<(ObjV, ObjV)>,
                VmError,
            >(pv2));
        }
        let ghost mid = self@;
        self.push_value(Object::HASHMAP(pairs));
        proof {
            assert(self@ == m_push(mid, ObjV::Hash(pv2)));
            assert(self@ =~= (VmModel {
                stack: m0.stack.take(split as int).push(ObjV::Hash(pv2)),
                ..m0
            }));
        }
        Ok(())
    }

    /// One returnvalue instruction, after the pointer has advanced.
    #[verifier::rlimit(100)]
    fn op_return_value(&mut self, operand: u16) -> (r: Result<(), VmError>)
        requires
            old(self).wf(),
        ensures
            (match r {
                Ok(()) => step_op(old(self)@, Opcode::ReturnValue, operand as int)
                    == StepResult::Running(final(self)@) && final(self).wf(),
                Err(e) => step_op(old(self)@, Opcode::ReturnValue, operand as int)
                    == StepResult::Failed(e),
            }),
    {
        let ghost m0 = self@;
        if self.stack.len() == 0 {
            proof {
                lemma_obj_views_index(self.stack@);
            }
            return Err(VmError::EmptyStack);
        }
        if self.frames.len() <= 1 {
            proof {
                lemma_obj_views_index(self.stack@);
            }
            return Err(VmError::ReturnOutsideFunction);
        }
        let rv = match self.pop_value() {
            Ok(v) => v,
            Err(e) => {
                return Err(e);
            },
        };
        let frame = self.frames.pop().unwrap();
        let ghost s1 = self.stack@;
        proof {
            lemma_obj_views_index(s1);
            assert(obj_views(s1) == m0.stack.drop_last());
            assert(frame.base_pointer as int == m0.frames.last().base);
        }
        if frame.base_pointer <= self.stack.len() {
            self.stack.truncate(frame.base_pointer);
            proof {
                lemma_obj_views_index(s1);
                lemma_obj_views_index(self.stack@);
                assert(obj_views(self.stack@) =~= obj_views(s1).take(
                    frame.base_pointer as int,
                ));
            }
        }
        self.push_value(rv);
        proof {
            let f = m0.frames.last();
            let popped = m0.stack.drop_last();
            let restored = if 0 <= f.base <= popped.len() {
                popped.take(f.base)
            } else {
                popped
            };
            assert(self@.frames =~= m0.frames.drop_last());
            assert(self@ =~= (VmModel {
                stack: restored.push(m0.stack.last()),
                frames: m0.frames.drop_last(),
                ..m0
            }));
        }
        Ok(())
    }

    /// Performs one already-fetched instruction; the instruction pointer
    /// has been advanced past it. `operand` is meaningful only for
    /// opcodes that carry one.
    fn execute_op(&mut self, op: Opcode, operand: u16) -> (r: Result<(), VmError>)
        requires
            old(self).wf(),
        ensures
            (match r {
                Ok(()) => step_op(old(self)@, op, operand as int) == StepResult::Running(
                    final(self)@,
                ) && final(self).wf(),
                Err(e) => step_op(old(self)@, op, operand as int) == StepResult::Failed(e),
            }),
    {
        match op {
            Opcode::Constant => self.op_constant(operand),
            Opcode::True => self.op_push_singleton(op, operand),
            Opcode::False => self.op_push_singleton(op, operand),
            Opcode::Null => self.op_push_singleton(op, operand),
            Opcode::Pop => self.op_pop(operand),
            Opcode::Add | Opcode::Sub | Opcode::Mul | Opcode::Div | Opcode::GreaterThan
                | Opcode::GreaterEqualThan | Opcode::Equal | Opcode::NotEqual | Opcode::And
                | Opcode::Or => self.op_binary(op, operand),
            Opcode::Bang => self.op_bang(operand),
            Opcode::Minus => self.op_minus(operand),
            Opcode::Jump => self.op_jump(operand),
            Opcode::JumpNotTruthy => self.op_jump_not_truthy(operand),
            Opcode::GetGlobal => self.op_get_global(operand),
            Opcode::SetGlobal => self.op_set_global(operand),
            Opcode::Array => self.op_array(operand),
            Opcode::Hash => self.op_hash(operand),
            Opcode::Index => self.op_index(operand),
            Opcode::Call => self.op_call(operand),
            Opcode::ReturnValue => self.op_return_value(operand),
        }
    }

    /// One load-constant instruction.
    fn op_constant(&mut self, operand: u16) -> (r: Result<(), VmError>)
        requires
            old(self).wf(),
        ensures
            (match r {
                Ok(()) => step_op(old(self)@, Opcode::Constant, operand as int)
                    == StepResult::Running(final(self)@) && final(self).wf(),
                Err(e) => step_op(old(self)@, Opcode::Constant, operand as int)
                    == StepResult::Failed(e),
            }),
    {
        let idx = operand as usize;
        proof {
            lemma_obj_views_index(self.constants@);
        }
        if idx < self.constants.len() {
            let v = self.constants[idx].duplicate();
            self.push_value(v);
            Ok(())
        } else {
            Err(VmError::ConstantOutOfRange)
        }
    }

    /// One push-true / push-false / push-null instruction.
    fn op_push_singleton(&mut self, op: Opcode, operand: u16) -> (r: Result<(), VmError>)
        requires
            old(self).wf(),
            op == Opcode::True || op == Opcode::False || op == Opcode::Null,
        ensures
            r is Ok && step_op(old(self)@, op, operand as int) == StepResult::Running(
                final(self)@,
            ) && final(self).wf(),
    {
        match op {
            Opcode::True => self.push_value(Object::BOOLEAN(true)),
            Opcode::False => self.push_value(Object::BOOLEAN(false)),
            _ => self.push_value(Object::NULL),
        }
        Ok(())
    }

    /// One pop-top instruction: the discarded value is retained for
    /// introspection.
    fn op_pop(&mut self, operand: u16) -> (r: Result<(), VmError>)
        requires
            old(self).wf(),
        ensures
            (match r {
                Ok(()) => step_op(old(self)@, Opcode::Pop, operand as int)
                    == StepResult::Running(final(self)@) && final(self).wf(),
                Err(e) => step_op(old(self)@, Opcode::Pop, operand as int)
                    == StepResult::Failed(e),
            }),
    {
        let ghost m0 = self@;
        let v = match self.pop_value() {
            Ok(v) => v,
            Err(e) => {
                return Err(e);
            },
        };
        self.last_popped = Some(v);
        proof {
            assert(self@ =~= (VmModel {
                stack: m0.stack.drop_last(),
                last_popped: Some(m0.stack.last()),
                ..m0
            }));
        }
        Ok(())
    }

    /// One binary-operator instruction: pop right then left, compute,
    /// push the result.
    fn op_binary(&mut self, op: Opcode, operand: u16) -> (r: Result<(), VmError>)
        requires
            old(self).wf(),
            op == Opcode::Add || op == Opcode::Sub || op == Opcode::Mul || op == Opcode::Div
                || op == Opcode::GreaterThan || op == Opcode::GreaterEqualThan
                || op == Opcode::Equal || op == Opcode::NotEqual || op == Opcode::And
                || op == Opcode::Or,
        ensures
            (match r {
                Ok(()) => step_op(old(self)@, op, operand as int) == StepResult::Running(
                    final(self)@,
                ) && final(self).wf(),
                Err(e) => step_op(old(self)@, op, operand as int) == StepResult::Failed(e),
            }),
    {
        let ghost m0 = self@;
        let right = match self.pop_value() {
            Ok(v) => v,
            Err(e) => {
                return Err(e);
            },
        };
        let left = match self.pop_value() {
            Ok(v) => v,
            Err(e) => {
                return Err(e);
            },
        };
        match Self::apply_binop(op, left, right) {
            Ok(v) => {
                let ghost vv = v@;
                self.push_value(v);
                proof {
                    assert(self@ =~= (VmModel {
                        stack: m0.stack.drop_last().drop_last().push(vv),
                        ..m0
                    }));
                }
                Ok(())
            },
            Err(e) => Err(e),
        }
    }

    /// One boolean-negate instruction.
    fn op_bang(&mut self, operand: u16) -> (r: Result<(), VmError>)
        requires
            old(self).wf(),
        ensures
            (match r {
                Ok(()) => step_op(old(self)@, Opcode::Bang, operand as int)
                    == StepResult::Running(final(self)@) && final(self).wf(),
                Err(e) => step_op(old(self)@, Opcode::Bang, operand as int)
                    == StepResult::Failed(e),
            }),
    {
        let v = match self.pop_value() {
            Ok(v) => v,
            Err(e) => {
                return Err(e);
            },
        };
        match v {
            Object::BOOLEAN(b) => {
                self.push_value(Object::BOOLEAN(!b));
                Ok(())
            },
            Object::NULL => {
                self.push_value(Object::BOOLEAN(true));
                Ok(())
            },
            _ => Err(VmError::TypeMismatch),
        }
    }

    /// One arithmetic-negate instruction; negation wraps on the most
    /// negative integer.
    fn op_minus(&mut self, operand: u16) -> (r: Result<(), VmError>)
        requires
            old(self).wf(),
        ensures
            (match r {
                Ok(()) => step_op(old(self)@, Opcode::Minus, operand as int)
                    == StepResult::Running(final(self)@) && final(self).wf(),
                Err(e) => step_op(old(self)@, Opcode::Minus, operand as int)
                    == StepResult::Failed(e),
            }),
    {
        let v = match self.pop_value() {
            Ok(v) => v,
            Err(e) => {
                return Err(e);
            },
        };
        match v {
            Object::INTEGER(x) => {
                self.push_value(Object::INTEGER(0i64.wrapping_sub(x)));
                Ok(())
            },
            _ => Err(VmError::TypeMismatch),
        }
    }

    /// One unconditional jump.
    fn op_jump(&mut self, operand: u16) -> (r: Result<(), VmError>)
        requires
            old(self).wf(),
        ensures
            r is Ok && step_op(old(self)@, Opcode::Jump, operand as int)
                == StepResult::Running(final(self)@) && final(self).wf(),
    {
        let ghost m0 = self@;
        let mut frame = self.frames.pop().unwrap();
        frame.ip = operand as usize;
        self.frames.push(frame);
        proof {
            assert(self@ =~= with_ip(m0, operand as int));
        }
        Ok(())
    }

    /// One jump-if-not-truthy: pop the condition, branch when falsy.
    fn op_jump_not_truthy(&mut self, operand: u16) -> (r: Result<(), VmError>)
        requires
            old(self).wf(),
        ensures
            (match r {
                Ok(()) => step_op(old(self)@, Opcode::JumpNotTruthy, operand as int)
                    == StepResult::Running(final(self)@) && final(self).wf(),
                Err(e) => step_op(old(self)@, Opcode::JumpNotTruthy, operand as int)
                    == StepResult::Failed(e),
            }),
    {
        let ghost m0 = self@;
        let v = match self.pop_value() {
            Ok(v) => v,
            Err(e) => {
                return Err(e);
            },
        };
        if !v.is_truthy() {
            let mut frame = self.frames.pop().unwrap();
            frame.ip = operand as usize;
            self.frames.push(frame);
            proof {
                assert(self@ =~= with_ip(
                    (VmModel { stack: m0.stack.drop_last(), ..m0 }),
                    operand as int,
                ));
            }
        }
        Ok(())
    }

    /// One get-global: push the slot's value.
    fn op_get_global(&mut self, operand: u16) -> (r: Result<(), VmError>)
        requires
            old(self).wf(),
        ensures
            (match r {
                Ok(()) => step_op(old(self)@, Opcode::GetGlobal, operand as int)
                    == StepResult::Running(final(self)@) && final(self).wf(),
                Err(e) => step_op(old(self)@, Opcode::GetGlobal, operand as int)
                    == StepResult::Failed(e),
            }),
    {
        let idx = operand as usize;
        proof {
            lemma_obj_views_index(self.globals@);
        }
        if idx < self.globals.len() {
            let v = self.globals[idx].duplicate();
            self.push_value(v);
            Ok(())
        } else {
            Err(VmError::GlobalOutOfRange)
        }
    }

    /// One set-global: pop the value, store it in the slot.
    fn op_set_global(&mut self, operand: u16) -> (r: Result<(), VmError>)
        requires
            old(self).wf(),
        ensures
            (match r {
                Ok(()) => step_op(old(self)@, Opcode::SetGlobal, operand as int)
                    == StepResult::Running(final(self)@) && final(self).wf(),
                Err(e) => step_op(old(self)@, Opcode::SetGlobal, operand as int)
                    == StepResult::Failed(e),
            }),
    {
        let ghost m0 = self@;
        let v = match self.pop_value() {
            Ok(v) => v,
            Err(e) => {
                return Err(e);
            },
        };
        let idx = operand as usize;
        proof {
            lemma_obj_views_index(self.globals@);
        }
        if idx < self.globals.len() {
            let ghost g0 = self.globals@;
            let ghost vv = v@;
            self.globals[idx] = v;
            proof {
                lemma_obj_views_index(g0);
                lemma_obj_views_index(self.globals@);
                assert(obj_views(self.globals@) =~= obj_views(g0).update(idx as int, vv));
                assert(self@ =~= (VmModel {
                    stack: m0.stack.drop_last(),
                    globals: m0.globals.update(operand as int, m0.stack.last()),
                    ..m0
                }));
            }
            Ok(())
        } else {
            Err(VmError::GlobalOutOfRange)
        }
    }

    /// One index-into-collection: pop the index, then the collection.
    fn op_index(&mut self, operand: u16) -> (r: Result<(), VmError>)
        requires
            old(self).wf(),
        ensures
            (match r {
                Ok(()) => step_op(old(self)@, Opcode::Index, operand as int)
                    == StepResult::Running(final(self)@) && final(self).wf(),
                Err(e) => step_op(old(self)@, Opcode::Index, operand as int)
                    == StepResult::Failed(e),
            }),
    {
        let ghost m0 = self@;
        let idx = match self.pop_value() {
            Ok(v) => v,
            Err(e) => {
                return Err(e);
            },
        };
        let collection = match self.pop_value() {
            Ok(v) => v,
            Err(e) => {
                return Err(e);
            },
        };
        match Self::apply_index(&collection, &idx) {
            Ok(v) => {
                let ghost vv = v@;
                self.push_value(v);
                proof {
                    assert(self@ =~= (VmModel {
                        stack: m0.stack.drop_last().drop_last().push(vv),
                        ..m0
                    }));
                }
                Ok(())
            },
            Err(e) => Err(e),
        }
    }

    /// One call: pop the callee, which must be a compiled function, and
    /// enter a frame over its instructions.
    fn op_call(&mut self, operand: u16) -> (r: Result<(), VmError>)
        requires
            old(self).wf(),
        ensures
            (match r {
                Ok(()) => step_op(old(self)@, Opcode::Call, operand as int)
                    == StepResult::Running(final(self)@) && final(self).wf(),
                Err(e) => step_op(old(self)@, Opcode::Call, operand as int)
                    == StepResult::Failed(e),
            }),
    {
        let ghost m0 = self@;
        let callee = match self.pop_value() {
            Ok(v) => v,
            Err(e) => {
                return Err(e);
            },
        };
        match callee {
            Object::COMPILEDFUNCTION(cf) => {
                let ghost code = cf.instructions@;
                let base = self.stack.len();
                proof {
                    lemma_obj_views_index(self.stack@);
                }
                self.frames.push(
                    Frame { instructions: cf.instructions, ip: 0, base_pointer: base },
                );
                proof {
                    assert(self@.frames =~= m0.frames.push(
                        FrameModel { code: code, ip: 0, base: m0.stack.len() - 1 },
                    ));
                    assert(self@ =~= (VmModel {
                        stack: m0.stack.drop_last(),
                        frames: m0.frames.push(
                            FrameModel { code: code, ip: 0, base: m0.stack.len() - 1 },
                        ),
                        ..m0
                    }));
                }
                Ok(())
            },
            _ => Err(VmError::NotCallable),
        }
    }

}

impl VM {
    /// Runs the fetch-decode-dispatch loop until the top-level frame's
    /// pointer reaches the end of its stream, or until the first runtime
    /// error. The outcome is exactly the model's: a halt or an error is
    /// one some number of model steps reaches, and the step-limit error
    /// comes only when the model is still running after the whole 2^64-1
    /// budget — one instruction per budget unit — so a program whose
    /// model halts or fails within the budget is owed that very outcome.
    #[verifier::loop_isolation(false)]
    #[verifier::rlimit(100)]
    pub fn run(&mut self) -> (r: Result<(), VmError>)
        requires
            old(self).wf(),
        ensures
            (match r {
                Ok(()) => final(self).wf() && (exists|n: nat|
                    run_model(old(self)@, n) == StepResult::Halted(final(self)@)),
                Err(e) => (exists|n: nat| run_model(old(self)@, n) == StepResult::Failed(e))
                    || (e == VmError::StepLimitReached && run_model(
                    old(self)@,
                    u64::MAX as nat,
                ) == StepResult::Running(final(self)@)),
            }),
    {
        proof {
            assert(run_model(old(self)@, 0) == StepResult::Running(old(self)@));
        }
        let mut budget: u64 = u64::MAX;
        while budget > 0
            invariant
                self.wf(),
                run_model(old(self)@, (u64::MAX - budget) as nat) == StepResult::Running(
                    self@,
                ),
            decreases budget,
        {
            let ghost prev = self@;
            let ghost n0: nat = (u64::MAX - budget) as nat;
            budget = budget - 1;
            proof {
                assert(u64::MAX - budget == n0 + 1);
                assert(run_model(old(self)@, n0 + 1) == advance(prev));
            }
            let fi = self.frames.len() - 1;
            let ip = self.frames[fi].ip;
            let code_len = self.frames[fi].instructions.len();
            if ip >= code_len {
                if self.frames.len() == 1 {
                    proof {
                        assert(advance(prev) == StepResult::Halted(self@));
                    }
                    return Ok(());
                }
                // a body fell off the end of its stream without an
                // explicit return: it returns null to its caller
                let frame = self.frames.pop().unwrap();
                let ghost s1 = self.stack@;
                proof {
                    lemma_obj_views_index(s1);
                }
                if frame.base_pointer <= self.stack.len() {
                    self.stack.truncate(frame.base_pointer);
                    proof {
                        lemma_obj_views_index(self.stack@);
                        assert(obj_views(self.stack@) =~= obj_views(s1).take(
                            frame.base_pointer as int,
                        ));
                    }
                }
                self.push_value(Object::NULL);
                proof {
                    let f = prev.frames.last();
                    let restored = if 0 <= f.base <= prev.stack.len() {
                        prev.stack.take(f.base)
                    } else {
                        prev.stack
                    };
                    assert(self@.frames =~= prev.frames.drop_last());
                    assert(self@ =~= (VmModel {
                        stack: restored.push(ObjV::Null),
                        frames: prev.frames.drop_last(),
                        ..prev
                    }));
                    assert(advance(prev) == StepResult::Running(self@));
                }
                continue;
            }
            let byte = self.frames[fi].instructions[ip];
            let decoded = Opcode::from_byte(byte);
            let op = match decoded {
                Some(op) => op,
                None => {
                    proof {
                        assert(advance(prev) == StepResult::Failed(VmError::UnknownOpcode));
                    }
                    return Err(VmError::UnknownOpcode);
                },
            };
            let mut operand: u16 = 0;
            if op.has_operand() {
                if code_len - ip < 3 {
                    proof {
                        assert(advance(prev) == StepResult::Failed(
                            VmError::TruncatedInstruction,
                        ));
                    }
                    return Err(VmError::TruncatedInstruction);
                }
                operand = read_u16(&self.frames[fi].instructions, ip + 1);
                let mut frame = self.frames.pop().unwrap();
                frame.ip = ip + 3;
                self.frames.push(frame);
                proof {
                    assert(self@ =~= with_ip(prev, ip as int + 3));
                }
            } else {
                let mut frame = self.frames.pop().unwrap();
                frame.ip = ip + 1;
                self.frames.push(frame);
                proof {
                    assert(self@ =~= with_ip(prev, ip as int + 1));
                }
            }
            let ghost mid = self@;
            let res = self.execute_op(op, operand);
            match res {
                Ok(()) => {
                    proof {
                        assert(advance(prev) == step_op(mid, op, operand as int));
                        assert(advance(prev) == StepResult::Running(self@));
                    }
                },
                Err(e) => {
                    proof {
                        assert(advance(prev) == step_op(mid, op, operand as int));
                        assert(advance(prev) == StepResult::Failed(e));
                    }
                    return Err(e);
                },
            }
        }
        Err(VmError::StepLimitReached)
    }
}

/// A model that halts within the step budget leaves `run` no escape: the
/// halted outcome stands at the full budget (so the step-limit error's
/// clause cannot hold), and no step count reaches a failure (so no error
/// can be reported). By `run`'s contract, the machine can then only
/// return `Ok`, in the halted state.
pub proof fn lemma_halted_within_budget(m: VmModel, n: nat, h: VmModel)
    requires
        n <= u64::MAX as nat,
        run_model(m, n) == StepResult::Halted(h),
    ensures
        run_model(m, u64::MAX as nat) == StepResult::Halted(h),
        forall|k: nat| !(run_model(m, k) is Failed),
{
    lemma_run_model_absorbing(m, n, u64::MAX as nat);
    assert forall|k: nat| !(run_model(m, k) is Failed) by {
        if run_model(m, k) is Failed {
            lemma_run_model_deterministic(m, n, k);
        }
    }
}

/// Two terminal outcomes of the same model agree, whatever step counts
/// they were reached at.
pub proof fn lemma_run_model_deterministic(m: VmModel, n1: nat, n2: nat)
    requires
        !(run_model(m, n1) is Running),
        !(run_model(m, n2) is Running),
    ensures
        run_model(m, n1) == run_model(m, n2),
{
    if n1 <= n2 {
        lemma_run_model_absorbing(m, n1, n2);
    } else {
        lemma_run_model_absorbing(m, n2, n1);
    }
}

} // verus!
