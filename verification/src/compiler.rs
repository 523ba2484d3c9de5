//! The compiler: walks a parsed program, emits instructions into a stack
//! of per-function buffers ("scopes"), manages the constant pool and the
//! global symbol table, and backpatches control-flow jumps in place.
//!
//! Every mutation of compiler state is specified against a functional
//! model (`CompilerModel`): each method's contract states exactly which
//! model state it produces, and `compile` relates the whole pass to the
//! model compilation `c_program`.

use vstd::prelude::*;

use crate::ast::{
    ArrayLiteral, BlockStatement, Conditional, Expression, FunctionCall, FunctionLiteral,
    HashMapLiteral, Identifier, IndexExpression, InfixOperator, LetStatement, PrefixOperator,
    Primitive, Program, ReturnStatement, Statement, Token,
};
use crate::code::{
    make_spec, opcode_has_operand, opcode_of_byte, opcode_operand_count, opcode_value, overwrite,
    splice, Instructions, Opcode,
};
use crate::object::{obj_view, obj_views, CompiledFunction, Object, ObjV};
use crate::symbol_table::{resolve_model, SymbolTable};

verus! {

broadcast use vstd::std_specs::vec::group_vec_axioms, vstd::seq::group_seq_axioms;

/// The opcode and starting position of an instruction already written
/// into the current scope's buffer.
#[derive(Clone, Copy, PartialEq, Eq, Structural, Debug)]
pub struct EmittedInstruction {
    pub opcode: Opcode,
    pub position: usize,
}

/// One function body's (or the top level's) in-progress instruction
/// buffer, with bookkeeping for the last two instructions emitted.
pub struct CompilerScope {
    pub instructions: Instructions,
    pub last_instruction: Option<EmittedInstruction>,
    pub previous_instruction: Option<EmittedInstruction>,
}

/// The mathematical state of one compiler scope.
#[verifier::ext_equal]
pub struct ScopeModel {
    pub code: Seq<u8>,
    pub last: Option<(Opcode, int)>,
    pub prev: Option<(Opcode, int)>,
}

/// The mathematical state of the whole compiler: the scope stack, the
/// constant pool and the symbol bindings.
#[verifier::ext_equal]
pub struct CompilerModel {
    pub scopes: Seq<ScopeModel>,
    pub constants: Seq<ObjV>,
    pub symbols: Seq<(Seq<char>, int)>,
}

pub open spec fn emitted_model(e: Option<EmittedInstruction>) -> Option<(Opcode, int)> {
    match e {
        Some(e) => Some((e.opcode, e.position as int)),
        None => None,
    }
}

pub open spec fn scope_model(s: CompilerScope) -> ScopeModel {
    ScopeModel {
        code: s.instructions@,
        last: emitted_model(s.last_instruction),
        prev: emitted_model(s.previous_instruction),
    }
}

/// An empty scope, as freshly created.
pub open spec fn empty_scope() -> ScopeModel {
    ScopeModel { code: Seq::empty(), last: None, prev: None }
}

/// The scope currently receiving instructions: the top of the stack.
pub open spec fn cur_scope(m: CompilerModel) -> ScopeModel {
    m.scopes.last()
}

pub open spec fn with_cur_scope(m: CompilerModel, s: ScopeModel) -> CompilerModel {
    CompilerModel {
        scopes: m.scopes.update(m.scopes.len() - 1, s),
        constants: m.constants,
        symbols: m.symbols,
    }
}

/// Emitting appends the encoded instruction to the current scope and
/// shifts the last/previous bookkeeping.
pub open spec fn c_emit(m: CompilerModel, op: Opcode, operands: Seq<u16>) -> CompilerModel {
    let s = cur_scope(m);
    with_cur_scope(
        m,
        ScopeModel {
            code: s.code + make_spec(op, operands),
            last: Some((op, s.code.len() as int)),
            prev: s.last,
        },
    )
}

/// The position the next emitted instruction will start at.
pub open spec fn c_emit_pos(m: CompilerModel) -> int {
    cur_scope(m).code.len() as int
}

/// Whether the last emitted instruction of the current scope is `op`.
pub open spec fn c_last_is(m: CompilerModel, op: Opcode) -> bool {
    match cur_scope(m).last {
        Some((o, _)) => o == op,
        None => false,
    }
}

/// Removing the last instruction truncates the buffer back to where it
/// started and restores the bookkeeping to the instruction before it.
/// A recorded position past the buffer (never produced by emitting)
/// leaves the state unchanged.
pub open spec fn c_remove_last(m: CompilerModel) -> CompilerModel {
    let s = cur_scope(m);
    match s.last {
        Some((op, p)) => if 0 <= p <= s.code.len() {
            with_cur_scope(m, ScopeModel { code: s.code.take(p), last: s.prev, prev: s.prev })
        } else {
            m
        },
        None => m,
    }
}

/// Re-encodes, in place, the operand of the instruction starting at
/// `pos`. Fails on a position outside the buffer, an unrecognized opcode
/// byte, an opcode without an operand, or an instruction that would run
/// past the buffer — all stream-corruption conditions.
pub open spec fn c_change_operand(m: CompilerModel, pos: int, operand: u16) -> Result<
    CompilerModel,
    CErr,
> {
    let s = cur_scope(m);
    if !(0 <= pos < s.code.len()) {
        Err(CErr::InvalidPatch)
    } else {
        match opcode_of_byte(s.code[pos]) {
            Some(op) => {
                if !opcode_has_operand(op) || pos + 3 > s.code.len() {
                    Err(CErr::InvalidPatch)
                } else {
                    Ok(
                        with_cur_scope(
                            m,
                            ScopeModel {
                                code: overwrite(s.code, pos, make_spec(op, seq![operand])),
                                last: s.last,
                                prev: s.prev,
                            },
                        ),
                    )
                }
            },
            None => Err(CErr::InvalidPatch),
        }
    }
}

/// Rewrites a trailing pop into a return-value in place, keeping the
/// recorded position. Without a last instruction, or with one recorded
/// past the buffer, the state is unchanged.
pub open spec fn c_replace_last_pop_with_return(m: CompilerModel) -> CompilerModel {
    let s = cur_scope(m);
    match s.last {
        Some((op, p)) => if 0 <= p < s.code.len() {
            with_cur_scope(
                m,
                ScopeModel {
                    code: overwrite(s.code, p, make_spec(Opcode::ReturnValue, Seq::empty())),
                    last: Some((Opcode::ReturnValue, p)),
                    prev: s.prev,
                },
            )
        } else {
            m
        },
        None => m,
    }
}

/// Appending a value to the constant pool; its index is the pool's size
/// before the append.
pub open spec fn c_add_constant(m: CompilerModel, v: ObjV) -> CompilerModel {
    CompilerModel { scopes: m.scopes, constants: m.constants.push(v), symbols: m.symbols }
}

/// Entering a function body pushes a fresh scope.
pub open spec fn c_enter_scope(m: CompilerModel) -> CompilerModel {
    CompilerModel { scopes: m.scopes.push(empty_scope()), constants: m.constants, symbols: m.symbols }
}

/// Leaving a function body pops the finished scope.
pub open spec fn c_leave_scope(m: CompilerModel) -> CompilerModel {
    CompilerModel { scopes: m.scopes.drop_last(), constants: m.constants, symbols: m.symbols }
}

/// A compile error, in the model.
pub enum CErr {
    UndefinedVariable(Seq<char>),
    UnknownInfixOperator(Token),
    UnknownPrefixOperator(Token),
    ArrayTooLong,
    HashMapTooLong,
    ConstantIndexOutOfRange,
    GlobalIndexOutOfRange,
    JumpOutOfRange,
    InvalidPatch,
}

/// A compile error: the compilation aborts at the first one, and no
/// partial bytecode is usable.
#[derive(Debug)]
pub enum CompileError {
    /// An identifier was referenced that was never defined.
    UndefinedVariable(String),
    /// A token that is not a valid infix operator stood in infix position.
    UnknownInfixOperator(Token),
    /// A token that is not a valid prefix operator stood in prefix position.
    UnknownPrefixOperator(Token),
    /// An array literal with more elements than an operand can express.
    ArrayTooLong,
    /// A hash literal with more entries than an operand can express.
    HashMapTooLong,
    /// The constant pool outgrew the constant operand's range.
    ConstantIndexOutOfRange,
    /// A global slot index outgrew the global operand's range.
    GlobalIndexOutOfRange,
    /// A jump target outgrew the jump operand's range.
    JumpOutOfRange,
    /// A backpatch position did not address a patchable instruction.
    InvalidPatch,
}

impl View for CompileError {
    type V = CErr;

    open spec fn view(&self) -> CErr {
        match self {
            CompileError::UndefinedVariable(name) => CErr::UndefinedVariable(name@),
            CompileError::UnknownInfixOperator(t) => CErr::UnknownInfixOperator(*t),
            CompileError::UnknownPrefixOperator(t) => CErr::UnknownPrefixOperator(*t),
            CompileError::ArrayTooLong => CErr::ArrayTooLong,
            CompileError::HashMapTooLong => CErr::HashMapTooLong,
            CompileError::ConstantIndexOutOfRange => CErr::ConstantIndexOutOfRange,
            CompileError::GlobalIndexOutOfRange => CErr::GlobalIndexOutOfRange,
            CompileError::JumpOutOfRange => CErr::JumpOutOfRange,
            CompileError::InvalidPatch => CErr::InvalidPatch,
        }
    }
}

impl Default for CompilerScope {
    fn default() -> (r: Self)
        ensures
            scope_model(r) == empty_scope(),
    {
        Self::new()
    }
}

impl CompilerScope {
    /// A fresh, empty instruction buffer with no emission history.
    pub fn new() -> (r: Self)
        ensures
            scope_model(r) == empty_scope(),
    {
        let r = CompilerScope {
            instructions: Instructions::default(),
            last_instruction: None,
            previous_instruction: None,
        };
        proof {
            assert(scope_model(r) =~= empty_scope());
        }
        r
    }
}

/// The compiler: the constant pool, the single global symbol table, and
/// the stack of instruction buffers, of which the top one receives every
/// emitted instruction.
pub struct Compiler {
    pub constants: Vec<Object>,
    pub symbol_table: SymbolTable,
    pub scopes: Vec<CompilerScope>,
    pub scope_index: usize,
}

impl View for Compiler {
    type V = CompilerModel;

    open spec fn view(&self) -> CompilerModel {
        CompilerModel {
            scopes: Seq::new(self.scopes@.len(), |i: int| scope_model(self.scopes@[i])),
            constants: obj_views(self.constants@),
            symbols: self.symbol_table@,
        }
    }
}

/// The state a fresh compiler starts in: one empty top-level scope, no
/// constants, no symbols.
pub open spec fn init_model() -> CompilerModel {
    CompilerModel { scopes: seq![empty_scope()], constants: Seq::empty(), symbols: Seq::empty() }
}

impl Default for Compiler {
    fn default() -> (r: Self)
        ensures
            r.wf(),
            r@ == init_model(),
    {
        Self::new()
    }
}

impl Compiler {
    /// Structural validity: at least one scope exists and `scope_index`
    /// addresses the top of the scope stack.
    pub open spec fn wf(self) -> bool {
        &&& self.scopes@.len() >= 1
        &&& self.scope_index as int + 1 == self.scopes@.len()
    }

    /// A fresh compiler over one empty top-level scope.
    pub fn new() -> (r: Self)
        ensures
            r.wf(),
            r@ == init_model(),
    {
        let main_scope = CompilerScope::default();
        let mut scopes: Vec<CompilerScope> = Vec::new();
        scopes.push(main_scope);
        let r = Compiler {
            constants: Vec::new(),
            symbol_table: SymbolTable::default(),
            scopes,
            scope_index: 0,
        };
        proof {
            assert(r@.scopes =~= init_model().scopes);
            assert(r@ =~= init_model());
        }
        r
    }

    /// A compiler seeded with a carried-over symbol table and constant
    /// pool, for incremental compilation across successive inputs.
    pub fn new_with_state(symbol_table: SymbolTable, constants: Vec<Object>) -> (r: Self)
        ensures
            r.wf(),
            r@ == (CompilerModel {
                scopes: seq![empty_scope()],
                constants: obj_views(constants@),
                symbols: symbol_table@,
            }),
    {
        let ghost cs = constants@;
        let ghost st = symbol_table@;
        let mut compiler = Compiler::new();
        compiler.symbol_table = symbol_table;
        compiler.constants = constants;
        proof {
            assert(compiler@ =~= CompilerModel {
                scopes: seq![empty_scope()],
                constants: obj_views(cs),
                symbols: st,
            });
        }
        compiler
    }

    /// Appends an encoded instruction to the current scope's buffer and
    /// returns the position it starts at.
    fn add_instruction(&mut self, instruction: Instructions) -> (pos: usize)
        requires
            old(self).wf(),
        ensures
            final(self).wf(),
            final(self)@ == with_cur_scope(
                old(self)@,
                ScopeModel {
                    code: cur_scope(old(self)@).code + instruction@,
                    last: cur_scope(old(self)@).last,
                    prev: cur_scope(old(self)@).prev,
                },
            ),
            pos as int == cur_scope(old(self)@).code.len(),
    {
        let mut scope = self.scopes.pop().unwrap();
        let pos = scope.instructions.data.len();
        scope.instructions.append(instruction);
        self.scopes.push(scope);
        proof {
            let target = with_cur_scope(
                old(self)@,
                ScopeModel {
                    code: cur_scope(old(self)@).code + instruction@,
                    last: cur_scope(old(self)@).last,
                    prev: cur_scope(old(self)@).prev,
                },
            );
            assert(self@.scopes =~= target.scopes);
            assert(self@ =~= target);
        }
        pos
    }

    /// Records `opcode` at `pos` as the last emitted instruction, pushing
    /// the earlier record back one slot.
    fn set_last_instruction(&mut self, opcode: Opcode, pos: usize)
        requires
            old(self).wf(),
        ensures
            final(self).wf(),
            final(self)@ == with_cur_scope(
                old(self)@,
                ScopeModel {
                    code: cur_scope(old(self)@).code,
                    last: Some((opcode, pos as int)),
                    prev: cur_scope(old(self)@).last,
                },
            ),
    {
        let mut scope = self.scopes.pop().unwrap();
        scope.previous_instruction = scope.last_instruction;
        scope.last_instruction = Some(EmittedInstruction { opcode, position: pos });
        self.scopes.push(scope);
        proof {
            let target = with_cur_scope(
                old(self)@,
                ScopeModel {
                    code: cur_scope(old(self)@).code,
                    last: Some((opcode, pos as int)),
                    prev: cur_scope(old(self)@).last,
                },
            );
            assert(self@.scopes =~= target.scopes);
            assert(self@ =~= target);
        }
    }

    /// Encodes one instruction, appends it to the current scope, records
    /// it as the last emitted, and returns its starting position.
    pub fn emit(&mut self, opcode: Opcode, operands: Vec<u16>) -> (pos: usize)
        requires
            old(self).wf(),
            operands@.len() == opcode_operand_count(opcode),
        ensures
            final(self).wf(),
            final(self)@ == c_emit(old(self)@, opcode, operands@),
            pos as int == c_emit_pos(old(self)@),
    {
        let instruction = opcode.make(operands);
        let pos = self.add_instruction(instruction);
        self.set_last_instruction(opcode, pos);
        proof {
            assert(self@.scopes =~= c_emit(old(self)@, opcode, operands@).scopes);
            assert(self@ =~= c_emit(old(self)@, opcode, operands@));
        }
        pos
    }

    /// Whether the last instruction emitted into the current scope is
    /// `opcode`.
    pub fn last_instruction_is(&self, opcode: Opcode) -> (r: bool)
        requires
            self.wf(),
        ensures
            r == c_last_is(self@, opcode),
    {
        let idx = self.scope_index;
        match &self.scopes[idx].last_instruction {
            Some(last) => last.opcode == opcode,
            None => false,
        }
    }

    /// Truncates the current scope's buffer back to before its last
    /// instruction and restores the bookkeeping to the one before that.
    fn remove_last_instruction(&mut self)
        requires
            old(self).wf(),
        ensures
            final(self).wf(),
            final(self)@ == c_remove_last(old(self)@),
    {
        let mut scope = self.scopes.pop().unwrap();
        match scope.last_instruction {
            Some(last) => {
                if last.position <= scope.instructions.data.len() {
                    scope.instructions.data.truncate(last.position);
                    scope.last_instruction = scope.previous_instruction;
                }
            },
            None => {},
        }
        self.scopes.push(scope);
        proof {
            assert(self@.scopes =~= c_remove_last(old(self)@).scopes);
            assert(self@ =~= c_remove_last(old(self)@));
        }
    }

    /// Appends a value to the constant pool and returns its index.
    pub fn add_constant(&mut self, obj: Object) -> (idx: usize)
        requires
            old(self).wf(),
        ensures
            final(self).wf(),
            final(self)@ == c_add_constant(old(self)@, obj@),
            idx as int == old(self)@.constants.len(),
    {
        let ghost o = obj@;
        self.constants.push(obj);
        proof {
            crate::object::lemma_obj_views_index(old(self).constants@);
            crate::object::lemma_obj_views_index(self.constants@);
            assert(obj_views(self.constants@) =~= old(self)@.constants.push(o));
            assert(self@ =~= c_add_constant(old(self)@, o));
        }
        (self.constants.len() - 1)
    }

    /// Overwrites, in place, the bytes at `pos` with the given encoded
    /// instruction; the buffer's length never changes.
    fn replace_instruction(&mut self, pos: usize, new_instruction: &Instructions)
        requires
            old(self).wf(),
            pos + new_instruction@.len() <= cur_scope(old(self)@).code.len(),
        ensures
            final(self).wf(),
            final(self)@ == with_cur_scope(
                old(self)@,
                ScopeModel {
                    code: overwrite(cur_scope(old(self)@).code, pos as int, new_instruction@),
                    last: cur_scope(old(self)@).last,
                    prev: cur_scope(old(self)@).prev,
                },
            ),
    {
        let mut scope = self.scopes.pop().unwrap();
        splice(&mut scope.instructions.data, pos, &new_instruction.data);
        self.scopes.push(scope);
        proof {
            let target = with_cur_scope(
                old(self)@,
                ScopeModel {
                    code: overwrite(cur_scope(old(self)@).code, pos as int, new_instruction@),
                    last: cur_scope(old(self)@).last,
                    prev: cur_scope(old(self)@).prev,
                },
            );
            assert(self@.scopes =~= target.scopes);
            assert(self@ =~= target);
        }
    }

    /// Re-encodes the operand of the instruction starting at `pos` with a
    /// new value, the sole mutation path used for jump backpatching. A
    /// position that does not address a patchable instruction is a
    /// corruption error.
    pub fn change_operand(&mut self, pos: usize, operand: u16) -> (r: Result<(), CompileError>)
        requires
            old(self).wf(),
        ensures
            final(self).wf(),
            match r {
                Ok(()) => c_change_operand(old(self)@, pos as int, operand) == Ok::<
                    CompilerModel,
                    CErr,
                >(final(self)@),
                Err(e) => c_change_operand(old(self)@, pos as int, operand) == Err::<
                    CompilerModel,
                    CErr,
                >(e@) && *final(self) == *old(self),
            },
    {
        let idx = self.scope_index;
        let len: usize = self.scopes[idx].instructions.data.len();
        if pos >= len {
            return Err(CompileError::InvalidPatch);
        }
        let byte = self.scopes[idx].instructions.data[pos];
        match Opcode::from_byte(byte) {
            Some(op) => {
                if !op.has_operand() || len - pos < 3 {
                    Err(CompileError::InvalidPatch)
                } else {
                    let new_instruction = op.make(vec![operand]);
                    self.replace_instruction(pos, &new_instruction);
                    proof {
                        let target = c_change_operand(old(self)@, pos as int, operand);
                        assert(target is Ok);
                        assert(self@ =~= target->Ok_0);
                    }
                    Ok(())
                }
            },
            None => Err(CompileError::InvalidPatch),
        }
    }

    /// Pushes a fresh scope: subsequent emissions go to the new buffer.
    pub fn enter_scope(&mut self)
        requires
            old(self).wf(),
        ensures
            final(self).wf(),
            final(self)@ == c_enter_scope(old(self)@),
    {
        let scope = CompilerScope::default();
        self.scopes.push(scope);
        self.scope_index = self.scopes.len() - 1;
        proof {
            assert(self@.scopes =~= c_enter_scope(old(self)@).scopes);
            assert(self@ =~= c_enter_scope(old(self)@));
        }
    }

    /// Pops the top scope and hands back its finished instruction stream.
    pub fn leave_scope(&mut self) -> (r: Instructions)
        requires
            old(self).wf(),
            old(self).scopes@.len() >= 2,
        ensures
            final(self).wf(),
            final(self)@ == c_leave_scope(old(self)@),
            r@ == cur_scope(old(self)@).code,
    {
        let scope = self.scopes.pop().unwrap();
        self.scope_index = self.scope_index - 1;
        proof {
            assert(self@.scopes =~= c_leave_scope(old(self)@).scopes);
            assert(self@ =~= c_leave_scope(old(self)@));
        }
        scope.instructions
    }

    /// Rewrites a trailing pop instruction into return-value, in place:
    /// the implicit "last expression is the return value" rule for
    /// function bodies.
    fn replace_last_pop_with_return(&mut self)
        requires
            old(self).wf(),
        ensures
            final(self).wf(),
            final(self)@ == c_replace_last_pop_with_return(old(self)@),
    {
        let idx = self.scope_index;
        let len: usize = self.scopes[idx].instructions.data.len();
        let last_opt = self.scopes[idx].last_instruction;
        match last_opt {
            Some(last) => {
                if last.position < len {
                    let new_instruction = Opcode::ReturnValue.make(Vec::new());
                    let mut scope = self.scopes.pop().unwrap();
                    splice(&mut scope.instructions.data, last.position, &new_instruction.data);
                    scope.last_instruction = Some(
                        EmittedInstruction { opcode: Opcode::ReturnValue, position: last.position },
                    );
                    self.scopes.push(scope);
                    proof {
                        let tgt = c_replace_last_pop_with_return(old(self)@);
                        assert(self@.scopes =~= tgt.scopes);
                        assert(self@ =~= tgt);
                    }
                }
            },
            None => {},
        }
    }
}

impl Compiler {
    /// Compiles a whole program into the current scope. On success the
    /// state is exactly the model compilation's; on an error, compilation
    /// aborted at exactly the model's first error.
    pub fn compile(&mut self, program: Program) -> (r: Result<(), CompileError>)
        requires
            old(self).wf(),
        ensures
            final(self).wf(),
            final(self)@.scopes.len() == old(self)@.scopes.len(),
            (match r {
                Ok(()) => c_program(program, old(self)@) == Ok::<CompilerModel, CErr>(
                    final(self)@,
                ),
                Err(e) => c_program(program, old(self)@) == Err::<CompilerModel, CErr>(e@),
            }),
    {
        self.compile_statements(&program.statements)
    }

    /// Compiles a braced block: its statements in order.
    fn compile_block_statement(&mut self, block: &BlockStatement) -> (r: Result<
        (),
        CompileError,
    >)
        requires
            old(self).wf(),
        ensures
            final(self).wf(),
            final(self)@.scopes.len() == old(self)@.scopes.len(),
            (match r {
                Ok(()) => c_block(*block, old(self)@) == Ok::<CompilerModel, CErr>(final(self)@),
                Err(e) => c_block(*block, old(self)@) == Err::<CompilerModel, CErr>(e@),
            }),
        decreases *block,
    {
        self.compile_statements(&block.statements)
    }

    /// Compiles statements in order, stopping at the first error.
    #[verifier::loop_isolation(false)]
    fn compile_statements(&mut self, statements: &Vec<Statement>) -> (r: Result<
        (),
        CompileError,
    >)
        requires
            old(self).wf(),
        ensures
            final(self).wf(),
            final(self)@.scopes.len() == old(self)@.scopes.len(),
            (match r {
                Ok(()) => c_stmts(statements@, old(self)@) == Ok::<CompilerModel, CErr>(
                    final(self)@,
                ),
                Err(e) => c_stmts(statements@, old(self)@) == Err::<CompilerModel, CErr>(e@),
            }),
        decreases *statements,
    {
        let n: usize = statements.len();
        proof {
            assert(statements@.skip(0) =~= statements@);
        }
        let mut i: usize = 0;
        while i < n
            invariant
                i <= n,
                self.wf(),
                self@.scopes.len() == old(self)@.scopes.len(),
                c_stmts(statements@, old(self)@) == c_stmts(statements@.skip(i as int), self@),
            decreases n - i,
        {
            proof {
                assert(decreases_to!(*statements => statements@[i as int]));
                assert(statements@.skip(i as int).first() == statements@[i as int]);
            }
            let ghost pre = self@;
            let res = self.compile_statement(&statements[i]);
            match res {
                Ok(()) => {
                    proof {
                        assert(statements@.skip(i as int).drop_first() =~= statements@.skip(
                            i as int + 1,
                        ));
                    }
                    i = i + 1;
                },
                Err(e) => {
                    return Err(e);
                },
            }
        }
        proof {
            assert(statements@.skip(n as int) =~= Seq::<Statement>::empty());
        }
        Ok(())
    }

    /// The length of the instruction stream compiled so far in the
    /// current scope.
    fn current_code_len(&self) -> (r: usize)
        requires
            self.wf(),
        ensures
            r as int == cur_scope(self@).code.len(),
    {
        let idx = self.scope_index;
        self.scopes[idx].instructions.data.len()
    }

    /// Compiles one expression, leaving its value on the stack at run
    /// time.
    #[verifier::loop_isolation(false)]
    #[verifier::rlimit(60)]
    fn compile_expression(&mut self, expression: &Expression) -> (r: Result<(), CompileError>)
        requires
            old(self).wf(),
        ensures
            final(self).wf(),
            final(self)@.scopes.len() == old(self)@.scopes.len(),
            (match r {
                Ok(()) => c_expr(*expression, old(self)@) == Ok::<CompilerModel, CErr>(
                    final(self)@,
                ),
                Err(e) => c_expr(*expression, old(self)@) == Err::<CompilerModel, CErr>(e@),
            }),
            // a failed identifier reference appends nothing: the compiler
            // is left exactly as it stood
            ((*expression matches Expression::Identifier(_)) && r is Err) ==> *final(self)
                == *old(self),
        decreases *expression,
    {
        match expression {
            Expression::Infix(infix) => {
                if infix.token == Token::LT || infix.token == Token::LTE {
                    self.compile_lt_and_lte(infix)
                } else {
                    let res = self.compile_expression(&*infix.left);
                    match res {
                        Ok(()) => {
                            let res2 = self.compile_expression(&*infix.right);
                            match res2 {
                                Ok(()) => self.compile_infix_operator(&infix.token),
                                Err(err) => Err(err),
                            }
                        },
                        Err(err) => Err(err),
                    }
                }
            },
            Expression::Prefix(prefix) => {
                let res = self.compile_expression(&*prefix.right);
                match res {
                    Ok(()) => self.compile_prefix_operator(&prefix.token),
                    Err(err) => Err(err),
                }
            },
            Expression::Primitive(p) => self.compile_primitive(p),
            Expression::Conditional(conditional) => self.compile_conditional(conditional),
            Expression::Identifier(ident) => {
                let resolved = self.symbol_table.resolve(&ident.value);
                match resolved {
                    Some(symbol) => {
                        if symbol.index > 0xffff {
                            Err(CompileError::GlobalIndexOutOfRange)
                        } else {
                            let mut operands: Vec<u16> = Vec::new();
                            operands.push(symbol.index as u16);
                            proof {
                                assert(operands@ =~= seq![symbol.index as u16]);
                            }
                            self.emit(Opcode::GetGlobal, operands);
                            Ok(())
                        }
                    },
                    None => Err(CompileError::UndefinedVariable(ident.value.clone())),
                }
            },
            Expression::ArrayLiteral(array) => {
                let n: usize = array.elements.len();
                if n > 0xffff {
                    return Err(CompileError::ArrayTooLong);
                }
                proof {
                    assert(array.elements@.skip(0) =~= array.elements@);
                }
                let mut i: usize = 0;
                while i < n
                    invariant
                        i <= n,
                        self.wf(),
                        self@.scopes.len() == old(self)@.scopes.len(),
                        c_exprs(array.elements@, old(self)@) == c_exprs(
                            array.elements@.skip(i as int),
                            self@,
                        ),
                    decreases n - i,
                {
                    proof {
                        assert(decreases_to!(*expression => array.elements@[i as int]));
                        assert(array.elements@.skip(i as int).first() == array.elements@[
                            i as int]);
                    }
                    let res = self.compile_expression(&array.elements[i]);
                    match res {
                        Ok(()) => {
                            proof {
                                assert(array.elements@.skip(i as int).drop_first()
                                    =~= array.elements@.skip(i as int + 1));
                            }
                            i = i + 1;
                        },
                        Err(e) => {
                            return Err(e);
                        },
                    }
                }
                proof {
                    assert(array.elements@.skip(n as int) =~= Seq::<Expression>::empty());
                }
                let mut operands: Vec<u16> = Vec::new();
                operands.push(n as u16);
                proof {
                    assert(operands@ =~= seq![n as u16]);
                }
                self.emit(Opcode::Array, operands);
                Ok(())
            },
            Expression::HashMapLiteral(hashmap) => {
                let n: usize = hashmap.pairs.len();
                if n > 0x7fff {
                    return Err(CompileError::HashMapTooLong);
                }
                proof {
                    assert(hashmap.pairs@.skip(0) =~= hashmap.pairs@);
                }
                let mut i: usize = 0;
                while i < n
                    invariant
                        i <= n,
                        self.wf(),
                        self@.scopes.len() == old(self)@.scopes.len(),
                        c_pairs(hashmap.pairs@, old(self)@) == c_pairs(
                            hashmap.pairs@.skip(i as int),
                            self@,
                        ),
                    decreases n - i,
                {
                    proof {
                        assert(decreases_to!(*expression => hashmap.pairs@[i as int]));
                        assert(hashmap.pairs@.skip(i as int).first() == hashmap.pairs@[i as int]);
                    }
                    let res = self.compile_expression(&hashmap.pairs[i].0);
                    match res {
                        Ok(()) => {},
                        Err(e) => {
                            return Err(e);
                        },
                    }
                    let res2 = self.compile_expression(&hashmap.pairs[i].1);
                    match res2 {
                        Ok(()) => {
                            proof {
                                assert(hashmap.pairs@.skip(i as int).drop_first()
                                    =~= hashmap.pairs@.skip(i as int + 1));
                            }
                            i = i + 1;
                        },
                        Err(e) => {
                            return Err(e);
                        },
                    }
                }
                proof {
                    assert(hashmap.pairs@.skip(n as int) =~= Seq::<(Expression, Expression)>::empty());
                }
                let mut operands: Vec<u16> = Vec::new();
                operands.push((n * 2) as u16);
                proof {
                    assert(operands@ =~= seq![(n * 2) as u16]);
                }
                self.emit(Opcode::Hash, operands);
                Ok(())
            },
            Expression::IndexExpression(index) => {
                let res = self.compile_expression(&*index.left);
                match res {
                    Ok(()) => {
                        let res2 = self.compile_expression(&*index.index);
                        match res2 {
                            Ok(()) => {
                                self.emit(Opcode::Index, Vec::new());
                                Ok(())
                            },
                            Err(err) => Err(err),
                        }
                    },
                    Err(err) => Err(err),
                }
            },
            Expression::FunctionLiteral(fun) => {
                self.enter_scope();
                let res = self.compile_block_statement(&fun.body);
                match res {
                    Err(err) => {
                        // the scope must be popped even when the body
                        // fails, so later statements compile into the
                        // right buffer
                        let _ = self.leave_scope();
                        Err(err)
                    },
                    Ok(()) => {
                        if self.last_instruction_is(Opcode::Pop) {
                            self.replace_last_pop_with_return();
                        }
                        let instructions = self.leave_scope();
                        let compiled_function = Object::COMPILEDFUNCTION(
                            CompiledFunction { instructions: instructions.data },
                        );
                        let pos = self.add_constant(compiled_function);
                        if pos > 0xffff {
                            return Err(CompileError::ConstantIndexOutOfRange);
                        }
                        let mut operands: Vec<u16> = Vec::new();
                        operands.push(pos as u16);
                        proof {
                            assert(operands@ =~= seq![pos as u16]);
                        }
                        self.emit(Opcode::Constant, operands);
                        Ok(())
                    },
                }
            },
            Expression::FunctionCall(call) => {
                let res = self.compile_expression(&*call.function);
                match res {
                    Ok(()) => {
                        self.emit(Opcode::Call, Vec::new());
                        Ok(())
                    },
                    Err(err) => Err(err),
                }
            },
        }
    }

    /// Compiles a literal.
    fn compile_primitive(&mut self, primitive: &Primitive) -> (r: Result<(), CompileError>)
        requires
            old(self).wf(),
        ensures
            final(self).wf(),
            final(self)@.scopes.len() == old(self)@.scopes.len(),
            (match r {
                Ok(()) => c_primitive(*primitive, old(self)@) == Ok::<CompilerModel, CErr>(
                    final(self)@,
                ),
                Err(e) => c_primitive(*primitive, old(self)@) == Err::<CompilerModel, CErr>(e@),
            }),
    {
        match primitive {
            Primitive::IntegerLiteral(i) => {
                let integer = Object::INTEGER(*i);
                let pos = self.add_constant(integer);
                if pos > 0xffff {
                    return Err(CompileError::ConstantIndexOutOfRange);
                }
                let mut operands: Vec<u16> = Vec::new();
                operands.push(pos as u16);
                proof {
                    assert(operands@ =~= seq![pos as u16]);
                }
                self.emit(Opcode::Constant, operands);
                Ok(())
            },
            Primitive::BooleanLiteral(b) => {
                if *b {
                    self.emit(Opcode::True, Vec::new());
                } else {
                    self.emit(Opcode::False, Vec::new());
                }
                Ok(())
            },
            Primitive::StringLiteral(s) => {
                let string = Object::STRING(s.clone());
                let pos = self.add_constant(string);
                if pos > 0xffff {
                    return Err(CompileError::ConstantIndexOutOfRange);
                }
                let mut operands: Vec<u16> = Vec::new();
                operands.push(pos as u16);
                proof {
                    assert(operands@ =~= seq![pos as u16]);
                }
                self.emit(Opcode::Constant, operands);
                Ok(())
            },
        }
    }

    /// Emits the opcode of one binary operator token; a token that is no
    /// infix operator is an unknown-operator error.
    fn compile_infix_operator(&mut self, operator: &Token) -> (r: Result<(), CompileError>)
        requires
            old(self).wf(),
        ensures
            final(self).wf(),
            final(self)@.scopes.len() == old(self)@.scopes.len(),
            (match c_infix_opcode(*operator) {
                Some(op) => r is Ok && final(self)@ == c_emit(old(self)@, op, Seq::<u16>::empty()),
                None => *final(self) == *old(self) && (r matches Err(e) && e@
                    == CErr::UnknownInfixOperator(*operator)),
            }),
    {
        match operator {
            Token::Plus => {
                self.emit(Opcode::Add, Vec::new());
                Ok(())
            },
            Token::Minus => {
                self.emit(Opcode::Sub, Vec::new());
                Ok(())
            },
            Token::Asterisk => {
                self.emit(Opcode::Mul, Vec::new());
                Ok(())
            },
            Token::Slash => {
                self.emit(Opcode::Div, Vec::new());
                Ok(())
            },
            Token::GT => {
                self.emit(Opcode::GreaterThan, Vec::new());
                Ok(())
            },
            Token::GTE => {
                self.emit(Opcode::GreaterEqualThan, Vec::new());
                Ok(())
            },
            Token::Equal => {
                self.emit(Opcode::Equal, Vec::new());
                Ok(())
            },
            Token::NotEqual => {
                self.emit(Opcode::NotEqual, Vec::new());
                Ok(())
            },
            Token::Or => {
                self.emit(Opcode::Or, Vec::new());
                Ok(())
            },
            Token::And => {
                self.emit(Opcode::And, Vec::new());
                Ok(())
            },
            _ => Err(CompileError::UnknownInfixOperator(*operator)),
        }
    }

    /// Compiles `<` and `<=` by evaluating the right operand first, then
    /// the left, then emitting the swapped comparison opcode.
    fn compile_lt_and_lte(&mut self, infix: &InfixOperator) -> (r: Result<(), CompileError>)
        requires
            old(self).wf(),
        ensures
            final(self).wf(),
            final(self)@.scopes.len() == old(self)@.scopes.len(),
            (match r {
                Ok(()) => c_lt_lte(*infix, old(self)@) == Ok::<CompilerModel, CErr>(final(self)@),
                Err(e) => c_lt_lte(*infix, old(self)@) == Err::<CompilerModel, CErr>(e@),
            }),
        decreases *infix,
    {
        let res = self.compile_expression(&*infix.right);
        match res {
            Ok(()) => {
                let res2 = self.compile_expression(&*infix.left);
                match res2 {
                    Ok(()) => {
                        match infix.token {
                            Token::LT => {
                                self.emit(Opcode::GreaterThan, Vec::new());
                                Ok(())
                            },
                            Token::LTE => {
                                self.emit(Opcode::GreaterEqualThan, Vec::new());
                                Ok(())
                            },
                            tk => Err(CompileError::UnknownInfixOperator(tk)),
                        }
                    },
                    Err(err) => Err(err),
                }
            },
            Err(err) => Err(err),
        }
    }

    /// Emits the opcode of one prefix operator token.
    fn compile_prefix_operator(&mut self, operator: &Token) -> (r: Result<(), CompileError>)
        requires
            old(self).wf(),
        ensures
            final(self).wf(),
            final(self)@.scopes.len() == old(self)@.scopes.len(),
            (match *operator {
                Token::Bang => r is Ok && final(self)@ == c_emit(
                    old(self)@,
                    Opcode::Bang,
                    Seq::<u16>::empty(),
                ),
                Token::Minus => r is Ok && final(self)@ == c_emit(
                    old(self)@,
                    Opcode::Minus,
                    Seq::<u16>::empty(),
                ),
                t => *final(self) == *old(self) && (r matches Err(e) && e@
                    == CErr::UnknownPrefixOperator(t)),
            }),
    {
        match operator {
            Token::Bang => {
                self.emit(Opcode::Bang, Vec::new());
                Ok(())
            },
            Token::Minus => {
                self.emit(Opcode::Minus, Vec::new());
                Ok(())
            },
            _ => Err(CompileError::UnknownPrefixOperator(*operator)),
        }
    }

    /// Compiles a conditional expression, with placeholder jump targets
    /// patched in place once the arm lengths are known.
    fn compile_conditional(&mut self, conditional: &Conditional) -> (r: Result<(), CompileError>)
        requires
            old(self).wf(),
        ensures
            final(self).wf(),
            final(self)@.scopes.len() == old(self)@.scopes.len(),
            (match r {
                Ok(()) => c_cond(*conditional, old(self)@) == Ok::<CompilerModel, CErr>(
                    final(self)@,
                ),
                Err(e) => c_cond(*conditional, old(self)@) == Err::<CompilerModel, CErr>(e@),
            }),
        decreases *conditional,
    {
        let res = self.compile_expression(&*conditional.condition);
        match res {
            Ok(()) => {},
            Err(err) => {
                return Err(err);
            },
        }
        // a dummy target; the true offset is patched in once known
        let mut jnt_operands: Vec<u16> = Vec::new();
        jnt_operands.push(9999);
        proof {
            assert(jnt_operands@ =~= seq![9999u16]);
        }
        let jump_not_truthy_pos = self.emit(Opcode::JumpNotTruthy, jnt_operands);
        let res_c = self.compile_block_statement(&conditional.consequence);
        match res_c {
            Ok(()) => {},
            Err(err) => {
                return Err(err);
            },
        }
        if self.last_instruction_is(Opcode::Pop) {
            self.remove_last_instruction();
        }
        let mut jump_operands: Vec<u16> = Vec::new();
        jump_operands.push(9999);
        proof {
            assert(jump_operands@ =~= seq![9999u16]);
        }
        let jump_pos = self.emit(Opcode::Jump, jump_operands);
        let after_consequence_pos = self.current_code_len();
        if after_consequence_pos > 0xffff {
            return Err(CompileError::JumpOutOfRange);
        }
        let res_p = self.change_operand(jump_not_truthy_pos, after_consequence_pos as u16);
        match res_p {
            Ok(()) => {},
            Err(err) => {
                return Err(err);
            },
        }
        match &conditional.alternative {
            Some(alternative) => {
                let res_a = self.compile_block_statement(alternative);
                match res_a {
                    Ok(()) => {},
                    Err(err) => {
                        return Err(err);
                    },
                }
                if self.last_instruction_is(Opcode::Pop) {
                    self.remove_last_instruction();
                }
            },
            None => {
                self.emit(Opcode::Null, Vec::new());
            },
        }
        let after_alternative_pos = self.current_code_len();
        if after_alternative_pos > 0xffff {
            return Err(CompileError::JumpOutOfRange);
        }
        let res_q = self.change_operand(jump_pos, after_alternative_pos as u16);
        match res_q {
            Ok(()) => Ok(()),
            Err(err) => Err(err),
        }
    }

    /// The finished output: a copy of the current (top-level) instruction
    /// stream together with the full constant pool.
    pub fn bytecode(&self) -> (r: Bytecode)
        requires
            self.wf(),
        ensures
            r.instructions@ == cur_scope(self@).code,
            obj_views(r.constants@) == self@.constants,
    {
        let idx = self.scope_index;
        let src = &self.scopes[idx].instructions.data;
        let n: usize = src.len();
        let mut data: Vec<u8> = Vec::new();
        let mut i: usize = 0;
        while i < n
            invariant
                i <= n,
                n == src@.len(),
                data@ == src@.take(i as int),
            decreases n - i,
        {
            data.push(src[i]);
            proof {
                assert(data@ =~= src@.take(i as int + 1));
            }
            i = i + 1;
        }
        proof {
            assert(src@.take(n as int) =~= src@);
        }
        let mut constants: Vec<Object> = Vec::new();
        let cn: usize = self.constants.len();
        let mut j: usize = 0;
        while j < cn
            invariant
                j <= cn,
                cn == self.constants@.len(),
                constants@.len() == j as int,
                forall|k: int| 0 <= k < j as int ==> constants@[k]@ == self.constants@[k]@,
            decreases cn - j,
        {
            let c = self.constants[j].duplicate();
            constants.push(c);
            j = j + 1;
        }
        proof {
            crate::object::lemma_obj_views_index(constants@);
            crate::object::lemma_obj_views_index(self.constants@);
            assert(obj_views(constants@) =~= obj_views(self.constants@));
        }
        Bytecode::new(Instructions::new(data), constants)
    }

    /// Compiles one statement: an expression statement discards its value
    /// with a pop, a let binding stores into the fresh global slot, a
    /// return emits return-value.
    fn compile_statement(&mut self, statement: &Statement) -> (r: Result<(), CompileError>)
        requires
            old(self).wf(),
        ensures
            final(self).wf(),
            final(self)@.scopes.len() == old(self)@.scopes.len(),
            (match r {
                Ok(()) => c_stmt(*statement, old(self)@) == Ok::<CompilerModel, CErr>(
                    final(self)@,
                ),
                Err(e) => c_stmt(*statement, old(self)@) == Err::<CompilerModel, CErr>(e@),
            }),
        decreases *statement,
    {
        match statement {
            Statement::Expression(e) => {
                let res = self.compile_expression(e);
                match res {
                    Ok(()) => {
                        self.emit(Opcode::Pop, Vec::new());
                        Ok(())
                    },
                    Err(err) => Err(err),
                }
            },
            Statement::Let(ls) => {
                let res = self.compile_expression(&ls.value);
                match res {
                    Ok(()) => {
                        let ghost m1 = self@;
                        let symbol = self.symbol_table.define(ls.name.clone());
                        proof {
                            assert(self@ =~= (CompilerModel {
                                scopes: m1.scopes,
                                constants: m1.constants,
                                symbols: m1.symbols.push((ls.name@, m1.symbols.len() as int)),
                            }));
                        }
                        if symbol.index > 0xffff {
                            Err(CompileError::GlobalIndexOutOfRange)
                        } else {
                            let mut operands: Vec<u16> = Vec::new();
                            operands.push(symbol.index as u16);
                            proof {
                                assert(operands@ =~= seq![symbol.index as u16]);
                                assert(symbol.index as u16 == (m1.symbols.len() as int) as u16);
                            }
                            self.emit(Opcode::SetGlobal, operands);
                            Ok(())
                        }
                    },
                    Err(err) => Err(err),
                }
            },
            Statement::Return(rs) => {
                let res = self.compile_expression(&rs.return_value);
                match res {
                    Ok(()) => {
                        self.emit(Opcode::ReturnValue, Vec::new());
                        Ok(())
                    },
                    Err(err) => Err(err),
                }
            },
        }
    }
}

/// The opcode a binary operator token compiles to, or `None` for a token
/// that is no infix operator. `<` and `<=` never reach this table: they
/// are compiled by the operand-swap rule.
pub open spec fn c_infix_opcode(token: Token) -> Option<Opcode> {
    match token {
        Token::Plus => Some(Opcode::Add),
        Token::Minus => Some(Opcode::Sub),
        Token::Asterisk => Some(Opcode::Mul),
        Token::Slash => Some(Opcode::Div),
        Token::GT => Some(Opcode::GreaterThan),
        Token::GTE => Some(Opcode::GreaterEqualThan),
        Token::Equal => Some(Opcode::Equal),
        Token::NotEqual => Some(Opcode::NotEqual),
        Token::Or => Some(Opcode::Or),
        Token::And => Some(Opcode::And),
        _ => None,
    }
}

/// Compiling a literal: integers and strings enter the constant pool and
/// load by index; booleans are dedicated opcodes and never enter the pool.
pub open spec fn c_primitive(p: Primitive, m: CompilerModel) -> Result<CompilerModel, CErr> {
    match p {
        Primitive::IntegerLiteral(i) => {
            let m1 = c_add_constant(m, ObjV::Int(i));
            if m.constants.len() > 0xffff {
                Err(CErr::ConstantIndexOutOfRange)
            } else {
                Ok(c_emit(m1, Opcode::Constant, seq![m.constants.len() as u16]))
            }
        },
        Primitive::BooleanLiteral(b) => if b {
            Ok(c_emit(m, Opcode::True, Seq::empty()))
        } else {
            Ok(c_emit(m, Opcode::False, Seq::empty()))
        },
        Primitive::StringLiteral(s) => {
            let m1 = c_add_constant(m, ObjV::Str(s@));
            if m.constants.len() > 0xffff {
                Err(CErr::ConstantIndexOutOfRange)
            } else {
                Ok(c_emit(m1, Opcode::Constant, seq![m.constants.len() as u16]))
            }
        },
    }
}

/// Compiling one expression: the model the compiler is proved against.
pub open spec fn c_expr(e: Expression, m: CompilerModel) -> Result<CompilerModel, CErr>
    decreases e,
{
    match e {
        Expression::Infix(infix) => if infix.token == Token::LT || infix.token == Token::LTE {
            c_lt_lte(infix, m)
        } else {
            match c_expr(*infix.left, m) {
                Ok(m1) => match c_expr(*infix.right, m1) {
                    Ok(m2) => match c_infix_opcode(infix.token) {
                        Some(op) => Ok(c_emit(m2, op, Seq::empty())),
                        None => Err(CErr::UnknownInfixOperator(infix.token)),
                    },
                    Err(err) => Err(err),
                },
                Err(err) => Err(err),
            }
        },
        Expression::Prefix(prefix) => match c_expr(*prefix.right, m) {
            Ok(m1) => match prefix.token {
                Token::Bang => Ok(c_emit(m1, Opcode::Bang, Seq::empty())),
                Token::Minus => Ok(c_emit(m1, Opcode::Minus, Seq::empty())),
                t => Err(CErr::UnknownPrefixOperator(t)),
            },
            Err(err) => Err(err),
        },
        Expression::Primitive(p) => c_primitive(p, m),
        Expression::Conditional(conditional) => c_cond(conditional, m),
        Expression::Identifier(ident) => match resolve_model(m.symbols, ident.value@) {
            Some((_, idx)) => if !(0 <= idx <= 0xffff) {
                Err(CErr::GlobalIndexOutOfRange)
            } else {
                Ok(c_emit(m, Opcode::GetGlobal, seq![idx as u16]))
            },
            None => Err(CErr::UndefinedVariable(ident.value@)),
        },
        Expression::ArrayLiteral(array) => if array.elements@.len() > 0xffff {
            Err(CErr::ArrayTooLong)
        } else {
            match c_exprs(array.elements@, m) {
                Ok(m1) => Ok(
                    c_emit(m1, Opcode::Array, seq![array.elements@.len() as u16]),
                ),
                Err(err) => Err(err),
            }
        },
        Expression::HashMapLiteral(hashmap) => if hashmap.pairs@.len() > 0x7fff {
            Err(CErr::HashMapTooLong)
        } else {
            match c_pairs(hashmap.pairs@, m) {
                Ok(m1) => Ok(
                    c_emit(m1, Opcode::Hash, seq![(hashmap.pairs@.len() * 2) as u16]),
                ),
                Err(err) => Err(err),
            }
        },
        Expression::IndexExpression(index) => match c_expr(*index.left, m) {
            Ok(m1) => match c_expr(*index.index, m1) {
                Ok(m2) => Ok(c_emit(m2, Opcode::Index, Seq::empty())),
                Err(err) => Err(err),
            },
            Err(err) => Err(err),
        },
        Expression::FunctionLiteral(fun) => match c_block(fun.body, c_enter_scope(m)) {
            Ok(m2) => {
                let m3 = if c_last_is(m2, Opcode::Pop) {
                    c_replace_last_pop_with_return(m2)
                } else {
                    m2
                };
                let harvested = cur_scope(m3).code;
                let m4 = c_leave_scope(m3);
                let m5 = c_add_constant(m4, ObjV::Fun(harvested));
                if m4.constants.len() > 0xffff {
                    Err(CErr::ConstantIndexOutOfRange)
                } else {
                    Ok(c_emit(m5, Opcode::Constant, seq![m4.constants.len() as u16]))
                }
            },
            Err(err) => Err(err),
        },
        Expression::FunctionCall(call) => match c_expr(*call.function, m) {
            Ok(m1) => Ok(c_emit(m1, Opcode::Call, Seq::empty())),
            Err(err) => Err(err),
        },
    }
}

/// `<` and `<=` compile by evaluating the right operand first, then the
/// left, then emitting greater-than / greater-or-equal: a deliberate
/// operand-order inversion that reuses two comparison opcodes.
pub open spec fn c_lt_lte(infix: InfixOperator, m: CompilerModel) -> Result<CompilerModel, CErr>
    decreases infix,
{
    match c_expr(*infix.right, m) {
        Ok(m1) => match c_expr(*infix.left, m1) {
            Ok(m2) => match infix.token {
                Token::LT => Ok(c_emit(m2, Opcode::GreaterThan, Seq::empty())),
                Token::LTE => Ok(c_emit(m2, Opcode::GreaterEqualThan, Seq::empty())),
                t => Err(CErr::UnknownInfixOperator(t)),
            },
            Err(err) => Err(err),
        },
        Err(err) => Err(err),
    }
}

/// Compiling a conditional: the condition, a jump-if-not-truthy with a
/// placeholder target, the consequence (with a trailing pop removed so the
/// arm's value stays on the stack), an unconditional jump over the
/// alternative (or over a push-null when there is none), then both
/// placeholder targets patched in place.
pub open spec fn c_cond(conditional: Conditional, m: CompilerModel) -> Result<CompilerModel, CErr>
    decreases conditional,
{
    match c_expr(*conditional.condition, m) {
        Ok(m1) => {
            let jnt_pos = c_emit_pos(m1);
            let m2 = c_emit(m1, Opcode::JumpNotTruthy, seq![9999u16]);
            match c_block(conditional.consequence, m2) {
                Ok(m3) => {
                    let m4 = if c_last_is(m3, Opcode::Pop) {
                        c_remove_last(m3)
                    } else {
                        m3
                    };
                    let jump_pos = c_emit_pos(m4);
                    let m5 = c_emit(m4, Opcode::Jump, seq![9999u16]);
                    let after_consequence = cur_scope(m5).code.len() as int;
                    if after_consequence > 0xffff {
                        Err(CErr::JumpOutOfRange)
                    } else {
                        match c_change_operand(m5, jnt_pos, after_consequence as u16) {
                            Ok(m6) => {
                                let m7r = match conditional.alternative {
                                    Some(alternative) => match c_block(alternative, m6) {
                                        Ok(ma) => Ok(
                                            if c_last_is(ma, Opcode::Pop) {
                                                c_remove_last(ma)
                                            } else {
                                                ma
                                            },
                                        ),
                                        Err(err) => Err(err),
                                    },
                                    None => Ok(c_emit(m6, Opcode::Null, Seq::empty())),
                                };
                                match m7r {
                                    Ok(m7) => {
                                        let after_alternative = cur_scope(m7).code.len() as int;
                                        if after_alternative > 0xffff {
                                            Err(CErr::JumpOutOfRange)
                                        } else {
                                            c_change_operand(
                                                m7,
                                                jump_pos,
                                                after_alternative as u16,
                                            )
                                        }
                                    },
                                    Err(err) => Err(err),
                                }
                            },
                            Err(err) => Err(err),
                        }
                    }
                },
                Err(err) => Err(err),
            }
        },
        Err(err) => Err(err),
    }
}

/// Compiling a sequence of expressions in source order.
pub open spec fn c_exprs(es: Seq<Expression>, m: CompilerModel) -> Result<CompilerModel, CErr>
    decreases es,
{
    if es.len() == 0 {
        Ok(m)
    } else {
        match c_expr(es.first(), m) {
            Ok(m1) => c_exprs(es.drop_first(), m1),
            Err(err) => Err(err),
        }
    }
}

/// Compiling a sequence of key-value pairs: each key then its value, in
/// source order.
pub open spec fn c_pairs(
    ps: Seq<(Expression, Expression)>,
    m: CompilerModel,
) -> Result<CompilerModel, CErr>
    decreases ps,
{
    if ps.len() == 0 {
        Ok(m)
    } else {
        match c_expr(ps.first().0, m) {
            Ok(m1) => match c_expr(ps.first().1, m1) {
                Ok(m2) => c_pairs(ps.drop_first(), m2),
                Err(err) => Err(err),
            },
            Err(err) => Err(err),
        }
    }
}

/// Compiling one statement.
pub open spec fn c_stmt(s: Statement, m: CompilerModel) -> Result<CompilerModel, CErr>
    decreases s,
{
    match s {
        Statement::Expression(e) => match c_expr(e, m) {
            Ok(m1) => Ok(c_emit(m1, Opcode::Pop, Seq::empty())),
            Err(err) => Err(err),
        },
        Statement::Let(ls) => match c_expr(ls.value, m) {
            Ok(m1) => {
                let idx = m1.symbols.len() as int;
                let m2 = CompilerModel {
                    scopes: m1.scopes,
                    constants: m1.constants,
                    symbols: m1.symbols.push((ls.name@, idx)),
                };
                if idx > 0xffff {
                    Err(CErr::GlobalIndexOutOfRange)
                } else {
                    Ok(c_emit(m2, Opcode::SetGlobal, seq![idx as u16]))
                }
            },
            Err(err) => Err(err),
        },
        Statement::Return(rs) => match c_expr(rs.return_value, m) {
            Ok(m1) => Ok(c_emit(m1, Opcode::ReturnValue, Seq::empty())),
            Err(err) => Err(err),
        },
    }
}

/// Compiling a statement sequence, stopping at the first error.
pub open spec fn c_stmts(ss: Seq<Statement>, m: CompilerModel) -> Result<CompilerModel, CErr>
    decreases ss,
{
    if ss.len() == 0 {
        Ok(m)
    } else {
        match c_stmt(ss.first(), m) {
            Ok(m1) => c_stmts(ss.drop_first(), m1),
            Err(err) => Err(err),
        }
    }
}

/// Compiling a block: its statements in order.
pub open spec fn c_block(b: BlockStatement, m: CompilerModel) -> Result<CompilerModel, CErr>
    decreases b,
{
    c_stmts(b.statements@, m)
}

/// Compiling a whole program: its top-level statements in order.
pub open spec fn c_program(p: Program, m: CompilerModel) -> Result<CompilerModel, CErr> {
    c_stmts(p.statements@, m)
}

/// The operand-swap rule changes nothing observable: compiling
/// `left < right` produces exactly the compiler state that compiling
/// `right > left` produces, byte for byte and constant for constant, so
/// the two evaluate to the same result on any machine run.
pub proof fn lemma_lt_compiles_as_swapped_gt(infix: InfixOperator, m: CompilerModel)
    requires
        infix.token == Token::LT,
    ensures
        c_expr(Expression::Infix(infix), m) == c_expr(
            Expression::Infix(
                InfixOperator { token: Token::GT, left: infix.right, right: infix.left },
            ),
            m,
        ),
{
    let swapped = InfixOperator { token: Token::GT, left: infix.right, right: infix.left };
    assert(c_expr(Expression::Infix(infix), m) == c_lt_lte(infix, m));
    match c_expr(*infix.right, m) {
        Ok(m1) => {
            match c_expr(*infix.left, m1) {
                Ok(m2) => {
                    assert(c_lt_lte(infix, m) == Ok::<CompilerModel, CErr>(
                        c_emit(m2, Opcode::GreaterThan, Seq::empty()),
                    ));
                    assert(c_expr(Expression::Infix(swapped), m) == Ok::<CompilerModel, CErr>(
                        c_emit(m2, Opcode::GreaterThan, Seq::empty()),
                    ));
                },
                Err(_) => {},
            }
        },
        Err(_) => {},
    }
}

/// The `<=` counterpart of the operand-swap rule: compiling
/// `left <= right` produces exactly the compiler state of compiling
/// `right >= left`.
pub proof fn lemma_lte_compiles_as_swapped_gte(infix: InfixOperator, m: CompilerModel)
    requires
        infix.token == Token::LTE,
    ensures
        c_expr(Expression::Infix(infix), m) == c_expr(
            Expression::Infix(
                InfixOperator { token: Token::GTE, left: infix.right, right: infix.left },
            ),
            m,
        ),
{
    let swapped = InfixOperator { token: Token::GTE, left: infix.right, right: infix.left };
    assert(c_expr(Expression::Infix(infix), m) == c_lt_lte(infix, m));
    match c_expr(*infix.right, m) {
        Ok(m1) => {
            match c_expr(*infix.left, m1) {
                Ok(m2) => {
                    assert(c_lt_lte(infix, m) == Ok::<CompilerModel, CErr>(
                        c_emit(m2, Opcode::GreaterEqualThan, Seq::empty()),
                    ));
                    assert(c_expr(Expression::Infix(swapped), m) == Ok::<CompilerModel, CErr>(
                        c_emit(m2, Opcode::GreaterEqualThan, Seq::empty()),
                    ));
                },
                Err(_) => {},
            }
        },
        Err(_) => {},
    }
}

/// Emitting a pure stack-effect opcode appends exactly its one byte to
/// the current scope: no operand, and in particular no jump.
pub proof fn lemma_emit_single_opcode(m: CompilerModel, op: Opcode)
    requires
        !opcode_has_operand(op),
        m.scopes.len() >= 1,
    ensures
        cur_scope(c_emit(m, op, Seq::empty())).code == cur_scope(m).code + seq![
            opcode_value(op),
        ],
{
    assert(make_spec(op, Seq::empty()) =~= seq![opcode_value(op)]);
}

/// Logical and/or are deliberately not short-circuited: an `&&` or `||`
/// expression compiles to the left operand's code, then the right
/// operand's code, then the lone And/Or opcode — no jump is emitted
/// around the right operand (`lemma_emit_single_opcode`: that final emit
/// appends exactly one byte), so the machine always evaluates both
/// operands before the opcode runs.
pub proof fn lemma_logical_operators_not_short_circuited(infix: InfixOperator, m: CompilerModel)
    requires
        infix.token == Token::And || infix.token == Token::Or,
    ensures
        c_expr(Expression::Infix(infix), m) == (match c_expr(*infix.left, m) {
            Ok(m1) => match c_expr(*infix.right, m1) {
                Ok(m2) => Ok(
                    c_emit(
                        m2,
                        if infix.token == Token::And {
                            Opcode::And
                        } else {
                            Opcode::Or
                        },
                        Seq::empty(),
                    ),
                ),
                Err(err) => Err(err),
            },
            Err(err) => Err(err),
        }),
{
    let op = if infix.token == Token::And { Opcode::And } else { Opcode::Or };
    match c_expr(*infix.left, m) {
        Ok(m1) => {
            match c_expr(*infix.right, m1) {
                Ok(m2) => {
                    assert(c_infix_opcode(infix.token) == Some(op));
                    assert(c_expr(Expression::Infix(infix), m) == Ok::<CompilerModel, CErr>(
                        c_emit(m2, op, Seq::empty()),
                    ));
                },
                Err(_) => {},
            }
        },
        Err(_) => {},
    }
}

/// The finished compiler output: the top-level instruction stream and the
/// full constant pool, ready for execution.
pub struct Bytecode {
    pub instructions: Instructions,
    pub constants: Vec<Object>,
}

impl Bytecode {
    fn new(instructions: Instructions, constants: Vec<Object>) -> (r: Self)
        ensures
            r.instructions@ == instructions@,
            r.constants@ == constants@,
    {
        Bytecode { instructions, constants }
    }
}

} // verus!
