//! The instruction encoding: the opcode set, the binary layout of each
//! instruction (one opcode byte, then zero or one big-endian two-byte
//! operand), and the encode / decode / in-place patch primitives.

use vstd::prelude::*;

verus! {

/// One virtual-machine operation, encoded as a single byte.
#[derive(Clone, Copy, PartialEq, Eq, Structural, Debug)]
pub enum Opcode {
    Constant,
    Pop,
    Add,
    Sub,
    Mul,
    Div,
    True,
    False,
    Equal,
    NotEqual,
    GreaterThan,
    GreaterEqualThan,
    And,
    Or,
    Minus,
    Bang,
    JumpNotTruthy,
    Jump,
    Null,
    GetGlobal,
    SetGlobal,
    Array,
    Hash,
    Index,
    Call,
    ReturnValue,
}

/// The byte that encodes each opcode.
pub open spec fn opcode_value(op: Opcode) -> u8 {
    match op {
        Opcode::Constant => 0,
        Opcode::Pop => 1,
        Opcode::Add => 2,
        Opcode::Sub => 3,
        Opcode::Mul => 4,
        Opcode::Div => 5,
        Opcode::True => 6,
        Opcode::False => 7,
        Opcode::Equal => 8,
        Opcode::NotEqual => 9,
        Opcode::GreaterThan => 10,
        Opcode::GreaterEqualThan => 11,
        Opcode::And => 12,
        Opcode::Or => 13,
        Opcode::Minus => 14,
        Opcode::Bang => 15,
        Opcode::JumpNotTruthy => 16,
        Opcode::Jump => 17,
        Opcode::Null => 18,
        Opcode::GetGlobal => 19,
        Opcode::SetGlobal => 20,
        Opcode::Array => 21,
        Opcode::Hash => 22,
        Opcode::Index => 23,
        Opcode::Call => 24,
        Opcode::ReturnValue => 25,
    }
}

/// The opcode a byte decodes to, or `None` for an unrecognized byte.
pub open spec fn opcode_of_byte(b: u8) -> Option<Opcode> {
    if b == 0 { Some(Opcode::Constant) }
    else if b == 1 { Some(Opcode::Pop) }
    else if b == 2 { Some(Opcode::Add) }
    else if b == 3 { Some(Opcode::Sub) }
    else if b == 4 { Some(Opcode::Mul) }
    else if b == 5 { Some(Opcode::Div) }
    else if b == 6 { Some(Opcode::True) }
    else if b == 7 { Some(Opcode::False) }
    else if b == 8 { Some(Opcode::Equal) }
    else if b == 9 { Some(Opcode::NotEqual) }
    else if b == 10 { Some(Opcode::GreaterThan) }
    else if b == 11 { Some(Opcode::GreaterEqualThan) }
    else if b == 12 { Some(Opcode::And) }
    else if b == 13 { Some(Opcode::Or) }
    else if b == 14 { Some(Opcode::Minus) }
    else if b == 15 { Some(Opcode::Bang) }
    else if b == 16 { Some(Opcode::JumpNotTruthy) }
    else if b == 17 { Some(Opcode::Jump) }
    else if b == 18 { Some(Opcode::Null) }
    else if b == 19 { Some(Opcode::GetGlobal) }
    else if b == 20 { Some(Opcode::SetGlobal) }
    else if b == 21 { Some(Opcode::Array) }
    else if b == 22 { Some(Opcode::Hash) }
    else if b == 23 { Some(Opcode::Index) }
    else if b == 24 { Some(Opcode::Call) }
    else if b == 25 { Some(Opcode::ReturnValue) }
    else { None }
}

/// Decoding the byte an opcode encodes to returns that opcode: the two
/// tables agree.
pub proof fn lemma_opcode_byte_roundtrip(op: Opcode)
    ensures
        opcode_of_byte(opcode_value(op)) == Some(op),
{
}

/// Whether the opcode carries a (single, two-byte) operand; all other
/// opcodes are pure stack effects.
pub open spec fn opcode_has_operand(op: Opcode) -> bool {
    match op {
        Opcode::Constant
        | Opcode::JumpNotTruthy
        | Opcode::Jump
        | Opcode::GetGlobal
        | Opcode::SetGlobal
        | Opcode::Array
        | Opcode::Hash => true,
        _ => false,
    }
}

/// How many operands the opcode's signature declares (zero or one).
pub open spec fn opcode_operand_count(op: Opcode) -> nat {
    if opcode_has_operand(op) { 1nat } else { 0nat }
}

/// The total encoded length of one instruction of this opcode.
pub open spec fn instruction_len(op: Opcode) -> int {
    1 + 2 * (opcode_operand_count(op) as int)
}

/// High byte of a big-endian two-byte operand.
pub open spec fn be_hi(v: u16) -> u8 {
    (v / 256) as u8
}

/// Low byte of a big-endian two-byte operand.
pub open spec fn be_lo(v: u16) -> u8 {
    (v % 256) as u8
}

/// The operand value a big-endian byte pair decodes to.
pub open spec fn be_u16(hi: u8, lo: u8) -> u16 {
    ((hi as int) * 256 + (lo as int)) as u16
}

/// Splitting an operand into its big-endian bytes and reading it back is
/// the identity.
pub proof fn lemma_be_u16_roundtrip(v: u16)
    ensures
        be_u16(be_hi(v), be_lo(v)) == v,
{
    assert((v as int) / 256 * 256 + (v as int) % 256 == v as int) by (nonlinear_arith);
}

/// The byte sequence that encodes one instruction: the opcode byte, then
/// each declared operand in big-endian order.
pub open spec fn make_spec(op: Opcode, operands: Seq<u16>) -> Seq<u8> {
    if opcode_has_operand(op) {
        seq![opcode_value(op), be_hi(operands[0]), be_lo(operands[0])]
    } else {
        seq![opcode_value(op)]
    }
}

/// An ordered instruction stream: a flat byte buffer.
pub struct Instructions {
    pub data: Vec<u8>,
}

impl View for Instructions {
    type V = Seq<u8>;

    open spec fn view(&self) -> Seq<u8> {
        self.data@
    }
}

impl Default for Instructions {
    fn default() -> (r: Self)
        ensures
            r@ == Seq::<u8>::empty(),
    {
        Instructions { data: Vec::new() }
    }
}

impl Instructions {
    pub fn new(data: Vec<u8>) -> (r: Self)
        ensures
            r@ == data@,
    {
        Instructions { data }
    }

    /// Appends another stream's bytes after this one's.
    pub fn append(&mut self, other: Instructions)
        ensures
            final(self)@ == old(self)@ + other@,
    {
        let mut tail = other;
        self.data.append(&mut tail.data);
    }
}

impl Opcode {
    /// The byte this opcode is encoded as.
    pub fn to_byte(self) -> (r: u8)
        ensures
            r == opcode_value(self),
    {
        match self {
            Opcode::Constant => 0,
            Opcode::Pop => 1,
            Opcode::Add => 2,
            Opcode::Sub => 3,
            Opcode::Mul => 4,
            Opcode::Div => 5,
            Opcode::True => 6,
            Opcode::False => 7,
            Opcode::Equal => 8,
            Opcode::NotEqual => 9,
            Opcode::GreaterThan => 10,
            Opcode::GreaterEqualThan => 11,
            Opcode::And => 12,
            Opcode::Or => 13,
            Opcode::Minus => 14,
            Opcode::Bang => 15,
            Opcode::JumpNotTruthy => 16,
            Opcode::Jump => 17,
            Opcode::Null => 18,
            Opcode::GetGlobal => 19,
            Opcode::SetGlobal => 20,
            Opcode::Array => 21,
            Opcode::Hash => 22,
            Opcode::Index => 23,
            Opcode::Call => 24,
            Opcode::ReturnValue => 25,
        }
    }

    /// Decodes one opcode byte; an unrecognized byte yields `None`
    /// (stream corruption).
    pub fn from_byte(b: u8) -> (r: Option<Opcode>)
        ensures
            r == opcode_of_byte(b),
    {
        if b == 0 { Some(Opcode::Constant) }
        else if b == 1 { Some(Opcode::Pop) }
        else if b == 2 { Some(Opcode::Add) }
        else if b == 3 { Some(Opcode::Sub) }
        else if b == 4 { Some(Opcode::Mul) }
        else if b == 5 { Some(Opcode::Div) }
        else if b == 6 { Some(Opcode::True) }
        else if b == 7 { Some(Opcode::False) }
        else if b == 8 { Some(Opcode::Equal) }
        else if b == 9 { Some(Opcode::NotEqual) }
        else if b == 10 { Some(Opcode::GreaterThan) }
        else if b == 11 { Some(Opcode::GreaterEqualThan) }
        else if b == 12 { Some(Opcode::And) }
        else if b == 13 { Some(Opcode::Or) }
        else if b == 14 { Some(Opcode::Minus) }
        else if b == 15 { Some(Opcode::Bang) }
        else if b == 16 { Some(Opcode::JumpNotTruthy) }
        else if b == 17 { Some(Opcode::Jump) }
        else if b == 18 { Some(Opcode::Null) }
        else if b == 19 { Some(Opcode::GetGlobal) }
        else if b == 20 { Some(Opcode::SetGlobal) }
        else if b == 21 { Some(Opcode::Array) }
        else if b == 22 { Some(Opcode::Hash) }
        else if b == 23 { Some(Opcode::Index) }
        else if b == 24 { Some(Opcode::Call) }
        else if b == 25 { Some(Opcode::ReturnValue) }
        else { None }
    }

    /// How many operands this opcode takes.
    pub fn operand_count(self) -> (r: usize)
        ensures
            r == opcode_operand_count(self),
    {
        if self.has_operand() { 1 } else { 0 }
    }

    /// Whether this opcode carries a two-byte operand.
    pub fn has_operand(self) -> (r: bool)
        ensures
            r == opcode_has_operand(self),
    {
        match self {
            Opcode::Constant
            | Opcode::JumpNotTruthy
            | Opcode::Jump
            | Opcode::GetGlobal
            | Opcode::SetGlobal
            | Opcode::Array
            | Opcode::Hash => true,
            _ => false,
        }
    }

    /// Encodes one instruction: this opcode followed by the given operands,
    /// each serialized big-endian. The operand count must match the
    /// opcode's declared signature.
    pub fn make(self, operands: Vec<u16>) -> (r: Instructions)
        requires
            operands@.len() == opcode_operand_count(self),
        ensures
            r@ == make_spec(self, operands@),
    {
        let mut data: Vec<u8> = Vec::new();
        data.push(self.to_byte());
        if self.has_operand() {
            let v: u16 = operands[0];
            data.push((v / 256) as u8);
            data.push((v % 256) as u8);
        }
        proof {
            assert(data@ =~= make_spec(self, operands@));
        }
        Instructions { data }
    }
}

/// Reads the big-endian two-byte operand stored at `pos`.
pub fn read_u16(data: &Vec<u8>, pos: usize) -> (r: u16)
    requires
        pos + 2 <= data@.len(),
    ensures
        r == be_u16(data@[pos as int], data@[pos as int + 1]),
{
    let n: usize = data.len();
    let hi = data[pos];
    let lo = data[pos + 1];
    (hi as u16) * 256 + (lo as u16)
}

/// The stream after overwriting, in place, the operand of the instruction
/// that starts at `pos` with `v`. Only the two operand bytes change; in
/// particular the stream's length never does.
pub open spec fn patch_spec(data: Seq<u8>, pos: int, v: u16) -> Seq<u8> {
    data.update(pos + 1, be_hi(v)).update(pos + 2, be_lo(v))
}

/// The buffer with `bytes` overwritten in place starting at `pos`; the
/// length never changes.
pub open spec fn overwrite(code: Seq<u8>, pos: int, bytes: Seq<u8>) -> Seq<u8> {
    Seq::new(
        code.len(),
        |i: int| if pos <= i < pos + bytes.len() { bytes[i - pos] } else { code[i] },
    )
}

/// Overwrites `bytes` in place starting at `pos`: an index-addressed
/// overwrite, never a splice or insert, so every other byte and the
/// buffer's length stay as they were.
pub fn splice(data: &mut Vec<u8>, pos: usize, bytes: &Vec<u8>)
    requires
        pos + bytes@.len() <= old(data)@.len(),
    ensures
        final(data)@ == overwrite(old(data)@, pos as int, bytes@),
{
    let cap: usize = data.len();
    let n: usize = bytes.len();
    let mut i: usize = 0;
    while i < n
        invariant
            i <= n,
            n == bytes@.len(),
            cap as int == old(data)@.len(),
            pos + n <= cap,
            data@.len() == old(data)@.len(),
            forall|k: int|
                0 <= k < data@.len() ==> data@[k] == (if pos as int <= k < pos as int + i as int {
                    bytes@[k - pos as int]
                } else {
                    old(data)@[k]
                }),
        decreases n - i,
    {
        let b = bytes[i];
        data[pos + i] = b;
        i = i + 1;
    }
    proof {
        assert(data@ =~= overwrite(old(data)@, pos as int, bytes@));
    }
}

/// Patching an operand then decoding at the same position returns exactly
/// the patched value; the opcode byte, every byte outside the operand, and
/// the stream's length are unchanged.
pub proof fn lemma_patch_operand_roundtrip(data: Seq<u8>, pos: int, v: u16)
    requires
        0 <= pos,
        pos + 3 <= data.len(),
    ensures
        patch_spec(data, pos, v).len() == data.len(),
        patch_spec(data, pos, v)[pos] == data[pos],
        opcode_of_byte(patch_spec(data, pos, v)[pos]) == opcode_of_byte(data[pos]),
        be_u16(patch_spec(data, pos, v)[pos + 1], patch_spec(data, pos, v)[pos + 2]) == v,
        forall|i: int|
            0 <= i < data.len() && i != pos + 1 && i != pos + 2 ==> patch_spec(
                data,
                pos,
                v,
            )[i] == data[i],
{
    lemma_be_u16_roundtrip(v);
}

} // verus!
