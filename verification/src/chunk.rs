//! The compiled artifact: a byte stream of instructions, a constant pool,
//! and a line table parallel to the byte stream.

use vstd::prelude::*;
use vstd::string::StrSliceExecFns;
use vstd::string::StringExecFns;

use crate::text::usize_to_string;

verus! {

/// One instruction kind of the virtual machine.
#[derive(Debug, Clone, Copy, PartialEq, Eq, Structural)]
pub enum OpCode {
    Return,
    Constant,
    Negate,
    Add,
    Subtract,
    Divide,
    Multiply,
    True,
    False,
    Nil,
    Not,
    Equal,
    Greater,
    Less,
    Print,
    Pop,
    DefineGlobal,
    GetGlobal,
    SetGlobal,
}

impl OpCode {
    /// The encoding of each opcode as one byte.
    pub open spec fn byte(self) -> u8 {
        match self {
            OpCode::Return => 0,
            OpCode::Constant => 1,
            OpCode::Negate => 2,
            OpCode::Add => 3,
            OpCode::Subtract => 4,
            OpCode::Divide => 5,
            OpCode::Multiply => 6,
            OpCode::True => 7,
            OpCode::False => 8,
            OpCode::Nil => 9,
            OpCode::Not => 10,
            OpCode::Equal => 11,
            OpCode::Greater => 12,
            OpCode::Less => 13,
            OpCode::Print => 14,
            OpCode::Pop => 15,
            OpCode::DefineGlobal => 16,
            OpCode::GetGlobal => 17,
            OpCode::SetGlobal => 18,
        }
    }

    /// The decoding of a byte; bytes above the last opcode decode to nothing.
    pub open spec fn spec_from_byte(b: u8) -> Option<OpCode> {
        if b == 0 {
            Some(OpCode::Return)
        } else if b == 1 {
            Some(OpCode::Constant)
        } else if b == 2 {
            Some(OpCode::Negate)
        } else if b == 3 {
            Some(OpCode::Add)
        } else if b == 4 {
            Some(OpCode::Subtract)
        } else if b == 5 {
            Some(OpCode::Divide)
        } else if b == 6 {
            Some(OpCode::Multiply)
        } else if b == 7 {
            Some(OpCode::True)
        } else if b == 8 {
            Some(OpCode::False)
        } else if b == 9 {
            Some(OpCode::Nil)
        } else if b == 10 {
            Some(OpCode::Not)
        } else if b == 11 {
            Some(OpCode::Equal)
        } else if b == 12 {
            Some(OpCode::Greater)
        } else if b == 13 {
            Some(OpCode::Less)
        } else if b == 14 {
            Some(OpCode::Print)
        } else if b == 15 {
            Some(OpCode::Pop)
        } else if b == 16 {
            Some(OpCode::DefineGlobal)
        } else if b == 17 {
            Some(OpCode::GetGlobal)
        } else if b == 18 {
            Some(OpCode::SetGlobal)
        } else {
            None
        }
    }

    pub fn to_byte(self) -> (b: u8)
        ensures
            b == self.byte(),
            Self::spec_from_byte(b) == Some(self),
    {
        match self {
            OpCode::Return => 0,
            OpCode::Constant => 1,
            OpCode::Negate => 2,
            OpCode::Add => 3,
            OpCode::Subtract => 4,
            OpCode::Divide => 5,
            OpCode::Multiply => 6,
            OpCode::True => 7,
            OpCode::False => 8,
            OpCode::Nil => 9,
            OpCode::Not => 10,
            OpCode::Equal => 11,
            OpCode::Greater => 12,
            OpCode::Less => 13,
            OpCode::Print => 14,
            OpCode::Pop => 15,
            OpCode::DefineGlobal => 16,
            OpCode::GetGlobal => 17,
            OpCode::SetGlobal => 18,
        }
    }

    pub fn from_byte(b: u8) -> (r: Option<OpCode>)
        ensures
            r == Self::spec_from_byte(b),
    {
        match b {
            0 => Some(OpCode::Return),
            1 => Some(OpCode::Constant),
            2 => Some(OpCode::Negate),
            3 => Some(OpCode::Add),
            4 => Some(OpCode::Subtract),
            5 => Some(OpCode::Divide),
            6 => Some(OpCode::Multiply),
            7 => Some(OpCode::True),
            8 => Some(OpCode::False),
            9 => Some(OpCode::Nil),
            10 => Some(OpCode::Not),
            11 => Some(OpCode::Equal),
            12 => Some(OpCode::Greater),
            13 => Some(OpCode::Less),
            14 => Some(OpCode::Print),
            15 => Some(OpCode::Pop),
            16 => Some(OpCode::DefineGlobal),
            17 => Some(OpCode::GetGlobal),
            18 => Some(OpCode::SetGlobal),
            _ => None,
        }
    }

    /// Whether the opcode is followed by a one-byte operand, an index into
    /// the constant pool.
    pub open spec fn spec_has_operand(self) -> bool {
        self == OpCode::Constant || self == OpCode::DefineGlobal || self == OpCode::GetGlobal
            || self == OpCode::SetGlobal
    }

    pub fn has_operand(self) -> (r: bool)
        ensures
            r == self.spec_has_operand(),
    {
        match self {
            OpCode::Constant | OpCode::DefineGlobal | OpCode::GetGlobal | OpCode::SetGlobal => true,
            _ => false,
        }
    }

    /// Width of the instruction in bytes: the opcode plus its operand.
    pub open spec fn size(self) -> int {
        if self.spec_has_operand() {
            2
        } else {
            1
        }
    }
}

/// The mathematical shape of a [`Literal`].
pub ghost enum LiteralV {
    Number(Seq<char>),
    Str(Seq<char>),
}

/// A constant-pool entry. A number literal is kept as its decimal source
/// text: its bit pattern is produced outside the library, by the numeric
/// helper the virtual machine is run with, which parses the text each
/// time the `Constant` instruction executes — observably the same as
/// parsing once, since the text never changes. A string entry holds a
/// string literal's content or the name of a variable.
#[derive(Debug)]
pub enum Literal {
    Number(String),
    Str(String),
}

impl View for Literal {
    type V = LiteralV;

    open spec fn view(&self) -> LiteralV {
        match self {
            Literal::Number(s) => LiteralV::Number(s@),
            Literal::Str(s) => LiteralV::Str(s@),
        }
    }
}

/// Structural well-formedness of a byte stream, read from position `i`:
/// it is a concatenation of (opcode, operand?) pairs that ends exactly at
/// the end, and every operand byte is a valid index into a pool of
/// `nconst` constants.
pub open spec fn wf_code_from(code: Seq<u8>, nconst: nat, i: int) -> bool
    decreases code.len() - i,
{
    if i >= code.len() {
        i == code.len()
    } else if i < 0 {
        false
    } else {
        match OpCode::spec_from_byte(code[i]) {
            Some(op) => if op.spec_has_operand() {
                i + 1 < code.len() && (code[i + 1] as nat) < nconst && wf_code_from(
                    code,
                    nconst,
                    i + 2,
                )
            } else {
                wf_code_from(code, nconst, i + 1)
            },
            None => false,
        }
    }
}

/// Whether a `Print` instruction occurs in the stream decoded from
/// position `i` on.
pub open spec fn has_print_from(code: Seq<u8>, i: int) -> bool
    decreases code.len() - i,
{
    if i < 0 || i >= code.len() {
        false
    } else {
        match OpCode::spec_from_byte(code[i]) {
            Some(op) => op == OpCode::Print || (if op.spec_has_operand() {
                i + 2 <= code.len() && has_print_from(code, i + 2)
            } else {
                has_print_from(code, i + 1)
            }),
            None => false,
        }
    }
}

/// Raising the pool bound keeps a stream well formed.
pub proof fn lemma_wf_code_mono(code: Seq<u8>, n1: nat, n2: nat, i: int)
    requires
        wf_code_from(code, n1, i),
        n1 <= n2,
    ensures
        wf_code_from(code, n2, i),
    decreases code.len() - i,
{
    if i < code.len() {
        match OpCode::spec_from_byte(code[i]) {
            Some(op) => {
                if op.spec_has_operand() {
                    lemma_wf_code_mono(code, n1, n2, i + 2);
                } else {
                    lemma_wf_code_mono(code, n1, n2, i + 1);
                }
            },
            None => {},
        }
    }
}

/// A well-formed stream stays well formed when read after a prefix.
pub proof fn lemma_wf_code_offset(a: Seq<u8>, b: Seq<u8>, n: nat, j: int)
    requires
        0 <= j,
        wf_code_from(b, n, j),
    ensures
        wf_code_from(a + b, n, a.len() + j),
    decreases b.len() - j,
{
    if j < b.len() {
        assert((a + b)[a.len() + j] == b[j]);
        match OpCode::spec_from_byte(b[j]) {
            Some(op) => {
                if op.spec_has_operand() {
                    assert((a + b)[a.len() + j + 1] == b[j + 1]);
                    lemma_wf_code_offset(a, b, n, j + 2);
                } else {
                    lemma_wf_code_offset(a, b, n, j + 1);
                }
            },
            None => {},
        }
    } else {
        assert(j == b.len());
        assert(a.len() + j == (a + b).len());
    }
}

/// Appending a well-formed stream to a well-formed stream gives a
/// well-formed stream.
pub proof fn lemma_wf_code_concat(a: Seq<u8>, b: Seq<u8>, n: nat, i: int)
    requires
        0 <= i,
        wf_code_from(a, n, i),
        wf_code_from(b, n, 0),
    ensures
        wf_code_from(a + b, n, i),
    decreases a.len() - i,
{
    if i >= a.len() {
        lemma_wf_code_offset(a, b, n, 0);
    } else {
        assert((a + b)[i] == a[i]);
        match OpCode::spec_from_byte(a[i]) {
            Some(op) => {
                if op.spec_has_operand() {
                    assert((a + b)[i + 1] == a[i + 1]);
                    lemma_wf_code_concat(a, b, n, i + 2);
                } else {
                    lemma_wf_code_concat(a, b, n, i + 1);
                }
            },
            None => {},
        }
    }
}

/// Reading a stream after a prefix sees the same instructions.
pub proof fn lemma_has_print_offset(a: Seq<u8>, b: Seq<u8>, j: int)
    requires
        0 <= j,
    ensures
        has_print_from(a + b, a.len() + j) == has_print_from(b, j),
    decreases b.len() - j,
{
    if j < b.len() {
        assert((a + b)[a.len() + j] == b[j]);
        match OpCode::spec_from_byte(b[j]) {
            Some(op) => {
                if op == OpCode::Print {
                } else if op.spec_has_operand() {
                    if j + 2 <= b.len() {
                        lemma_has_print_offset(a, b, j + 2);
                    }
                } else {
                    lemma_has_print_offset(a, b, j + 1);
                }
            },
            None => {},
        }
    } else {
        assert(a.len() + j >= (a + b).len());
    }
}

/// Over a well-formed stream, appending more instructions introduces a
/// `Print` exactly when one side holds one.
pub proof fn lemma_has_print_concat(a: Seq<u8>, b: Seq<u8>, n: nat, i: int)
    requires
        0 <= i,
        wf_code_from(a, n, i),
    ensures
        has_print_from(a + b, i) == (has_print_from(a, i) || has_print_from(b, 0)),
    decreases a.len() - i,
{
    if i >= a.len() {
        assert(i == a.len());
        lemma_has_print_offset(a, b, 0);
        assert(!has_print_from(a, i));
    } else {
        assert((a + b)[i] == a[i]);
        match OpCode::spec_from_byte(a[i]) {
            Some(op) => {
                if op.spec_has_operand() {
                    assert((a + b)[i + 1] == a[i + 1]);
                    lemma_has_print_concat(a, b, n, i + 2);
                    assert(i + 2 <= a.len());
                    assert(i + 2 <= (a + b).len());
                } else {
                    lemma_has_print_concat(a, b, n, i + 1);
                }
            },
            None => {},
        }
    }
}

/// How many instructions a listing of the stream from `i` on shows: one
/// per decoded instruction, one per undecodable or truncated byte.
pub open spec fn listing_count(code: Seq<u8>, i: int) -> int
    decreases code.len() - i,
{
    if i < 0 || i >= code.len() {
        0
    } else {
        match OpCode::spec_from_byte(code[i]) {
            None => 1 + listing_count(code, i + 1),
            Some(op) => if op.spec_has_operand() && i + 1 < code.len() {
                1 + listing_count(code, i + 2)
            } else {
                1 + listing_count(code, i + 1)
            },
        }
    }
}

/// The compiled unit: instruction bytes, the constant pool they index,
/// and for each byte the source line it came from.
#[derive(Debug)]
pub struct Chunk {
    pub code: Vec<u8>,
    pub constants: Vec<Literal>,
    pub lines: Vec<usize>,
}

impl Chunk {
    /// The line table is parallel to the byte stream.
    pub open spec fn lines_match(&self) -> bool {
        self.lines@.len() == self.code@.len()
    }

    /// The byte stream is a well-formed instruction stream over this
    /// chunk's own pool.
    pub open spec fn wf_code(&self) -> bool {
        wf_code_from(self.code@, self.constants@.len() as nat, 0)
    }

    pub fn init() -> (c: Chunk)
        ensures
            c.code@ == Seq::<u8>::empty(),
            c.constants@ == Seq::<Literal>::empty(),
            c.lines@ == Seq::<usize>::empty(),
            c.lines_match(),
    {
        Chunk { code: Vec::new(), constants: Vec::new(), lines: Vec::new() }
    }

    /// Appends one byte and its source line, keeping the two columns in
    /// lockstep: the line table grows exactly as the byte stream does.
    pub fn write(&mut self, byte: u8, line: usize)
        ensures
            final(self).code@ == old(self).code@.push(byte),
            final(self).lines@ == old(self).lines@.push(line),
            final(self).constants@ == old(self).constants@,
            old(self).lines_match() ==> final(self).lines_match(),
    {
        self.code.push(byte);
        self.lines.push(line);
    }

    /// Appends a constant and returns its index in the pool.
    pub fn add_constant(&mut self, value: Literal) -> (index: usize)
        ensures
            final(self).constants@ == old(self).constants@.push(value),
            final(self).code@ == old(self).code@,
            final(self).lines@ == old(self).lines@,
            index == old(self).constants@.len(),
    {
        self.constants.push(value);
        self.constants.len() - 1
    }

    /// A plain-text listing of the chunk, one line per instruction, for
    /// debugging. The exact formatting is not contractual.
    pub fn disassemble(&self, name: &str) -> (out: Vec<String>)
        requires
            self.lines_match(),
        ensures
            out@.len() == 1 + listing_count(self.code@, 0),
    {
        let mut out: Vec<String> = Vec::new();
        let mut header = String::from_str("Disassemble ");
        header.append(name);
        out.push(header);

        let mut offset: usize = 0;
        while offset < self.code.len()
            invariant
                self.lines_match(),
                offset <= self.code@.len(),
                out@.len() + listing_count(self.code@, offset as int) == 1 + listing_count(
                    self.code@,
                    0,
                ),
            decreases self.code@.len() - offset,
        {
            let byte = self.code[offset];
            match OpCode::from_byte(byte) {
                None => {
                    let line = display(self, None, offset, usize_to_string(byte as usize).as_str());
                    out.push(line);
                    offset = offset + 1;
                },
                Some(op) => {
                    if op.has_operand() {
                        if offset + 1 < self.code.len() {
                            let index = self.code[offset + 1];
                            let mut data = String::from_str("Index=");
                            data.append(usize_to_string(index as usize).as_str());
                            if (index as usize) < self.constants.len() {
                                data.append(" Value=");
                                match &self.constants[index as usize] {
                                    Literal::Number(s) => data.append(s.as_str()),
                                    Literal::Str(s) => data.append(s.as_str()),
                                }
                            }
                            let line = display(self, Some(&op), offset, data.as_str());
                            out.push(line);
                            offset = offset + 2;
                        } else {
                            let line = display(self, Some(&op), offset, "truncated");
                            out.push(line);
                            offset = offset + 1;
                        }
                    } else {
                        let line = display(self, Some(&op), offset, "");
                        out.push(line);
                        offset = offset + 1;
                    }
                },
            }
        }
        out
    }
}

/// The printed name of an opcode.
pub fn op_name(op: &OpCode) -> (r: &'static str) {
    match op {
        OpCode::Return => "Return",
        OpCode::Constant => "Constant",
        OpCode::Negate => "Negate",
        OpCode::Add => "Add",
        OpCode::Subtract => "Subtract",
        OpCode::Divide => "Divide",
        OpCode::Multiply => "Multiply",
        OpCode::True => "True",
        OpCode::False => "False",
        OpCode::Nil => "Nil",
        OpCode::Not => "Not",
        OpCode::Equal => "Equal",
        OpCode::Greater => "Greater",
        OpCode::Less => "Less",
        OpCode::Print => "Print",
        OpCode::Pop => "Pop",
        OpCode::DefineGlobal => "DefineGlobal",
        OpCode::GetGlobal => "GetGlobal",
        OpCode::SetGlobal => "SetGlobal",
    }
}

/// One line of the disassembly: the zero-padded offset, the source line
/// (or `|` when it repeats the previous byte's line), the mnemonic, and
/// any extra data.
pub fn display(chunk: &Chunk, op: Option<&OpCode>, offset: usize, data: &str) -> (r: String)
    requires
        chunk.lines_match(),
        offset < chunk.code@.len(),
{
    let digits = usize_to_string(offset);
    let mut padded = String::new();
    let mut width = digits.as_str().unicode_len();
    while width < 4
        invariant
            true,
        decreases 4 - width,
    {
        padded.append("0");
        width = width + 1;
    }
    padded.append(digits.as_str());
    padded.append("\t");
    if offset > 0 && chunk.lines[offset] == chunk.lines[offset - 1] {
        padded.append("|");
    } else {
        padded.append(usize_to_string(chunk.lines[offset]).as_str());
    }
    padded.append("\t");
    match op {
        Some(mnemonic) => padded.append(op_name(mnemonic)),
        None => padded.append("Unknown OP"),
    }
    padded.append(" ");
    padded.append(data);
    padded
}

} // verus!
