//! The virtual machine: a fetch-decode-execute loop over a chunk,
//! operating on a value stack and a global-name table.
//!
//! Numbers are IEEE-754 binary64 bit patterns. The machine itself never
//! computes with them: every arithmetic operation, comparison, parse and
//! formatting of a number is delegated to a numeric helper, a function
//! the caller passes in. The machine's own behaviour — decoding, stack
//! discipline, typing rules, globals, control — is verified for every
//! possible answer the helper can give.

use vstd::prelude::*;
use vstd::string::StringExecFns;

use crate::chunk::{has_print_from, wf_code_from, Chunk, Literal, LiteralV, OpCode};
use crate::compiler;
use crate::scanner::{blank_from, first_significant, starts_no_expression, starts_no_token};
use crate::text::{decimal_digits, usize_to_string};
use crate::value::{falsy, non_numeric_equal, Value, ValueArray, ValueV};

verus! {

/// The two ways a run can fail: the source did not compile, or execution
/// stopped on a runtime fault.
#[derive(Debug, Clone, Copy, PartialEq, Eq, Structural)]
pub enum InterpretError {
    CompileError,
    RuntimeError,
}

impl InterpretError {
    /// A short description of the failure.
    pub fn message(&self) -> (r: &'static str)
        ensures
            self is CompileError ==> r@ == "Error during compilation."@,
            self is RuntimeError ==> r@ == "Error during execution"@,
    {
        match self {
            InterpretError::CompileError => "Error during compilation.",
            InterpretError::RuntimeError => "Error during execution",
        }
    }
}

/// The four arithmetic operations on numbers.
#[derive(Debug, Clone, Copy, PartialEq, Eq, Structural)]
pub enum ArithOp {
    Add,
    Subtract,
    Multiply,
    Divide,
}

/// What the machine asks its numeric helper: parse a number literal's
/// text to bits, combine or compare two numbers given by their bit
/// patterns, or format one for printing.
#[derive(Debug)]
pub enum NumberRequest {
    Parse(String),
    Arith(ArithOp, u64, u64),
    Compare(u64, u64),
    Format(u64),
}

/// The outcome of comparing two numbers; `Unordered` is for comparisons
/// involving a NaN.
#[derive(Debug, Clone, Copy, PartialEq, Eq, Structural)]
pub enum NumberOrder {
    Less,
    Equal,
    Greater,
    Unordered,
}

/// The helper's answer: bits for `Parse` and `Arith`, an order for
/// `Compare`, text for `Format`.
#[derive(Debug)]
pub enum NumberReply {
    Bits(u64),
    Ordering(NumberOrder),
    Text(String),
}

/// The value bound to `name` in a list of bindings, scanning newest
/// first: the latest binding of a name shadows the older ones.
pub open spec fn spec_lookup(g: Seq<(String, Value)>, name: Seq<char>) -> Option<ValueV>
    decreases g.len(),
{
    if g.len() == 0 {
        None
    } else if g.last().0@ == name {
        Some(g.last().1@)
    } else {
        spec_lookup(g.drop_last(), name)
    }
}

/// The global-name table: bindings from variable names to values. A new
/// binding is appended and shadows any older one for the same name, so a
/// lookup scans newest first.
pub struct Globals {
    pub entries: Vec<(String, Value)>,
}

impl Globals {
    pub fn new() -> (r: Globals)
        ensures
            r.entries@ == Seq::<(String, Value)>::empty(),
    {
        Globals { entries: Vec::new() }
    }

    /// Bind `name` to `value`, replacing whatever it was bound to.
    pub fn insert(&mut self, name: String, value: Value)
        ensures
            spec_lookup(final(self).entries@, name@) == Some(value@),
            forall|other: Seq<char>|
                other != name@ ==> #[trigger] spec_lookup(final(self).entries@, other)
                    == spec_lookup(old(self).entries@, other),
    {
        let ghost before = self.entries@;
        let ghost name_view = name@;
        let ghost value_view = value@;
        self.entries.push((name, value));
        proof {
            assert(self.entries@.last().0@ == name_view);
            assert(self.entries@.last().1@ == value_view);
            assert(self.entries@.drop_last() =~= before);
            assert forall|other: Seq<char>| other != name_view implies #[trigger] spec_lookup(
                self.entries@,
                other,
            ) == spec_lookup(before, other) by {
                assert(self.entries@.drop_last() =~= before);
                assert(spec_lookup(self.entries@, other) == spec_lookup(
                    self.entries@.drop_last(),
                    other,
                ));
            }
        }
    }

    /// The value bound to `name`, if any.
    pub fn get(&self, name: &String) -> (r: Option<&Value>)
        ensures
            match r {
                Some(v) => spec_lookup(self.entries@, name@) == Some(v@),
                None => spec_lookup(self.entries@, name@) is None,
            },
    {
        let ghost g = self.entries@;
        let mut i = self.entries.len();
        proof {
            assert(g.take(g.len() as int) =~= g);
        }
        loop
            invariant
                i <= g.len(),
                g == self.entries@,
                spec_lookup(g, name@) == spec_lookup(g.take(i as int), name@),
            ensures
                i == 0,
            decreases i,
        {
            if i == 0 {
                break;
            }
            i = i - 1;
            let hit = self.entries[i].0 == *name;
            proof {
                let prefix = g.take(i as int + 1);
                assert(prefix.last() == g[i as int]);
                assert(prefix.drop_last() =~= g.take(i as int));
            }
            if hit {
                proof {
                    let prefix = g.take(i as int + 1);
                    assert(prefix.last().0@ == name@);
                    assert(spec_lookup(prefix, name@) == Some(prefix.last().1@));
                    assert(spec_lookup(g, name@) == Some(g[i as int].1@));
                }
                return Some(&self.entries[i].1);
            }
        }
        proof {
            assert(g.take(0).len() == 0);
            assert(spec_lookup(g.take(0), name@) is None);
        }
        None
    }
}

/// What executing one instruction did: fell through to the next one,
/// halted on `Return`, or stopped on a runtime fault.
#[derive(Debug, Clone, Copy, PartialEq, Eq, Structural)]
pub enum StepOutcome {
    Continue,
    Halt,
    Fault,
}

/// The opcode decoded at `ip`.
pub open spec fn op_at(code: Seq<u8>, ip: int) -> OpCode {
    match OpCode::spec_from_byte(code[ip]) {
        Some(op) => op,
        None => OpCode::Return,
    }
}

/// The declared stack effect of each instruction: how the stack's depth
/// changes when the instruction executes completely.
pub open spec fn stack_effect(op: OpCode) -> int {
    match op {
        OpCode::Return => 0,
        OpCode::Constant => 1,
        OpCode::Negate => 0,
        OpCode::Add => -1,
        OpCode::Subtract => -1,
        OpCode::Divide => -1,
        OpCode::Multiply => -1,
        OpCode::True => 1,
        OpCode::False => 1,
        OpCode::Nil => 1,
        OpCode::Not => 0,
        OpCode::Equal => -1,
        OpCode::Greater => -1,
        OpCode::Less => -1,
        OpCode::Print => -1,
        OpCode::Pop => -1,
        OpCode::DefineGlobal => -1,
        OpCode::GetGlobal => 1,
        OpCode::SetGlobal => 0,
    }
}

/// The sign mask of an IEEE-754 binary64: negation reverses this one bit
/// and leaves the rest of the pattern alone.
pub open spec fn spec_negated(bits: u64) -> u64 {
    bits ^ 0x8000_0000_0000_0000
}

/// The pool entry named by the operand byte of the instruction at `ip`.
pub open spec fn pool_entry_at(c: &Chunk, ip: int) -> LiteralV {
    c.constants@[c.code@[ip + 1] as int]@
}

/// The instruction at `op` succeeds whatever the numeric helper answers:
/// every step that involves no numeric request, applied to a stack and a
/// pool entry of the right shape. The arithmetic and comparison opcodes,
/// and the numeric sides of `Constant`, `Print` and `Equal`, are absent:
/// their outcome also turns on the helper answering in shape.
pub open spec fn step_guaranteed(pre: Vm, op: OpCode) -> bool {
    match op {
        OpCode::Return => true,
        OpCode::Nil => true,
        OpCode::True => true,
        OpCode::False => true,
        OpCode::Pop => pre.stack@.len() >= 1,
        OpCode::Not => pre.stack@.len() >= 1,
        OpCode::Negate => pre.stack@.len() >= 1 && pre.stack@.last() is Number,
        OpCode::Constant => pool_entry_at(pre.chunk, pre.ip as int) is Str,
        OpCode::Print => pre.stack@.len() >= 1 && !(pre.stack@.last() is Number),
        OpCode::Equal => pre.stack@.len() >= 2 && !(pre.stack@[pre.stack@.len() - 2] is Number
            && pre.stack@.last() is Number),
        OpCode::DefineGlobal => pool_entry_at(pre.chunk, pre.ip as int) is Str
            && pre.stack@.len() >= 1,
        OpCode::GetGlobal => (pool_entry_at(pre.chunk, pre.ip as int) matches LiteralV::Str(nm)
            && spec_lookup(pre.globals.entries@, nm) is Some),
        OpCode::SetGlobal => (pool_entry_at(pre.chunk, pre.ip as int) matches LiteralV::Str(nm)
            && spec_lookup(pre.globals.entries@, nm) is Some && pre.stack@.len() >= 1),
        _ => false,
    }
}

/// The instruction at `op` faults whatever the numeric helper answers: a
/// required operand is missing from the stack, an operand of a numeric
/// opcode is not a number, a name operand is not a string, or a read or
/// assigned global is unbound.
pub open spec fn step_must_fault(pre: Vm, op: OpCode) -> bool {
    match op {
        OpCode::Pop => pre.stack@.len() == 0,
        OpCode::Not => pre.stack@.len() == 0,
        OpCode::Print => pre.stack@.len() == 0,
        OpCode::Negate => pre.stack@.len() == 0 || !(pre.stack@.last() is Number),
        OpCode::Add | OpCode::Subtract | OpCode::Multiply | OpCode::Divide | OpCode::Greater
            | OpCode::Less => pre.stack@.len() < 2 || !(pre.stack@[pre.stack@.len() - 2]
            is Number) || !(pre.stack@.last() is Number),
        OpCode::Equal => pre.stack@.len() < 2,
        OpCode::DefineGlobal => pool_entry_at(pre.chunk, pre.ip as int) is Number || (
        pool_entry_at(pre.chunk, pre.ip as int) is Str && pre.stack@.len() == 0),
        OpCode::GetGlobal => pool_entry_at(pre.chunk, pre.ip as int) is Number || (pool_entry_at(
            pre.chunk,
            pre.ip as int,
        ) matches LiteralV::Str(nm) && spec_lookup(pre.globals.entries@, nm) is None),
        OpCode::SetGlobal => pool_entry_at(pre.chunk, pre.ip as int) is Number || (pool_entry_at(
            pre.chunk,
            pre.ip as int,
        ) matches LiteralV::Str(nm) && (spec_lookup(pre.globals.entries@, nm) is None
            || pre.stack@.len() == 0)),
        _ => false,
    }
}

/// The machine: the chunk it executes, the instruction pointer, the
/// value stack, the globals, and the two output channels it fills in
/// place of the standard streams.
pub struct Vm<'a> {
    pub chunk: &'a Chunk,
    pub ip: usize,
    pub stack: ValueArray,
    pub globals: Globals,
    pub stdout: Vec<String>,
    pub stderr: Vec<String>,
}

impl<'a> Vm<'a> {
    /// The machine's invariant: the line table matches the byte stream
    /// and the byte stream is well formed from the instruction pointer
    /// on.
    pub open spec fn wf(&self) -> bool {
        &&& self.chunk.lines_match()
        &&& wf_code_from(
            self.chunk.code@,
            self.chunk.constants@.len() as nat,
            self.ip as int,
        )
    }

    pub fn init(chunk: &'a Chunk) -> (r: Vm<'a>)
        requires
            chunk.lines_match(),
            chunk.wf_code(),
        ensures
            r.wf(),
            r.chunk == chunk,
            r.ip == 0,
            r.stack@ == Seq::<ValueV>::empty(),
            r.globals.entries@ == Seq::<(String, Value)>::empty(),
            r.stdout@ == Seq::<String>::empty(),
            r.stderr@ == Seq::<String>::empty(),
    {
        Vm {
            chunk,
            ip: 0,
            stack: ValueArray::init(),
            globals: Globals::new(),
            stdout: Vec::new(),
            stderr: Vec::new(),
        }
    }

    /// Report a runtime fault: the message, then `[line N] in script`
    /// for the line of the instruction at `at`, both to the error
    /// channel; the stack is reset.
    fn runtime_error(&mut self, message: &str, at: usize)
        requires
            at < old(self).chunk.lines@.len(),
        ensures
            *final(self) == (Vm {
                stack: final(self).stack,
                stderr: final(self).stderr,
                ..*old(self)
            }),
            final(self).stack@ == Seq::<ValueV>::empty(),
            final(self).stderr@.len() == old(self).stderr@.len() + 2,
            final(self).stderr@[old(self).stderr@.len() as int]@ == message@,
            final(self).stderr@[old(self).stderr@.len() as int + 1]@ == "[line "@ + decimal_digits(
                old(self).chunk.lines@[at as int] as nat,
            ) + "] in script"@,
            final(self).stdout@ == old(self).stdout@,
    {
        self.stderr.push(message.to_owned());
        let line = self.chunk.lines[at];
        let mut located = String::from_str("[line ");
        located.append(usize_to_string(line).as_str());
        located.append("] in script");
        proof {
            assert(located@ =~= "[line "@ + decimal_digits(line as nat) + "] in script"@);
        }
        self.stderr.push(located);
        self.stack.reset();
    }

    /// Pop two numbers, hand them with `operation` to the numeric
    /// helper, and push the number it answers. A missing operand is a
    /// stack underflow; an operand that is not a number is the type
    /// fault "Operand must be a number".
    fn arith_op<F: Fn(NumberRequest) -> NumberReply>(
        &mut self,
        num: &F,
        operation: ArithOp,
        at: usize,
    ) -> (r: StepOutcome)
        requires
            at < old(self).chunk.lines@.len(),
            forall|req: NumberRequest| #[trigger] call_requires(*num, (req,)),
        ensures
            *final(self) == (Vm { stack: final(self).stack, stderr: final(self).stderr, ..*old(self) }),
            r != StepOutcome::Halt,
            r == StepOutcome::Continue ==> final(self).stderr@ == old(self).stderr@ && old(self).stack@.len() >= 2 && (old(self).stack@[old(self).stack@.len() - 2] matches ValueV::Number(x) ==> (old(self).stack@.last() matches ValueV::Number(y) ==> (exists|bits: u64|
                call_ensures(
                    *num,
                    (NumberRequest::Arith(operation, x, y),),
                    NumberReply::Bits(bits),
                ) && final(self).stack@ == old(self).stack@.drop_last().drop_last().push(
                    ValueV::Number(bits),
                )))) && old(self).stack@[old(self).stack@.len() - 2] is Number && old(self).stack@.last() is Number,
            r == StepOutcome::Fault ==> final(self).stderr@.len() > old(self).stderr@.len()
                && final(self).stack@.len() == 0,
            (old(self).stack@.len() < 2 || !(old(self).stack@[old(self).stack@.len() - 2]
                is Number) || !(old(self).stack@.last() is Number)) ==> r == StepOutcome::Fault,
            (old(self).stack@.len() >= 2 && (!(old(self).stack@[old(self).stack@.len() - 2]
                is Number) || !(old(self).stack@.last() is Number))) ==> final(self).stderr@[old(self).stderr@.len() as int]@ == "Operand must be a number"@,
    {
        let second = match self.stack.pop() {
            Some(v) => v,
            None => {
                self.runtime_error("Stack underflow.", at);
                return StepOutcome::Fault;
            },
        };
        let first = match self.stack.pop() {
            Some(v) => v,
            None => {
                self.runtime_error("Stack underflow.", at);
                return StepOutcome::Fault;
            },
        };
        let x = match first {
            Value::Number(x) => x,
            _ => {
                self.runtime_error("Operand must be a number", at);
                return StepOutcome::Fault;
            },
        };
        let y = match second {
            Value::Number(y) => y,
            _ => {
                self.runtime_error("Operand must be a number", at);
                return StepOutcome::Fault;
            },
        };
        let reply = (num)(NumberRequest::Arith(operation, x, y));
        match reply {
            NumberReply::Bits(bits) => {
                self.stack.push(Value::Number(bits));
                StepOutcome::Continue
            },
            _ => {
                self.runtime_error("Invalid numeric helper reply.", at);
                StepOutcome::Fault
            },
        }
    }

    /// Pop two numbers, compare them through the numeric helper, and
    /// push whether the outcome is `want`.
    fn compare_op<F: Fn(NumberRequest) -> NumberReply>(
        &mut self,
        num: &F,
        want: NumberOrder,
        at: usize,
    ) -> (r: StepOutcome)
        requires
            at < old(self).chunk.lines@.len(),
            forall|req: NumberRequest| #[trigger] call_requires(*num, (req,)),
        ensures
            *final(self) == (Vm { stack: final(self).stack, stderr: final(self).stderr, ..*old(self) }),
            r != StepOutcome::Halt,
            r == StepOutcome::Continue ==> final(self).stderr@ == old(self).stderr@ && old(self).stack@.len() >= 2 && (old(self).stack@[old(self).stack@.len() - 2] matches ValueV::Number(x) ==> (old(self).stack@.last() matches ValueV::Number(y) ==> (exists|order: NumberOrder|
                call_ensures(
                    *num,
                    (NumberRequest::Compare(x, y),),
                    NumberReply::Ordering(order),
                ) && final(self).stack@ == old(self).stack@.drop_last().drop_last().push(
                    ValueV::Boolean(order == want),
                )))) && old(self).stack@[old(self).stack@.len() - 2] is Number && old(self).stack@.last() is Number,
            r == StepOutcome::Fault ==> final(self).stderr@.len() > old(self).stderr@.len()
                && final(self).stack@.len() == 0,
            (old(self).stack@.len() < 2 || !(old(self).stack@[old(self).stack@.len() - 2]
                is Number) || !(old(self).stack@.last() is Number)) ==> r == StepOutcome::Fault,
            (old(self).stack@.len() >= 2 && (!(old(self).stack@[old(self).stack@.len() - 2]
                is Number) || !(old(self).stack@.last() is Number))) ==> final(self).stderr@[old(self).stderr@.len() as int]@ == "Operand must be a number"@,
    {
        let second = match self.stack.pop() {
            Some(v) => v,
            None => {
                self.runtime_error("Stack underflow.", at);
                return StepOutcome::Fault;
            },
        };
        let first = match self.stack.pop() {
            Some(v) => v,
            None => {
                self.runtime_error("Stack underflow.", at);
                return StepOutcome::Fault;
            },
        };
        let x = match first {
            Value::Number(x) => x,
            _ => {
                self.runtime_error("Operand must be a number", at);
                return StepOutcome::Fault;
            },
        };
        let y = match second {
            Value::Number(y) => y,
            _ => {
                self.runtime_error("Operand must be a number", at);
                return StepOutcome::Fault;
            },
        };
        let reply = (num)(NumberRequest::Compare(x, y));
        match reply {
            NumberReply::Ordering(order) => {
                self.stack.push(Value::Boolean(order == want));
                StepOutcome::Continue
            },
            _ => {
                self.runtime_error("Invalid numeric helper reply.", at);
                StepOutcome::Fault
            },
        }
    }

    /// Pop two values and push whether they are equal: numbers compare
    /// through the numeric helper (IEEE-754 equality), everything else
    /// by kind and content.
    fn equal_op<F: Fn(NumberRequest) -> NumberReply>(&mut self, num: &F, at: usize) -> (r:
        StepOutcome)
        requires
            at < old(self).chunk.lines@.len(),
            forall|req: NumberRequest| #[trigger] call_requires(*num, (req,)),
        ensures
            *final(self) == (Vm { stack: final(self).stack, stderr: final(self).stderr, ..*old(self) }),
            r != StepOutcome::Halt,
            r == StepOutcome::Continue ==> final(self).stderr@ == old(self).stderr@ && old(self).stack@.len() >= 2 && (if old(self).stack@[old(self).stack@.len() - 2] is Number
                && old(self).stack@.last() is Number {
                old(self).stack@[old(self).stack@.len() - 2] matches ValueV::Number(x)
                    && (old(self).stack@.last() matches ValueV::Number(y) && (exists|
                    order: NumberOrder,
                |
                    call_ensures(
                        *num,
                        (NumberRequest::Compare(x, y),),
                        NumberReply::Ordering(order),
                    ) && final(self).stack@ == old(self).stack@.drop_last().drop_last().push(
                        ValueV::Boolean(order == NumberOrder::Equal),
                    )))
            } else {
                final(self).stack@ == old(self).stack@.drop_last().drop_last().push(
                    ValueV::Boolean(
                        non_numeric_equal(
                            old(self).stack@[old(self).stack@.len() - 2],
                            old(self).stack@.last(),
                        ),
                    ),
                )
            }),
            r == StepOutcome::Fault ==> final(self).stderr@.len() > old(self).stderr@.len()
                && final(self).stack@.len() == 0,
            old(self).stack@.len() < 2 ==> r == StepOutcome::Fault,
            (old(self).stack@.len() >= 2 && !(old(self).stack@[old(self).stack@.len() - 2]
                is Number && old(self).stack@.last() is Number)) ==> r == StepOutcome::Continue,
    {
        let second = match self.stack.pop() {
            Some(v) => v,
            None => {
                self.runtime_error("Stack underflow.", at);
                return StepOutcome::Fault;
            },
        };
        let first = match self.stack.pop() {
            Some(v) => v,
            None => {
                self.runtime_error("Stack underflow.", at);
                return StepOutcome::Fault;
            },
        };
        let both_numbers = match first {
            Value::Number(_) => match second {
                Value::Number(_) => true,
                _ => false,
            },
            _ => false,
        };
        if both_numbers {
            let x = match first {
                Value::Number(x) => x,
                _ => 0,
            };
            let y = match second {
                Value::Number(y) => y,
                _ => 0,
            };
            let reply = (num)(NumberRequest::Compare(x, y));
            match reply {
                NumberReply::Ordering(order) => {
                    self.stack.push(Value::Boolean(order == NumberOrder::Equal));
                    StepOutcome::Continue
                },
                _ => {
                    self.runtime_error("Invalid numeric helper reply.", at);
                    StepOutcome::Fault
                },
            }
        } else {
            let truth = crate::value::equal_non_numeric(&first, &second);
            self.stack.push(Value::Boolean(truth));
            StepOutcome::Continue
        }
    }

    /// Execute the one instruction at the instruction pointer. On
    /// `Continue` the pointer moves past the instruction and the stack's
    /// depth changes by exactly the instruction's declared stack effect;
    /// `Halt` is returned for `Return` and nothing else; on `Fault` a
    /// diagnostic is on the error channel and the stack is reset. Only
    /// `Print` writes to the output channel.
    #[verifier::rlimit(100)]
    #[verifier::spinoff_prover]
    pub fn step<F: Fn(NumberRequest) -> NumberReply>(&mut self, num: &F) -> (r: StepOutcome)
        requires
            old(self).wf(),
            old(self).ip < old(self).chunk.code@.len(),
            forall|req: NumberRequest| #[trigger] call_requires(*num, (req,)),
        ensures
            final(self).wf(),
            final(self).chunk == old(self).chunk,
            r != StepOutcome::Fault ==> final(self).stderr@ == old(self).stderr@,
            r == StepOutcome::Fault ==> final(self).stderr@.len() > old(self).stderr@.len()
                && final(self).stack@.len() == 0 && final(self).ip == old(self).ip,
            op_at(old(self).chunk.code@, old(self).ip as int) != OpCode::Print ==> final(self).stdout@ == old(self).stdout@,
            old(self).stdout@.is_prefix_of(final(self).stdout@),
            (r == StepOutcome::Halt <==> op_at(old(self).chunk.code@, old(self).ip as int)
                == OpCode::Return),
            r == StepOutcome::Halt ==> *final(self) == (Vm { ip: final(self).ip, ..*old(self) })
                && final(self).ip == old(self).ip + 1,
            r == StepOutcome::Continue ==> final(self).ip == old(self).ip + op_at(
                old(self).chunk.code@,
                old(self).ip as int,
            ).size() && final(self).stack@.len() == old(self).stack@.len() + stack_effect(
                op_at(old(self).chunk.code@, old(self).ip as int),
            ),
            !has_print_from(old(self).chunk.code@, old(self).ip as int) ==> (final(self).stdout@
                == old(self).stdout@ && (r == StepOutcome::Continue ==> !has_print_from(
                final(self).chunk.code@,
                final(self).ip as int,
            ))),
            (op_at(old(self).chunk.code@, old(self).ip as int) != OpCode::DefineGlobal && op_at(
                old(self).chunk.code@,
                old(self).ip as int,
            ) != OpCode::SetGlobal) ==> final(self).globals == old(self).globals,
            r == StepOutcome::Fault ==> final(self).globals == old(self).globals,
            step_guaranteed(*old(self), op_at(old(self).chunk.code@, old(self).ip as int)) ==> r
                != StepOutcome::Fault,
            step_must_fault(*old(self), op_at(old(self).chunk.code@, old(self).ip as int)) ==> r
                == StepOutcome::Fault,
            (op_at(old(self).chunk.code@, old(self).ip as int) == OpCode::Negate && old(self).stack@.len() >= 1 && !(old(self).stack@.last() is Number)) ==> final(self).stderr@[old(self).stderr@.len() as int]@ == "Operand must be a number"@,
            ((op_at(old(self).chunk.code@, old(self).ip as int) == OpCode::Add || op_at(old(self).chunk.code@, old(self).ip as int) == OpCode::Subtract || op_at(old(self).chunk.code@, old(self).ip as int) == OpCode::Multiply || op_at(old(self).chunk.code@, old(self).ip as int) == OpCode::Divide || op_at(old(self).chunk.code@, old(self).ip as int) == OpCode::Greater || op_at(old(self).chunk.code@, old(self).ip as int) == OpCode::Less) && old(self).stack@.len() >= 2 && (!(old(self).stack@[old(self).stack@.len() - 2] is Number) || !(old(self).stack@.last() is Number))) ==> final(self).stderr@[old(self).stderr@.len() as int]@ == "Operand must be a number"@,
            ((op_at(old(self).chunk.code@, old(self).ip as int) == OpCode::DefineGlobal || op_at(old(self).chunk.code@, old(self).ip as int) == OpCode::GetGlobal || op_at(old(self).chunk.code@, old(self).ip as int) == OpCode::SetGlobal) && pool_entry_at(old(self).chunk, old(self).ip as int) is Number) ==> final(self).stderr@[old(self).stderr@.len() as int]@ == "Variable specifier must be a string."@,
            op_at(old(self).chunk.code@, old(self).ip as int) == OpCode::GetGlobal ==> (pool_entry_at(old(self).chunk, old(self).ip as int) matches LiteralV::Str(nm) ==> (spec_lookup(old(self).globals.entries@, nm) is None ==> final(self).stderr@[old(self).stderr@.len() as int]@ == "Undefined variable '"@ + nm + "'."@)),
            op_at(old(self).chunk.code@, old(self).ip as int) == OpCode::SetGlobal ==> (pool_entry_at(old(self).chunk, old(self).ip as int) matches LiteralV::Str(nm) ==> (spec_lookup(old(self).globals.entries@, nm) is None ==> final(self).stderr@[old(self).stderr@.len() as int]@ == "Undefined variable '"@ + nm + "'."@)),
            (r == StepOutcome::Continue && op_at(old(self).chunk.code@, old(self).ip as int)
                == OpCode::Nil) ==> final(self).stack@ == old(self).stack@.push(ValueV::Nil),
            (r == StepOutcome::Continue && op_at(old(self).chunk.code@, old(self).ip as int)
                == OpCode::True) ==> final(self).stack@ == old(self).stack@.push(
                ValueV::Boolean(true),
            ),
            (r == StepOutcome::Continue && op_at(old(self).chunk.code@, old(self).ip as int)
                == OpCode::False) ==> final(self).stack@ == old(self).stack@.push(
                ValueV::Boolean(false),
            ),
            (r == StepOutcome::Continue && op_at(old(self).chunk.code@, old(self).ip as int)
                == OpCode::Pop) ==> final(self).stack@ == old(self).stack@.drop_last(),
            (r == StepOutcome::Continue && op_at(old(self).chunk.code@, old(self).ip as int)
                == OpCode::Not) ==> final(self).stack@ == old(self).stack@.drop_last().push(
                ValueV::Boolean(falsy(old(self).stack@.last())),
            ),
            (r == StepOutcome::Continue && op_at(old(self).chunk.code@, old(self).ip as int)
                == OpCode::Negate) ==> (old(self).stack@.last() matches ValueV::Number(n) && final(self).stack@ == old(self).stack@.drop_last().push(ValueV::Number(spec_negated(n)))),
            (r == StepOutcome::Continue && op_at(old(self).chunk.code@, old(self).ip as int)
                == OpCode::Add) ==> (old(self).stack@[old(self).stack@.len() - 2] matches ValueV::Number(x)
                && (old(self).stack@.last() matches ValueV::Number(y) && (exists|bits: u64|
                call_ensures(*num, (NumberRequest::Arith(ArithOp::Add, x, y),), NumberReply::Bits(bits))
                    && final(self).stack@ == old(self).stack@.drop_last().drop_last().push(
                    ValueV::Number(bits),
                )))),
            (r == StepOutcome::Continue && op_at(old(self).chunk.code@, old(self).ip as int)
                == OpCode::Subtract) ==> (old(self).stack@[old(self).stack@.len() - 2] matches ValueV::Number(x)
                && (old(self).stack@.last() matches ValueV::Number(y) && (exists|bits: u64|
                call_ensures(*num, (NumberRequest::Arith(ArithOp::Subtract, x, y),), NumberReply::Bits(bits))
                    && final(self).stack@ == old(self).stack@.drop_last().drop_last().push(
                    ValueV::Number(bits),
                )))),
            (r == StepOutcome::Continue && op_at(old(self).chunk.code@, old(self).ip as int)
                == OpCode::Multiply) ==> (old(self).stack@[old(self).stack@.len() - 2] matches ValueV::Number(x)
                && (old(self).stack@.last() matches ValueV::Number(y) && (exists|bits: u64|
                call_ensures(*num, (NumberRequest::Arith(ArithOp::Multiply, x, y),), NumberReply::Bits(bits))
                    && final(self).stack@ == old(self).stack@.drop_last().drop_last().push(
                    ValueV::Number(bits),
                )))),
            (r == StepOutcome::Continue && op_at(old(self).chunk.code@, old(self).ip as int)
                == OpCode::Divide) ==> (old(self).stack@[old(self).stack@.len() - 2] matches ValueV::Number(x)
                && (old(self).stack@.last() matches ValueV::Number(y) && (exists|bits: u64|
                call_ensures(*num, (NumberRequest::Arith(ArithOp::Divide, x, y),), NumberReply::Bits(bits))
                    && final(self).stack@ == old(self).stack@.drop_last().drop_last().push(
                    ValueV::Number(bits),
                )))),
            (r == StepOutcome::Continue && op_at(old(self).chunk.code@, old(self).ip as int)
                == OpCode::Greater) ==> (old(self).stack@[old(self).stack@.len() - 2] matches ValueV::Number(x)
                && (old(self).stack@.last() matches ValueV::Number(y) && (exists|order: NumberOrder|
                call_ensures(*num, (NumberRequest::Compare(x, y),), NumberReply::Ordering(order))
                    && final(self).stack@ == old(self).stack@.drop_last().drop_last().push(
                    ValueV::Boolean(order == NumberOrder::Greater),
                )))),
            (r == StepOutcome::Continue && op_at(old(self).chunk.code@, old(self).ip as int)
                == OpCode::Less) ==> (old(self).stack@[old(self).stack@.len() - 2] matches ValueV::Number(x)
                && (old(self).stack@.last() matches ValueV::Number(y) && (exists|order: NumberOrder|
                call_ensures(*num, (NumberRequest::Compare(x, y),), NumberReply::Ordering(order))
                    && final(self).stack@ == old(self).stack@.drop_last().drop_last().push(
                    ValueV::Boolean(order == NumberOrder::Less),
                )))),
            (r == StepOutcome::Continue && op_at(old(self).chunk.code@, old(self).ip as int)
                == OpCode::Equal) ==> (old(self).stack@.len() >= 2 && (if old(self).stack@[old(self).stack@.len() - 2] is Number && old(self).stack@.last() is Number {
                old(self).stack@[old(self).stack@.len() - 2] matches ValueV::Number(x)
                    && (old(self).stack@.last() matches ValueV::Number(y) && (exists|order: NumberOrder|
                    call_ensures(*num, (NumberRequest::Compare(x, y),), NumberReply::Ordering(order))
                        && final(self).stack@ == old(self).stack@.drop_last().drop_last().push(
                        ValueV::Boolean(order == NumberOrder::Equal),
                    )))
            } else {
                final(self).stack@ == old(self).stack@.drop_last().drop_last().push(
                    ValueV::Boolean(
                        non_numeric_equal(
                            old(self).stack@[old(self).stack@.len() - 2],
                            old(self).stack@.last(),
                        ),
                    ),
                )
            })),
            (r == StepOutcome::Continue && op_at(old(self).chunk.code@, old(self).ip as int)
                == OpCode::Constant) ==> (match old(self).chunk.constants@[old(self).chunk.code@[old(self).ip + 1] as int] {
                Literal::Str(s) => final(self).stack@ == old(self).stack@.push(
                    ValueV::DynamicString(s@),
                ),
                Literal::Number(text) => exists|bits: u64|
                    call_ensures(*num, (NumberRequest::Parse(text),), NumberReply::Bits(bits))
                        && final(self).stack@ == old(self).stack@.push(ValueV::Number(bits)),
            }),
            (r == StepOutcome::Continue && op_at(old(self).chunk.code@, old(self).ip as int)
                == OpCode::Print) ==> (final(self).stack@ == old(self).stack@.drop_last() && final(self).stdout@.len() == old(self).stdout@.len() + 1 && (match old(self).stack@.last() {
                ValueV::Nil => final(self).stdout@.last()@ == "nil"@,
                ValueV::Boolean(truth) => final(self).stdout@.last()@ == (if truth {
                    "true"@
                } else {
                    "false"@
                }),
                ValueV::DynamicString(s) => final(self).stdout@.last()@ == s,
                ValueV::Number(bits) => exists|text: String|
                    call_ensures(*num, (NumberRequest::Format(bits),), NumberReply::Text(text))
                        && final(self).stdout@.last() == text,
            })),
            (r == StepOutcome::Continue && op_at(old(self).chunk.code@, old(self).ip as int)
                == OpCode::DefineGlobal) ==> (old(self).chunk.constants@[old(self).chunk.code@[old(self).ip + 1] as int]@ matches LiteralV::Str(nm) && final(self).stack@ == old(self).stack@.drop_last() && spec_lookup(final(self).globals.entries@, nm) == Some(
                old(self).stack@.last(),
            ) && (forall|other: Seq<char>|
                other != nm ==> #[trigger] spec_lookup(final(self).globals.entries@, other)
                    == spec_lookup(old(self).globals.entries@, other))),
            (r == StepOutcome::Continue && op_at(old(self).chunk.code@, old(self).ip as int)
                == OpCode::GetGlobal) ==> (old(self).chunk.constants@[old(self).chunk.code@[old(self).ip + 1] as int]@ matches LiteralV::Str(nm) && spec_lookup(
                old(self).globals.entries@,
                nm,
            ) matches Some(v) && final(self).stack@ == old(self).stack@.push(v)),
            (r == StepOutcome::Continue && op_at(old(self).chunk.code@, old(self).ip as int)
                == OpCode::SetGlobal) ==> (old(self).chunk.constants@[old(self).chunk.code@[old(self).ip + 1] as int]@ matches LiteralV::Str(nm) && spec_lookup(
                old(self).globals.entries@,
                nm,
            ) is Some && final(self).stack@ == old(self).stack@ && spec_lookup(
                final(self).globals.entries@,
                nm,
            ) == Some(old(self).stack@.last()) && (forall|other: Seq<char>|
                other != nm ==> #[trigger] spec_lookup(final(self).globals.entries@, other)
                    == spec_lookup(old(self).globals.entries@, other))),
    {
        let ghost code = self.chunk.code@;
        let ghost nconst = self.chunk.constants@.len() as nat;
        let ip0 = self.ip;
        let chunk = self.chunk;
        let code_length = chunk.code.len();
        proof {
            assert(code.len() == code_length);
            assert(wf_code_from(code, nconst, ip0 as int));
        }
        let byte = chunk.code[ip0];
        let decoded = OpCode::from_byte(byte);
        let op = match decoded {
            Some(op) => op,
            None => {
                proof {
                    assert(false);
                }
                self.runtime_error("Unknown opcode.", ip0);
                return StepOutcome::Fault;
            },
        };
        match op {
            OpCode::Return => {
                self.ip = ip0 + 1;
                StepOutcome::Halt
            },
            OpCode::Nil => {
                self.stack.push(Value::Nil);
                self.ip = ip0 + 1;
                StepOutcome::Continue
            },
            OpCode::True => {
                self.stack.push(Value::Boolean(true));
                self.ip = ip0 + 1;
                StepOutcome::Continue
            },
            OpCode::False => {
                self.stack.push(Value::Boolean(false));
                self.ip = ip0 + 1;
                StepOutcome::Continue
            },
            OpCode::Pop => {
                match self.stack.pop() {
                    Some(_) => {
                        self.ip = ip0 + 1;
                        StepOutcome::Continue
                    },
                    None => {
                        self.runtime_error("Stack underflow.", ip0);
                        StepOutcome::Fault
                    },
                }
            },
            OpCode::Not => {
                match self.stack.pop() {
                    Some(v) => {
                        let truth = v.is_falsy();
                        self.stack.push(Value::Boolean(truth));
                        self.ip = ip0 + 1;
                        StepOutcome::Continue
                    },
                    None => {
                        self.runtime_error("Stack underflow.", ip0);
                        StepOutcome::Fault
                    },
                }
            },
            OpCode::Negate => {
                match self.stack.pop() {
                    Some(v) => match v {
                        Value::Number(n) => {
                            self.stack.push(Value::Number(n ^ 0x8000_0000_0000_0000));
                            self.ip = ip0 + 1;
                            StepOutcome::Continue
                        },
                        _ => {
                            self.runtime_error("Operand must be a number", ip0);
                            StepOutcome::Fault
                        },
                    },
                    None => {
                        self.runtime_error("Stack underflow.", ip0);
                        StepOutcome::Fault
                    },
                }
            },
            OpCode::Add => {
                let outcome = self.arith_op(num, ArithOp::Add, ip0);
                if outcome == StepOutcome::Continue {
                    self.ip = ip0 + 1;
                }
                outcome
            },
            OpCode::Subtract => {
                let outcome = self.arith_op(num, ArithOp::Subtract, ip0);
                if outcome == StepOutcome::Continue {
                    self.ip = ip0 + 1;
                }
                outcome
            },
            OpCode::Multiply => {
                let outcome = self.arith_op(num, ArithOp::Multiply, ip0);
                if outcome == StepOutcome::Continue {
                    self.ip = ip0 + 1;
                }
                outcome
            },
            OpCode::Divide => {
                let outcome = self.arith_op(num, ArithOp::Divide, ip0);
                if outcome == StepOutcome::Continue {
                    self.ip = ip0 + 1;
                }
                outcome
            },
            OpCode::Greater => {
                let outcome = self.compare_op(num, NumberOrder::Greater, ip0);
                if outcome == StepOutcome::Continue {
                    self.ip = ip0 + 1;
                }
                outcome
            },
            OpCode::Less => {
                let outcome = self.compare_op(num, NumberOrder::Less, ip0);
                if outcome == StepOutcome::Continue {
                    self.ip = ip0 + 1;
                }
                outcome
            },
            OpCode::Equal => {
                let outcome = self.equal_op(num, ip0);
                if outcome == StepOutcome::Continue {
                    self.ip = ip0 + 1;
                }
                outcome
            },
            OpCode::Print => {
                match self.stack.pop() {
                    None => {
                        self.runtime_error("Stack underflow.", ip0);
                        StepOutcome::Fault
                    },
                    Some(v) => match v {
                        Value::Nil => {
                            self.stdout.push(String::from_str("nil"));
                            self.ip = ip0 + 1;
                            StepOutcome::Continue
                        },
                        Value::Boolean(truth) => {
                            self.stdout.push(
                                String::from_str(
                                    if truth {
                                        "true"
                                    } else {
                                        "false"
                                    },
                                ),
                            );
                            self.ip = ip0 + 1;
                            StepOutcome::Continue
                        },
                        Value::DynamicString(s) => {
                            self.stdout.push(s);
                            self.ip = ip0 + 1;
                            StepOutcome::Continue
                        },
                        Value::Number(bits) => {
                            let reply = (num)(NumberRequest::Format(bits));
                            match reply {
                                NumberReply::Text(s) => {
                                    self.stdout.push(s);
                                    self.ip = ip0 + 1;
                                    StepOutcome::Continue
                                },
                                _ => {
                                    self.runtime_error("Invalid numeric helper reply.", ip0);
                                    StepOutcome::Fault
                                },
                            }
                        },
                    },
                }
            },
            OpCode::Constant => {
                let index = chunk.code[ip0 + 1] as usize;
                match &chunk.constants[index] {
                    Literal::Str(s) => {
                        let v = Value::DynamicString(s.clone());
                        self.stack.push(v);
                        self.ip = ip0 + 2;
                        StepOutcome::Continue
                    },
                    Literal::Number(text) => {
                        let reply = (num)(NumberRequest::Parse(text.clone()));
                        match reply {
                            NumberReply::Bits(bits) => {
                                self.stack.push(Value::Number(bits));
                                self.ip = ip0 + 2;
                                StepOutcome::Continue
                            },
                            _ => {
                                self.runtime_error("Invalid numeric helper reply.", ip0);
                                StepOutcome::Fault
                            },
                        }
                    },
                }
            },
            OpCode::DefineGlobal => {
                let index = chunk.code[ip0 + 1] as usize;
                match &chunk.constants[index] {
                    Literal::Number(_) => {
                        self.runtime_error("Variable specifier must be a string.", ip0);
                        StepOutcome::Fault
                    },
                    Literal::Str(s) => {
                        let name = s.clone();
                        match self.stack.pop() {
                            None => {
                                self.runtime_error("Stack underflow.", ip0);
                                StepOutcome::Fault
                            },
                            Some(v) => {
                                self.globals.insert(name, v);
                                self.ip = ip0 + 2;
                                StepOutcome::Continue
                            },
                        }
                    },
                }
            },
            OpCode::GetGlobal => {
                let index = chunk.code[ip0 + 1] as usize;
                match &chunk.constants[index] {
                    Literal::Number(_) => {
                        self.runtime_error("Variable specifier must be a string.", ip0);
                        StepOutcome::Fault
                    },
                    Literal::Str(s) => {
                        let name = s.clone();
                        let found = match self.globals.get(&name) {
                            Some(v) => Some(v.duplicate()),
                            None => None,
                        };
                        match found {
                            Some(v) => {
                                self.stack.push(v);
                                self.ip = ip0 + 2;
                                StepOutcome::Continue
                            },
                            None => {
                                let mut message = String::from_str("Undefined variable '");
                                message.append(name.as_str());
                                message.append("'.");
                                self.runtime_error(message.as_str(), ip0);
                                StepOutcome::Fault
                            },
                        }
                    },
                }
            },
            OpCode::SetGlobal => {
                let index = chunk.code[ip0 + 1] as usize;
                match &chunk.constants[index] {
                    Literal::Number(_) => {
                        self.runtime_error("Variable specifier must be a string.", ip0);
                        StepOutcome::Fault
                    },
                    Literal::Str(s) => {
                        let name = s.clone();
                        let bound = match self.globals.get(&name) {
                            Some(_) => true,
                            None => false,
                        };
                        if !bound {
                            let mut message = String::from_str("Undefined variable '");
                            message.append(name.as_str());
                            message.append("'.");
                            self.runtime_error(message.as_str(), ip0);
                            StepOutcome::Fault
                        } else if self.stack.len() == 0 {
                            self.runtime_error("Stack underflow.", ip0);
                            StepOutcome::Fault
                        } else {
                            let top = self.stack.peek(0).duplicate();
                            self.globals.insert(name, top);
                            self.ip = ip0 + 2;
                            StepOutcome::Continue
                        }
                    },
                }
            },
        }
    }

    /// Run the chunk to completion: execute instructions until `Return`,
    /// the end of the byte stream, or the first runtime fault. An error
    /// always leaves a diagnostic on the error channel; a chunk whose
    /// remaining stream holds no `Print` writes nothing to the output
    /// channel.
    pub fn interpret<F: Fn(NumberRequest) -> NumberReply>(&mut self, num: &F) -> (r: Result<
        (),
        InterpretError,
    >)
        requires
            old(self).wf(),
            forall|req: NumberRequest| #[trigger] call_requires(*num, (req,)),
        ensures
            final(self).chunk == old(self).chunk,
            final(self).wf(),
            old(self).ip <= final(self).ip,
            old(self).stdout@.is_prefix_of(final(self).stdout@),
            r matches Err(e) ==> e == InterpretError::RuntimeError && final(self).stderr@.len()
                > old(self).stderr@.len() && final(self).stack@.len() == 0,
            r is Ok ==> final(self).stderr@ == old(self).stderr@,
            r is Ok ==> (final(self).ip == final(self).chunk.code@.len() || (final(self).ip >= 1
                && op_at(final(self).chunk.code@, final(self).ip - 1) == OpCode::Return)),
            !has_print_from(old(self).chunk.code@, old(self).ip as int) ==> final(self).stdout@
                == old(self).stdout@,
            (old(self).chunk.code@ == seq![OpCode::Return.byte()] && old(self).ip == 0) ==> r
                is Ok,
    {
        loop
            invariant
                self.wf(),
                self.chunk == old(self).chunk,
                self.stderr@ == old(self).stderr@,
                old(self).ip <= self.ip,
                old(self).stdout@.is_prefix_of(self.stdout@),
                forall|req: NumberRequest| #[trigger] call_requires(*num, (req,)),
                !has_print_from(old(self).chunk.code@, old(self).ip as int) ==> (!has_print_from(
                    self.chunk.code@,
                    self.ip as int,
                ) && self.stdout@ == old(self).stdout@),
                (old(self).chunk.code@ == seq![OpCode::Return.byte()] && old(self).ip == 0) ==> (
                self.ip == 0),
            decreases self.chunk.code@.len() - self.ip,
        {
            if self.ip >= self.chunk.code.len() {
                return Ok(());
            }
            let outcome = self.step(num);
            if outcome == StepOutcome::Halt {
                return Ok(());
            }
            if outcome == StepOutcome::Fault {
                return Err(InterpretError::RuntimeError);
            }
        }
    }
}

/// Compile and run a source text with the given numeric helper. Returns
/// the outcome together with what was written to standard output (one
/// entry per printed line) and to standard error (diagnostics). A
/// compile error produces no output and at least one diagnostic; so does
/// a runtime error. A source of only whitespace and comments succeeds
/// with no output at all.
pub fn interpret<F: Fn(NumberRequest) -> NumberReply>(source: String, num: &F) -> (r: (
    Result<(), InterpretError>,
    Vec<String>,
    Vec<String>,
))
    requires
        forall|req: NumberRequest| #[trigger] call_requires(*num, (req,)),
    ensures
        r.0 matches Err(e) && e == InterpretError::CompileError ==> r.1@.len() == 0 && r.2@.len()
            > 0,
        r.0 matches Err(e) && e == InterpretError::RuntimeError ==> r.2@.len() > 0,
        blank_from(source@, 0, false) ==> r.0 is Ok && r.1@.len() == 0 && r.2@.len() == 0,
        r.0 matches Err(e) ==> !blank_from(source@, 0, false),
        (first_significant(source@, 0, false) < source@.len() && starts_no_token(
            source@[first_significant(source@, 0, false)],
        )) ==> (r.0 == Err::<(), InterpretError>(InterpretError::CompileError) && r.1@.len() == 0
            && r.2@.len() > 0),
        starts_no_expression(source@) ==> (r.0 == Err::<(), InterpretError>(
            InterpretError::CompileError,
        ) && r.1@.len() == 0 && r.2@.len() > 0),
        !crate::scanner::contains_print_word(source@) ==> r.1@.len() == 0,
{
    let ghost blank = blank_from(source@, 0, false);
    let ghost no_print = !crate::scanner::contains_print_word(source@);
    let compiled = compiler::compile(source);
    let diagnostics = compiled.1;
    match compiled.0 {
        Err(e) => (Err(e), Vec::new(), diagnostics),
        Ok(chunk) => {
            proof {
                if blank {
                    assert(!has_print_from(chunk.code@, 1));
                    assert(!has_print_from(chunk.code@, 0));
                }
            }
            let mut vm = Vm::init(&chunk);
            let outcome = vm.interpret(num);
            (outcome, vm.stdout, vm.stderr)
        },
    }
}

} // verus!
