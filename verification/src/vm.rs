//! The execution engine: fetch, decode, execute, against a bounded stack.
//!
//! The machine's behaviour is defined on its model, [`Machine`]: one
//! instruction by [`Machine::step`], a whole run by [`runs_to`]. Arithmetic on
//! two numbers is not done here: [`Vm::step`] hands the operands out and
//! [`Vm::push`] takes the result, and [`Vm::run`] is given the function that
//! computes it.
use crate::chunk::{texts, Chunk, ChunkView};
use crate::opcode::OpCode;
use crate::text::{push_bytes, push_text};
use crate::value::Value;
use vstd::prelude::*;
use vstd::string::StringSliceAdditionalSpecFns;

verus! {

/// The number of values that the stack can hold.
pub const STACK_MAX: usize = 256;

/// How a run ended.
#[derive(Debug, Clone, Copy, PartialEq, Eq, Structural)]
pub enum Result {
    /// The instruction pointer reached the end of the code.
    success,
    /// An instruction could not be executed.
    runtime_error,
}

/// Why an instruction cannot be executed.
#[derive(Debug, Clone, Copy, PartialEq, Eq, Structural)]
pub enum Fault {
    /// No whole instruction stands at the instruction pointer: the byte
    /// encodes no instruction, or the operand of a `constant` is missing or
    /// is no index into the pool.
    decode,
    /// The instruction pops more values than the stack holds.
    stack_underflow,
    /// The instruction pushes onto a full stack.
    stack_overflow,
}

/// A fault, with the offset and the source line of the instruction that it
/// stopped.
#[derive(Debug, Clone, Copy, PartialEq, Eq, Structural)]
pub struct RuntimeError {
    pub fault: Fault,
    pub offset: usize,
    pub line: u32,
}

/// What one step of the machine did.
#[derive(Debug, Clone, Copy, PartialEq, Eq, Structural)]
pub enum Step {
    /// An instruction was executed inside the machine.
    next,
    /// There is no instruction left; nothing was changed.
    halt,
    /// A `ret` popped this value and appended it to the output.
    emit(Value),
    /// An arithmetic instruction popped its right and then its left operand.
    /// Its result, of the left and the right operand in this order, is to be
    /// pushed.
    apply(OpCode, Value, Value),
    /// The instruction cannot be executed; nothing was changed.
    fault(RuntimeError),
}

/// The state of the machine: the offset of the next instruction, the operand
/// stack with its top last, and the values emitted so far.
pub struct Machine {
    pub ip: int,
    pub stack: Seq<Value>,
    pub output: Seq<Value>,
}

impl Machine {
    /// The state before the first instruction.
    pub open spec fn start() -> Machine {
        Machine { ip: 0, stack: Seq::empty(), output: Seq::empty() }
    }

    /// Whether there is no instruction left to execute.
    pub open spec fn halted(self, chunk: ChunkView) -> bool {
        !(0 <= self.ip < chunk.codes.len())
    }

    /// Why the next instruction cannot be executed, if it cannot.
    pub open spec fn fault(self, chunk: ChunkView) -> Option<Fault> {
        if self.halted(chunk) {
            None
        } else if !chunk.decodes_at(self.ip) {
            Some(Fault::decode)
        } else {
            match chunk.opcode_at(self.ip)->0 {
                OpCode::constant => if self.stack.len() >= STACK_MAX {
                    Some(Fault::stack_overflow)
                } else {
                    None
                },
                OpCode::neg | OpCode::ret => if self.stack.len() < 1 {
                    Some(Fault::stack_underflow)
                } else {
                    None
                },
                OpCode::add | OpCode::sub | OpCode::mul | OpCode::div => if self.stack.len() < 2 {
                    Some(Fault::stack_underflow)
                } else {
                    None
                },
            }
        }
    }

    /// The fault of the next instruction, with its offset and source line.
    pub open spec fn error(self, chunk: ChunkView) -> Option<RuntimeError> {
        match self.fault(chunk) {
            Some(fault) => Some(
                RuntimeError { fault, offset: self.ip as usize, line: chunk.lines[self.ip] },
            ),
            None => None,
        }
    }

    /// The state with `value` on top of the stack.
    pub open spec fn pushed(self, value: Value) -> Machine {
        Machine { stack: self.stack.push(value), ..self }
    }

    /// One step: the state after it, and what it did. At the end of the code
    /// and on a fault the state stays as it is. `constant` pushes the
    /// constant it refers to; `neg` replaces the top by its negation; `ret`
    /// moves the top to the output; an arithmetic instruction pops two
    /// values and leaves it to `apply` what is pushed in their place.
    pub open spec fn step(self, chunk: ChunkView) -> (Machine, Step) {
        if self.halted(chunk) {
            (self, Step::halt)
        } else if self.fault(chunk) is Some {
            (self, Step::fault(self.error(chunk)->0))
        } else {
            let depth = self.stack.len() as int;
            match chunk.opcode_at(self.ip)->0 {
                OpCode::constant => (
                    Machine {
                        ip: self.ip + 2,
                        stack: self.stack.push(chunk.constant_at(self.ip)),
                        ..self
                    },
                    Step::next,
                ),
                OpCode::neg => (
                    Machine {
                        ip: self.ip + 1,
                        stack: self.stack.drop_last().push(self.stack.last().spec_neg()),
                        ..self
                    },
                    Step::next,
                ),
                OpCode::ret => (
                    Machine {
                        ip: self.ip + 1,
                        stack: self.stack.drop_last(),
                        output: self.output.push(self.stack.last()),
                    },
                    Step::emit(self.stack.last()),
                ),
                op => (
                    Machine { ip: self.ip + 1, stack: self.stack.take(depth - 2), ..self },
                    Step::apply(op, self.stack[depth - 2], self.stack[depth - 1]),
                ),
            }
        }
    }
}

/// A run of the machine on `chunk` from state `from` can end in state `end`
/// with outcome `outcome`, where `alu` computes the arithmetic: the run ends
/// with `success` in the state in which no instruction is left, and with
/// `runtime_error` in the state in which the next instruction is at fault;
/// every other step is followed by the rest of the run, an arithmetic step
/// after a result of `alu` for its operands has been pushed.
pub open spec fn runs_to<F: Fn(OpCode, Value, Value) -> Value>(
    alu: F,
    chunk: ChunkView,
    from: Machine,
    end: Machine,
    outcome: Result,
) -> bool
    decreases chunk.codes.len() - from.ip,
{
    let (after, step) = from.step(chunk);
    match step {
        Step::halt => end == from && outcome == Result::success,
        Step::fault(_) => end == from && outcome == Result::runtime_error,
        Step::next => runs_to(alu, chunk, after, end, outcome),
        Step::emit(_) => runs_to(alu, chunk, after, end, outcome),
        Step::apply(op, left, right) => exists|result: Value|
            #[trigger] call_ensures(alu, (op, left, right), result) && runs_to(
                alu,
                chunk,
                after.pushed(result),
                end,
                outcome,
            ),
    }
}

/// What a run leaves behind. A run that succeeds ends where no instruction
/// is left; a run that fails ends before the instruction at fault, which can
/// then be asked for. Either way the instruction pointer has not gone back
/// and the output has only grown.
pub proof fn lemma_run_outcome<F: Fn(OpCode, Value, Value) -> Value>(
    alu: F,
    chunk: ChunkView,
    from: Machine,
    end: Machine,
    outcome: Result,
)
    requires
        runs_to(alu, chunk, from, end, outcome),
    ensures
        outcome == Result::success <==> end.halted(chunk),
        outcome == Result::runtime_error <==> end.fault(chunk) is Some,
        from.ip <= end.ip,
        from.output.is_prefix_of(end.output),
    decreases chunk.codes.len() - from.ip,
{
    let (after, step) = from.step(chunk);
    match step {
        Step::halt => {},
        Step::fault(_) => {},
        Step::next => {
            lemma_run_outcome(alu, chunk, after, end, outcome);
        },
        Step::emit(_) => {
            lemma_run_outcome(alu, chunk, after, end, outcome);
        },
        Step::apply(op, left, right) => {
            let result = choose|result: Value|
                #[trigger] call_ensures(alu, (op, left, right), result) && runs_to(
                    alu,
                    chunk,
                    after.pushed(result),
                    end,
                    outcome,
                );
            lemma_run_outcome(alu, chunk, after.pushed(result), end, outcome);
        },
    }
}

/// With arithmetic that gives one result for given operands, a run has one
/// end: the final state and the outcome are determined by the chunk and the
/// state from which the run starts.
pub proof fn lemma_run_deterministic<F: Fn(OpCode, Value, Value) -> Value>(
    alu: F,
    chunk: ChunkView,
    from: Machine,
    end1: Machine,
    outcome1: Result,
    end2: Machine,
    outcome2: Result,
)
    requires
        forall|op: OpCode, left: Value, right: Value, r1: Value, r2: Value|
            call_ensures(alu, (op, left, right), r1) && call_ensures(alu, (op, left, right), r2)
                ==> r1 == r2,
        runs_to(alu, chunk, from, end1, outcome1),
        runs_to(alu, chunk, from, end2, outcome2),
    ensures
        end1 == end2,
        outcome1 == outcome2,
    decreases chunk.codes.len() - from.ip,
{
    let (after, step) = from.step(chunk);
    match step {
        Step::halt => {},
        Step::fault(_) => {},
        Step::next => {
            lemma_run_deterministic(alu, chunk, after, end1, outcome1, end2, outcome2);
        },
        Step::emit(_) => {
            lemma_run_deterministic(alu, chunk, after, end1, outcome1, end2, outcome2);
        },
        Step::apply(op, left, right) => {
            let r1 = choose|result: Value|
                #[trigger] call_ensures(alu, (op, left, right), result) && runs_to(
                    alu,
                    chunk,
                    after.pushed(result),
                    end1,
                    outcome1,
                );
            let r2 = choose|result: Value|
                #[trigger] call_ensures(alu, (op, left, right), result) && runs_to(
                    alu,
                    chunk,
                    after.pushed(result),
                    end2,
                    outcome2,
                );
            lemma_run_deterministic(
                alu,
                chunk,
                after.pushed(r1),
                end1,
                outcome1,
                end2,
                outcome2,
            );
        },
    }
}

/// The cells of a traced stack: each value's text between two spaces.
pub open spec fn stack_cells(stack_text: Seq<Seq<u8>>, count: int) -> Seq<u8>
    decreases count,
{
    if count <= 0 {
        Seq::empty()
    } else {
        stack_cells(stack_text, count - 1) + " ".spec_bytes() + stack_text[count - 1]
            + " ".spec_bytes()
    }
}

/// A trace entry: the stack between brackets on a line of its own, bottom
/// first, then the listing line of the instruction about to be executed.
pub open spec fn trace_text(stack_text: Seq<Seq<u8>>, line: Seq<u8>) -> Seq<u8> {
    "[ ".spec_bytes() + stack_cells(stack_text, stack_text.len() as int) + " ]".spec_bytes()
        + "\n".spec_bytes() + line
}

/// The virtual machine: a chunk, an instruction pointer into it, the operand
/// stack and the output.
pub struct Vm {
    pub chunk: Chunk,
    stack: Vec<Value>,
    ip: usize,
    output: Vec<Value>,
}

impl View for Vm {
    type V = Machine;

    closed spec fn view(&self) -> Machine {
        Machine { ip: self.ip as int, stack: self.stack@, output: self.output@ }
    }
}

impl Vm {
    /// The chunk that the machine executes.
    pub closed spec fn program(&self) -> ChunkView {
        self.chunk@
    }

    /// The chunk has a line for each byte and the stack is within its
    /// capacity.
    pub open spec fn wf(&self) -> bool {
        &&& self.program().wf()
        &&& self@.stack.len() <= STACK_MAX
    }

    /// A machine with an empty chunk, in the start state.
    pub fn default() -> (vm: Vm)
        ensures
            vm.program() == ChunkView::empty(),
            vm@ == Machine::start(),
            vm.wf(),
    {
        Vm { chunk: Chunk::new(), stack: Vec::with_capacity(STACK_MAX), ip: 0, output: Vec::new() }
    }

    /// Binds `chunk`, puts the machine into the start state and runs it to
    /// its end.
    pub fn interpret<F: Fn(OpCode, Value, Value) -> Value>(&mut self, chunk: Chunk, alu: F) -> (outcome:
        Result)
        requires
            chunk@.wf(),
            forall|op: OpCode, left: Value, right: Value|
                op.spec_is_binary() ==> call_requires(alu, (op, left, right)),
        ensures
            final(self).wf(),
            final(self).program() == chunk@,
            runs_to(alu, chunk@, Machine::start(), final(self)@, outcome),
            outcome == Result::success <==> final(self)@.halted(chunk@),
            outcome == Result::runtime_error <==> final(self)@.error(chunk@) is Some,
    {
        self.chunk = chunk;
        self.ip = 0;
        self.stack.clear();
        self.output.clear();
        return self.run(alu);
    }

    /// Reads the byte at the instruction pointer and moves the pointer past
    /// it.
    #[inline]
    pub fn read_byte(&mut self) -> (byte: u8)
        requires
            0 <= old(self)@.ip < old(self).program().codes.len(),
        ensures
            byte == old(self).program().codes[old(self)@.ip],
            final(self)@ == (Machine { ip: old(self)@.ip + 1, ..old(self)@ }),
            final(self).program() == old(self).program(),
    {
        let inst = self.chunk.codes[self.ip];
        assert(self.ip < self.chunk.codes.len());
        self.ip += 1;
        return inst;
    }

    /// Reads the byte at the instruction pointer as an index into the pool,
    /// moves the pointer past it and returns the constant.
    #[inline]
    pub fn read_constant(&mut self) -> (value: Value)
        requires
            0 <= old(self)@.ip < old(self).program().codes.len(),
            old(self).program().codes[old(self)@.ip] < old(self).program().values.len(),
        ensures
            value == old(self).program().values[old(self).program().codes[old(self)@.ip] as int],
            final(self)@ == (Machine { ip: old(self)@.ip + 1, ..old(self)@ }),
            final(self).program() == old(self).program(),
    {
        let index = self.read_byte();
        return self.chunk.values[index as usize];
    }

    /// The trace entry for the instruction about to be executed: the stack,
    /// then the instruction's listing line. `stack_text` holds the printed
    /// form of each value on the stack, bottom first, and `pool_text` that of
    /// each constant. `None` is returned where no whole instruction stands at
    /// the instruction pointer.
    #[inline]
    pub fn trace_execute(&self, stack_text: &Vec<Vec<u8>>, pool_text: &Vec<Vec<u8>>) -> (entry:
        Option<Vec<u8>>)
        requires
            self.wf(),
            stack_text@.len() == self@.stack.len(),
            pool_text@.len() == self.program().values.len(),
        ensures
            match entry {
                Some(text) => {
                    &&& self.program().decodes_at(self@.ip)
                    &&& text@ == trace_text(
                        texts(stack_text),
                        self.program().line_text(self@.ip, texts(pool_text)),
                    )
                },
                None => !self.program().decodes_at(self@.ip),
            },
    {
        let line = match self.chunk.disassemble_inst(self.ip, pool_text) {
            Some((line, _)) => line,
            None => {
                return None;
            },
        };
        let mut out: Vec<u8> = Vec::new();
        push_text(&mut out, "[ ");
        let mut i: usize = 0;
        while i < stack_text.len()
            invariant
                i <= stack_text@.len(),
                out@ == "[ ".spec_bytes() + stack_cells(texts(stack_text), i as int),
            decreases stack_text@.len() - i,
        {
            push_text(&mut out, " ");
            push_bytes(&mut out, stack_text[i].as_slice());
            push_text(&mut out, " ");
            i += 1;
            assert(out@ =~= "[ ".spec_bytes() + stack_cells(texts(stack_text), i as int));
        }
        push_text(&mut out, " ]");
        push_text(&mut out, "\n");
        push_bytes(&mut out, line.as_slice());
        Some(out)
    }

    /// The fault of the instruction about to be executed, with its offset and
    /// source line; `None` where the instruction can be executed or none is
    /// left. After a run that ended in `runtime_error` this is the error that
    /// ended it.
    pub fn fault(&self) -> (error: Option<RuntimeError>)
        requires
            self.wf(),
        ensures
            error == self@.error(self.program()),
    {
        if self.ip >= self.chunk.codes.len() {
            return None;
        }
        let fault = match OpCode::decode(self.chunk.codes[self.ip]) {
            None => Some(Fault::decode),
            Some(OpCode::constant) => {
                if self.ip + 1 >= self.chunk.codes.len() {
                    Some(Fault::decode)
                } else if self.chunk.codes[self.ip + 1] as usize >= self.chunk.values.len() {
                    Some(Fault::decode)
                } else if self.stack.len() >= STACK_MAX {
                    Some(Fault::stack_overflow)
                } else {
                    None
                }
            },
            Some(OpCode::neg) | Some(OpCode::ret) => {
                if self.stack.len() < 1 {
                    Some(Fault::stack_underflow)
                } else {
                    None
                }
            },
            Some(_) => {
                if self.stack.len() < 2 {
                    Some(Fault::stack_underflow)
                } else {
                    None
                }
            },
        };
        match fault {
            Some(fault) => Some(
                RuntimeError { fault, offset: self.ip, line: self.chunk.lines[self.ip] },
            ),
            None => None,
        }
    }

    /// Executes one instruction, or finds that none can be executed. After
    /// `apply` the stack lacks the two operands, and the result is to be
    /// handed to `push`.
    pub fn step(&mut self) -> (step: Step)
        requires
            old(self).wf(),
        ensures
            (final(self)@, step) == old(self)@.step(old(self).program()),
            final(self).program() == old(self).program(),
            final(self).wf(),
            step is apply ==> final(self)@.stack.len() < STACK_MAX,
    {
        if self.ip >= self.chunk.codes.len() {
            return Step::halt;
        }
        match self.fault() {
            Some(error) => {
                return Step::fault(error);
            },
            None => {},
        }
        let inst = self.read_byte();
        match OpCode::decode(inst) {
            Some(OpCode::constant) => {
                let value = self.read_constant();
                self.stack.push(value);
                Step::next
            },
            Some(OpCode::neg) => {
                let value = self.stack.pop().unwrap();
                self.stack.push(value.neg());
                Step::next
            },
            Some(OpCode::ret) => {
                let value = self.stack.pop().unwrap();
                self.output.push(value);
                Step::emit(value)
            },
            Some(op) => {
                let rhs = self.stack.pop().unwrap();
                let lhs = self.stack.pop().unwrap();
                assert(self.stack@ =~= old(self).stack@.take(old(self).stack@.len() - 2));
                Step::apply(op, lhs, rhs)
            },
            None => Step::halt,
        }
    }

    /// Pushes `value`, unless the stack is full: then nothing is changed and
    /// `false` is returned.
    pub fn push(&mut self, value: Value) -> (pushed: bool)
        requires
            old(self).wf(),
        ensures
            pushed == (old(self)@.stack.len() < STACK_MAX),
            final(self)@ == (if pushed {
                old(self)@.pushed(value)
            } else {
                old(self)@
            }),
            final(self).program() == old(self).program(),
            final(self).wf(),
    {
        if self.stack.len() >= STACK_MAX {
            return false;
        }
        self.stack.push(value);
        true
    }

    /// Runs the machine from its present state until no instruction is left
    /// or one cannot be executed. For each arithmetic instruction `alu` is
    /// called once, with the instruction and its left and right operand, and
    /// its result is pushed. The values of `ret` instructions are appended to
    /// the output in the order in which they were executed.
    pub fn run<F: Fn(OpCode, Value, Value) -> Value>(&mut self, alu: F) -> (outcome: Result)
        requires
            old(self).wf(),
            forall|op: OpCode, left: Value, right: Value|
                op.spec_is_binary() ==> call_requires(alu, (op, left, right)),
        ensures
            final(self).wf(),
            final(self).program() == old(self).program(),
            runs_to(alu, old(self).program(), old(self)@, final(self)@, outcome),
            outcome == Result::success <==> final(self)@.halted(final(self).program()),
            outcome == Result::runtime_error <==> final(self)@.error(final(self).program())
                is Some,
    {
        let ghost chunk = self.program();
        loop
            invariant
                self.wf(),
                self.program() == chunk,
                chunk == old(self).program(),
                forall|op: OpCode, left: Value, right: Value|
                    op.spec_is_binary() ==> call_requires(alu, (op, left, right)),
                forall|end: Machine, outcome: Result| #[trigger]
                    runs_to(alu, chunk, self@, end, outcome) ==> runs_to(
                        alu,
                        chunk,
                        old(self)@,
                        end,
                        outcome,
                    ),
            decreases chunk.codes.len() - self@.ip,
        {
            let ghost before = self@;
            match self.step() {
                Step::halt => {
                    assert(runs_to(alu, chunk, before, before, Result::success));
                    return Result::success;
                },
                Step::fault(_) => {
                    assert(runs_to(alu, chunk, before, before, Result::runtime_error));
                    return Result::runtime_error;
                },
                Step::next => {},
                Step::emit(_) => {},
                Step::apply(op, lhs, rhs) => {
                    let result = alu(op, lhs, rhs);
                    self.push(result);
                },
            }
            assert forall|end: Machine, outcome: Result| #[trigger]
                runs_to(alu, chunk, self@, end, outcome) implies runs_to(
                alu,
                chunk,
                old(self)@,
                end,
                outcome,
            ) by {
                assert(runs_to(alu, chunk, before, end, outcome));
            }
        }
    }

    /// The offset of the instruction about to be executed.
    pub fn ip(&self) -> (ip: usize)
        ensures
            ip == self@.ip,
    {
        self.ip
    }

    /// The operand stack, its top last.
    pub fn stack(&self) -> (stack: &Vec<Value>)
        ensures
            stack@ == self@.stack,
    {
        &self.stack
    }

    /// The values emitted so far, the first emitted first.
    pub fn output(&self) -> (output: &Vec<Value>)
        ensures
            output@ == self@.output,
    {
        &self.output
    }
}

} // verus!
