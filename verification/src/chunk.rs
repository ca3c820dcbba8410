//! The bytecode container and its disassembler.
//!
//! A chunk holds the instruction bytes, one source line for each byte, and the
//! constant pool. Its mathematical model is [`ChunkView`]; decoding and the
//! text of a listing are defined there, and the executable functions are
//! proved against it.
use crate::opcode::OpCode;
use crate::text::{line_count, padded, push_bytes, push_padded, push_text};
use crate::text::{lemma_line_count_concat, lemma_line_count_none, lemma_padded_one_line};
use crate::value::Value;
use vstd::prelude::*;
use vstd::string::StringSliceAdditionalSpecFns;

verus! {

/// A compiled unit: instruction bytes, the source line of each byte, and the
/// constants that `constant` instructions refer to by index.
pub struct Chunk {
    pub codes: Vec<u8>,
    pub lines: Vec<u32>,
    pub values: Vec<Value>,
}

/// What a chunk holds, as sequences.
pub struct ChunkView {
    pub codes: Seq<u8>,
    pub lines: Seq<u32>,
    pub values: Seq<Value>,
}

impl View for Chunk {
    type V = ChunkView;

    open spec fn view(&self) -> ChunkView {
        ChunkView { codes: self.codes@, lines: self.lines@, values: self.values@ }
    }
}

/// The printed forms of the constants of a pool, one text for each constant.
pub open spec fn texts(pool_text: &Vec<Vec<u8>>) -> Seq<Seq<u8>> {
    Seq::new(pool_text@.len(), |i: int| pool_text@[i]@)
}

/// The first line of a listing: the name between two pairs of equal signs.
pub open spec fn banner(name: Seq<u8>) -> Seq<u8> {
    "== ".spec_bytes() + name + " ==\n".spec_bytes()
}

impl ChunkView {
    /// Every instruction byte has its source line.
    pub open spec fn wf(self) -> bool {
        self.lines.len() == self.codes.len()
    }

    /// The chunk with one more byte, written on `line`.
    pub open spec fn with_code(self, code: u8, line: u32) -> ChunkView {
        ChunkView { codes: self.codes.push(code), lines: self.lines.push(line), ..self }
    }

    /// The chunk with the bytes of `pairs` appended in order, each with its
    /// line.
    pub open spec fn with_codes(self, pairs: Seq<(u8, u32)>) -> ChunkView {
        ChunkView {
            codes: self.codes + Seq::new(pairs.len(), |i: int| pairs[i].0),
            lines: self.lines + Seq::new(pairs.len(), |i: int| pairs[i].1),
            ..self
        }
    }

    /// The chunk with `value` appended to the pool.
    pub open spec fn with_constant(self, value: Value) -> ChunkView {
        ChunkView { values: self.values.push(value), ..self }
    }

    /// The chunk that holds nothing.
    pub open spec fn empty() -> ChunkView {
        ChunkView { codes: Seq::empty(), lines: Seq::empty(), values: Seq::empty() }
    }

    /// The instruction whose byte stands at `offset`, if that byte encodes
    /// one.
    pub open spec fn opcode_at(self, offset: int) -> Option<OpCode> {
        if 0 <= offset < self.codes.len() {
            OpCode::spec_decode(self.codes[offset])
        } else {
            None
        }
    }

    /// The operand byte of the instruction at `offset`.
    pub open spec fn operand_at(self, offset: int) -> u8 {
        self.codes[offset + 1]
    }

    /// The constant that the instruction at `offset` refers to.
    pub open spec fn constant_at(self, offset: int) -> Value {
        self.values[self.operand_at(offset) as int]
    }

    /// Whether a whole instruction stands at `offset`: its byte encodes an
    /// instruction, and where that is `constant`, the operand byte is there
    /// and is an index into the pool.
    pub open spec fn decodes_at(self, offset: int) -> bool {
        match self.opcode_at(offset) {
            None => false,
            Some(OpCode::constant) => offset + 1 < self.codes.len() && self.operand_at(offset)
                < self.values.len(),
            Some(_) => true,
        }
    }

    /// The offset of the instruction after the one at `offset`.
    pub open spec fn next_offset(self, offset: int) -> int {
        match self.opcode_at(offset) {
            Some(op) => offset + 1 + op.spec_operand_width(),
            None => offset + 1,
        }
    }

    /// Whether the bytes from `from` to the end are a sequence of whole
    /// instructions.
    pub open spec fn well_encoded(self, from: int) -> bool
        decreases self.codes.len() - from,
    {
        if 0 <= from < self.codes.len() {
            self.decodes_at(from) && self.well_encoded(self.next_offset(from))
        } else {
            true
        }
    }

    /// The number of whole instructions that are decoded one after another
    /// from `from` on.
    pub open spec fn instruction_count(self, from: int) -> nat
        decreases self.codes.len() - from,
    {
        if 0 <= from < self.codes.len() && self.decodes_at(from) {
            1 + self.instruction_count(self.next_offset(from))
        } else {
            0
        }
    }

    /// The line column of a listing: the line of the byte at `offset`, four
    /// wide, or a bar where the byte before it is on the same line.
    pub open spec fn line_mark(self, offset: int) -> Seq<u8> {
        if offset > 0 && self.lines[offset] == self.lines[offset - 1] {
            "   | ".spec_bytes()
        } else {
            padded(self.lines[offset] as nat, 4, ' ' as u8) + " ".spec_bytes()
        }
    }

    /// One line of a listing, for the instruction at `offset`: the offset in
    /// four digits, the line column, the instruction's name and, for
    /// `constant`, a tab, the operand four wide and the constant's text
    /// between single quotes. The line ends with a line feed.
    pub open spec fn line_text(self, offset: int, pool: Seq<Seq<u8>>) -> Seq<u8> {
        let head = padded(offset as nat, 4, '0' as u8) + " ".spec_bytes() + self.line_mark(offset);
        match self.opcode_at(offset) {
            Some(OpCode::constant) => head + OpCode::constant.name() + "\t".spec_bytes() + padded(
                self.operand_at(offset) as nat,
                4,
                ' ' as u8,
            ) + " '".spec_bytes() + pool[self.operand_at(offset) as int] + "'\n".spec_bytes(),
            Some(op) => head + op.name() + "\n".spec_bytes(),
            None => head,
        }
    }

    /// The lines of the instructions that are decoded one after another from
    /// `from` on.
    pub open spec fn listing(self, from: int, pool: Seq<Seq<u8>>) -> Seq<u8>
        decreases self.codes.len() - from,
    {
        if 0 <= from < self.codes.len() && self.decodes_at(from) {
            self.line_text(from, pool) + self.listing(self.next_offset(from), pool)
        } else {
            Seq::empty()
        }
    }

    /// The whole listing under `name`, if the chunk is a sequence of whole
    /// instructions.
    pub open spec fn disassembly(self, name: Seq<u8>, pool: Seq<Seq<u8>>) -> Option<Seq<u8>> {
        if self.well_encoded(0) {
            Some(banner(name) + self.listing(0, pool))
        } else {
            None
        }
    }
}

/// A text without line feeds: what the printed form of a constant must be
/// for a listing to have one line for each instruction.
pub open spec fn one_line(text: Seq<u8>) -> bool {
    forall|i: int| 0 <= i < text.len() ==> text[i] != '\n' as u8
}

/// The bytes of an ASCII literal are its characters.
proof fn lemma_ascii_bytes(s: &str)
    requires
        s.is_ascii(),
    ensures
        s.spec_bytes().len() == s@.len(),
        forall|i: int| 0 <= i < s@.len() ==> s.spec_bytes()[i] == s@[i] as u8,
{
    vstd::string::is_ascii_spec_bytes(s);
}

/// The name of an instruction holds no line feed.
proof fn lemma_name_one_line(op: OpCode)
    ensures
        line_count(op.name()) == 0,
{
    reveal_strlit("constant");
    reveal_strlit("neg");
    reveal_strlit("add");
    reveal_strlit("sub");
    reveal_strlit("mul");
    reveal_strlit("div");
    reveal_strlit("ret");
    lemma_ascii_bytes("constant");
    lemma_ascii_bytes("neg");
    lemma_ascii_bytes("add");
    lemma_ascii_bytes("sub");
    lemma_ascii_bytes("mul");
    lemma_ascii_bytes("div");
    lemma_ascii_bytes("ret");
    lemma_line_count_none(op.name());
}

/// The line of a decoded instruction is one line: its only line feed is
/// its last byte.
proof fn lemma_line_text_one_line(chunk: ChunkView, offset: int, pool: Seq<Seq<u8>>)
    requires
        chunk.wf(),
        chunk.decodes_at(offset),
        forall|i: int| 0 <= i < pool.len() ==> one_line(#[trigger] pool[i]),
        chunk.values.len() <= pool.len(),
    ensures
        line_count(chunk.line_text(offset, pool)) == 1,
{
    reveal_strlit(" ");
    reveal_strlit("   | ");
    reveal_strlit("\t");
    reveal_strlit(" '");
    reveal_strlit("'\n");
    reveal_strlit("\n");
    lemma_ascii_bytes(" ");
    lemma_ascii_bytes("   | ");
    lemma_ascii_bytes("\t");
    lemma_ascii_bytes(" '");
    lemma_ascii_bytes("'\n");
    lemma_ascii_bytes("\n");
    let space = " ".spec_bytes();
    let offset_text = padded(offset as nat, 4, '0' as u8);
    let mark = chunk.line_mark(offset);
    lemma_padded_one_line(offset as nat, 4, '0' as u8);
    lemma_line_count_none(space);
    assert(line_count(mark) == 0) by {
        if offset > 0 && chunk.lines[offset] == chunk.lines[offset - 1] {
            lemma_line_count_none("   | ".spec_bytes());
        } else {
            lemma_padded_one_line(chunk.lines[offset] as nat, 4, ' ' as u8);
            lemma_line_count_concat(padded(chunk.lines[offset] as nat, 4, ' ' as u8), space);
        }
    }
    let head = offset_text + space + mark;
    lemma_line_count_concat(offset_text, space);
    lemma_line_count_concat(offset_text + space, mark);
    let op = chunk.opcode_at(offset)->0;
    lemma_name_one_line(op);
    lemma_line_count_concat(head, op.name());
    if op == OpCode::constant {
        let index = chunk.operand_at(offset);
        let tab = "\t".spec_bytes();
        let operand = padded(index as nat, 4, ' ' as u8);
        let open = " '".spec_bytes();
        let close = "'\n".spec_bytes();
        lemma_line_count_none(tab);
        lemma_padded_one_line(index as nat, 4, ' ' as u8);
        lemma_line_count_none(open);
        lemma_line_count_none(pool[index as int]);
        assert(line_count(close) == 1) by {
            assert(close.drop_last() =~= seq!['\'' as u8]);
            lemma_line_count_none(close.drop_last());
        }
        lemma_line_count_concat(head + op.name(), tab);
        lemma_line_count_concat(head + op.name() + tab, operand);
        lemma_line_count_concat(head + op.name() + tab + operand, open);
        lemma_line_count_concat(head + op.name() + tab + operand + open, pool[index as int]);
        lemma_line_count_concat(
            head + op.name() + tab + operand + open + pool[index as int],
            close,
        );
    } else {
        let end = "\n".spec_bytes();
        assert(line_count(end) == 1) by {
            lemma_line_count_none(end.drop_last());
        }
        lemma_line_count_concat(head + op.name(), end);
    }
}

/// A listing has as many lines as instructions are decoded: one line for
/// each, where the printed form of no constant holds a line feed.
pub proof fn lemma_listing_lines(chunk: ChunkView, from: int, pool: Seq<Seq<u8>>)
    requires
        chunk.wf(),
        forall|i: int| 0 <= i < pool.len() ==> one_line(#[trigger] pool[i]),
        chunk.values.len() <= pool.len(),
    ensures
        line_count(chunk.listing(from, pool)) == chunk.instruction_count(from),
    decreases chunk.codes.len() - from,
{
    if 0 <= from < chunk.codes.len() && chunk.decodes_at(from) {
        lemma_line_text_one_line(chunk, from, pool);
        lemma_listing_lines(chunk, chunk.next_offset(from), pool);
        lemma_line_count_concat(
            chunk.line_text(from, pool),
            chunk.listing(chunk.next_offset(from), pool),
        );
    }
}

/// The listing of a whole chunk has one line for the banner and one for each
/// instruction, where neither the name nor the printed form of a constant
/// holds a line feed.
pub proof fn lemma_disassembly_lines(chunk: ChunkView, name: Seq<u8>, pool: Seq<Seq<u8>>)
    requires
        chunk.wf(),
        one_line(name),
        forall|i: int| 0 <= i < pool.len() ==> one_line(#[trigger] pool[i]),
        chunk.values.len() <= pool.len(),
        chunk.disassembly(name, pool) is Some,
    ensures
        line_count(chunk.disassembly(name, pool)->0) == 1 + chunk.instruction_count(0),
{
    reveal_strlit("== ");
    reveal_strlit(" ==\n");
    lemma_ascii_bytes("== ");
    lemma_ascii_bytes(" ==\n");
    let open = "== ".spec_bytes();
    let close = " ==\n".spec_bytes();
    lemma_line_count_none(open);
    lemma_line_count_none(name);
    assert(line_count(close) == 1) by {
        lemma_line_count_none(close.drop_last());
    }
    lemma_line_count_concat(open, name);
    lemma_line_count_concat(open + name, close);
    lemma_listing_lines(chunk, 0, pool);
    lemma_line_count_concat(banner(name), chunk.listing(0, pool));
}

/// Disassembling is repeatable: two listings of one chunk, under one name and
/// with the same printed constants, are equal byte for byte, and both exist
/// or neither does.
pub proof fn lemma_disassembly_repeatable(
    chunk: ChunkView,
    name: Seq<u8>,
    pool: Seq<Seq<u8>>,
    first: Option<Seq<u8>>,
    second: Option<Seq<u8>>,
)
    requires
        first == chunk.disassembly(name, pool),
        second == chunk.disassembly(name, pool),
    ensures
        first == second,
        first is Some ==> first->0.len() == second->0.len() && forall|i: int|
            0 <= i < first->0.len() ==> first->0[i] == second->0[i],
{
}

/// Writing a `constant` instruction and reading it back: after `value` has
/// been added to the pool at index `index`, and the instruction's byte and
/// then `index` have been written, a whole instruction stands where the first
/// of the two bytes was written; it is `constant`, its operand is `index`, and
/// the constant it refers to is `value`.
pub proof fn lemma_constant_round_trip(chunk: ChunkView, value: Value, line: u32)
    requires
        chunk.values.len() <= u8::MAX,
    ensures
        ({
            let index = chunk.values.len() as u8;
            let offset = chunk.codes.len() as int;
            let written = chunk.with_constant(value).with_code(
                OpCode::constant.spec_byte(),
                line,
            ).with_code(index, line);
            &&& written.decodes_at(offset)
            &&& written.opcode_at(offset) == Some(OpCode::constant)
            &&& written.operand_at(offset) == index
            &&& written.constant_at(offset) == value
            &&& written.next_offset(offset) == written.codes.len()
            &&& written.values[index as int] == value
        }),
{
}

/// Appending bytes leaves what was decoded before as it was: an instruction
/// that stood whole at `offset` still stands there, unchanged.
pub proof fn lemma_append_keeps_instruction(chunk: ChunkView, offset: int, code: u8, line: u32)
    requires
        chunk.decodes_at(offset),
    ensures
        chunk.with_code(code, line).decodes_at(offset),
        chunk.with_code(code, line).opcode_at(offset) == chunk.opcode_at(offset),
        chunk.opcode_at(offset) == Some(OpCode::constant) ==> chunk.with_code(
            code,
            line,
        ).constant_at(offset) == chunk.constant_at(offset),
{
}

impl Chunk {
    /// A chunk that holds nothing.
    pub fn new() -> (chunk: Chunk)
        ensures
            chunk@ == ChunkView::empty(),
    {
        Chunk { codes: Vec::new(), lines: Vec::new(), values: Vec::new() }
    }

    /// Appends the bytes of `codes` in order, each with its line.
    pub fn write_codes(&mut self, codes: &[(u8, u32)])
        ensures
            final(self)@ == old(self)@.with_codes(codes@),
            old(self)@.wf() ==> final(self)@.wf(),
    {
        let mut i: usize = 0;
        while i < codes.len()
            invariant
                i <= codes@.len(),
                self.values@ == old(self).values@,
                self.codes@ == old(self).codes@ + Seq::new(i as nat, |k: int| codes@[k].0),
                self.lines@ == old(self).lines@ + Seq::new(i as nat, |k: int| codes@[k].1),
            decreases codes@.len() - i,
        {
            let (code, line) = codes[i];
            self.codes.push(code);
            self.lines.push(line);
            i += 1;
            assert(self.codes@ =~= old(self).codes@ + Seq::new(i as nat, |k: int| codes@[k].0));
            assert(self.lines@ =~= old(self).lines@ + Seq::new(i as nat, |k: int| codes@[k].1));
        }
    }

    /// Appends one instruction or operand byte and its source line.
    pub fn write_code(&mut self, code: u8, line: u32)
        ensures
            final(self)@ == old(self)@.with_code(code, line),
            old(self)@.wf() ==> final(self)@.wf(),
    {
        self.codes.push(code);
        self.lines.push(line);
    }

    /// Appends `value` to the pool and returns its index. Indices are given
    /// in order and never again; equal values get an index each.
    pub fn write_constant(&mut self, value: Value) -> (index: usize)
        ensures
            final(self)@ == old(self)@.with_constant(value),
            index == old(self)@.values.len(),
            final(self)@.values[index as int] == value,
    {
        self.values.push(value);
        return self.values.len() - 1;
    }

    /// Empties the instruction bytes, the lines and the pool.
    pub fn clear(&mut self)
        ensures
            final(self)@ == ChunkView::empty(),
    {
        self.codes.clear();
        self.lines.clear();
        self.values.clear();
    }

    /// The listing of the whole chunk: a banner with `name`, then one line
    /// for each instruction from offset 0 on. `pool_text` holds the printed
    /// form of each constant of the pool. `None` is returned where the bytes
    /// are not a sequence of whole instructions.
    pub fn disassemble(&self, name: &str, pool_text: &Vec<Vec<u8>>) -> (listing: Option<Vec<u8>>)
        requires
            self@.wf(),
            pool_text@.len() == self@.values.len(),
        ensures
            match listing {
                Some(text) => Some(text@) == self@.disassembly(name.spec_bytes(), texts(pool_text)),
                None => self@.disassembly(name.spec_bytes(), texts(pool_text)) is None,
            },
    {
        let mut out: Vec<u8> = Vec::new();
        push_text(&mut out, "== ");
        push_text(&mut out, name);
        push_text(&mut out, " ==\n");
        assert(out@ =~= banner(name.spec_bytes()));
        let mut offset: usize = 0;
        while offset < self.codes.len()
            invariant
                self@.wf(),
                pool_text@.len() == self@.values.len(),
                self@.well_encoded(0) == self@.well_encoded(offset as int),
                banner(name.spec_bytes()) + self@.listing(0, texts(pool_text)) == out@
                    + self@.listing(offset as int, texts(pool_text)),
            decreases self.codes@.len() - offset,
        {
            match self.disassemble_inst(offset, pool_text) {
                Some((line, next)) => {
                    push_bytes(&mut out, line.as_slice());
                    assert(out@ + self@.listing(next as int, texts(pool_text)) =~= banner(
                        name.spec_bytes(),
                    ) + self@.listing(0, texts(pool_text)));
                    offset = next;
                },
                None => {
                    return None;
                },
            }
        }
        assert(out@ =~= banner(name.spec_bytes()) + self@.listing(0, texts(pool_text)));
        Some(out)
    }

    /// The listing line of the instruction at `offset`, and the offset of the
    /// instruction after it. `None` is returned where no whole instruction
    /// stands at `offset`.
    pub fn disassemble_inst(&self, offset: usize, pool_text: &Vec<Vec<u8>>) -> (decoded: Option<
        (Vec<u8>, usize),
    >)
        requires
            self@.wf(),
            pool_text@.len() == self@.values.len(),
        ensures
            match decoded {
                Some((line, next)) => {
                    &&& self@.decodes_at(offset as int)
                    &&& line@ == self@.line_text(offset as int, texts(pool_text))
                    &&& next == self@.next_offset(offset as int)
                    &&& offset < next <= self@.codes.len()
                },
                None => !self@.decodes_at(offset as int),
            },
    {
        if offset >= self.codes.len() {
            return None;
        }
        let inst = match OpCode::decode(self.codes[offset]) {
            Some(inst) => inst,
            None => {
                return None;
            },
        };
        if inst.operand_width() == 1 {
            if offset + 1 >= self.codes.len() {
                return None;
            }
            if self.codes[offset + 1] as usize >= self.values.len() {
                return None;
            }
        }
        let mut out: Vec<u8> = Vec::new();
        push_padded(&mut out, offset as u64, 4, '0' as u8);
        push_text(&mut out, " ");
        if offset > 0 && self.lines[offset] == self.lines[offset - 1] {
            push_text(&mut out, "   | ");
        } else {
            push_padded(&mut out, self.lines[offset] as u64, 4, ' ' as u8);
            push_text(&mut out, " ");
        }
        assert(out@ =~= padded(offset as nat, 4, '0' as u8) + " ".spec_bytes() + self@.line_mark(
            offset as int,
        ));

        match inst {
            OpCode::constant => {
                let next = self.constant_instruction(&mut out, inst, offset, pool_text);
                Some((out, next))
            },
            OpCode::neg => {
                let next = self.simple_instruction(&mut out, inst, offset);
                Some((out, next))
            },
            OpCode::add => {
                let next = self.simple_instruction(&mut out, inst, offset);
                Some((out, next))
            },
            OpCode::sub => {
                let next = self.simple_instruction(&mut out, inst, offset);
                Some((out, next))
            },
            OpCode::mul => {
                let next = self.simple_instruction(&mut out, inst, offset);
                Some((out, next))
            },
            OpCode::div => {
                let next = self.simple_instruction(&mut out, inst, offset);
                Some((out, next))
            },
            OpCode::ret => {
                let next = self.simple_instruction(&mut out, inst, offset);
                Some((out, next))
            },
        }
    }

    fn simple_instruction(&self, out: &mut Vec<u8>, inst: OpCode, offset: usize) -> (next: usize)
        requires
            offset < self.codes.len(),
        ensures
            final(out)@ == old(out)@ + inst.name() + "\n".spec_bytes(),
            next == offset + 1,
    {
        push_text(out, inst.mnemonic());
        push_text(out, "\n");
        return offset + 1;
    }

    fn constant_instruction(
        &self,
        out: &mut Vec<u8>,
        inst: OpCode,
        offset: usize,
        pool_text: &Vec<Vec<u8>>,
    ) -> (next: usize)
        requires
            offset + 1 < self.codes.len(),
            self.codes@[offset + 1] < pool_text@.len(),
        ensures
            final(out)@ == old(out)@ + inst.name() + "\t".spec_bytes() + padded(
                self@.operand_at(offset as int) as nat,
                4,
                ' ' as u8,
            ) + " '".spec_bytes() + texts(pool_text)[self@.operand_at(offset as int) as int]
                + "'\n".spec_bytes(),
            next == offset + 2,
    {
        let constant_index = self.codes[offset + 1];
        push_text(out, inst.mnemonic());
        push_text(out, "\t");
        push_padded(out, constant_index as u64, 4, ' ' as u8);
        push_text(out, " '");
        push_bytes(out, pool_text[constant_index as usize].as_slice());
        push_text(out, "'\n");
        return offset + 2;
    }
}

impl Default for Chunk {
    fn default() -> (chunk: Chunk)
        ensures
            chunk@ == ChunkView::empty(),
    {
        Chunk::new()
    }
}

} // verus!
