use rlox::chunk::Chunk;
use rlox::opcode::OpCode;
use rlox::value::Value;

fn number(x: f64) -> Value {
    Value::Number(x.to_bits())
}

fn pool_text(chunk: &Chunk) -> Vec<Vec<u8>> {
    chunk
        .values
        .iter()
        .map(|value| format!("{}", f64::from_bits(value.to_bits())).into_bytes())
        .collect()
}

fn listing(chunk: &Chunk, name: &str) -> Option<String> {
    chunk.disassemble(name, &pool_text(chunk)).map(|text| String::from_utf8(text).unwrap())
}

fn line_at(chunk: &Chunk, offset: usize) -> Option<(String, usize)> {
    chunk
        .disassemble_inst(offset, &pool_text(chunk))
        .map(|(text, next)| (String::from_utf8(text).unwrap(), next))
}

fn arithmetic() -> Chunk {
    let mut chunk = Chunk::new();
    for (x, line) in [(1.2, 123), (3.4, 123)] {
        let index = chunk.write_constant(number(x));
        chunk.write_code(OpCode::constant.byte(), line);
        chunk.write_code(index as u8, line);
    }
    chunk.write_code(OpCode::add.byte(), 123);
    let index = chunk.write_constant(number(5.6));
    chunk.write_codes(&[
        (OpCode::constant.byte(), 124),
        (index as u8, 124),
        (OpCode::div.byte(), 124),
        (OpCode::neg.byte(), 125),
        (OpCode::ret.byte(), 125),
    ]);
    chunk
}

#[test]
fn a_new_chunk_is_empty() {
    let chunk = Chunk::new();
    assert!(chunk.codes.is_empty());
    assert!(chunk.lines.is_empty());
    assert!(chunk.values.is_empty());
    let chunk = Chunk::default();
    assert!(chunk.codes.is_empty() && chunk.lines.is_empty() && chunk.values.is_empty());
}

#[test]
fn bytes_and_lines_grow_together() {
    let mut chunk = Chunk::new();
    chunk.write_code(OpCode::ret.byte(), 7);
    chunk.write_code(200, 8);
    assert_eq!(chunk.codes, vec![6, 200]);
    assert_eq!(chunk.lines, vec![7, 8]);
    chunk.write_codes(&[(1, 9), (2, 9), (3, 10)]);
    chunk.write_codes(&[]);
    assert_eq!(chunk.codes, vec![6, 200, 1, 2, 3]);
    assert_eq!(chunk.lines, vec![7, 8, 9, 9, 10]);
    assert!(chunk.values.is_empty());
}

#[test]
fn constants_get_their_indices_in_order() {
    let mut chunk = Chunk::new();
    assert_eq!(chunk.write_constant(number(1.2)), 0);
    assert_eq!(chunk.write_constant(number(3.4)), 1);
    assert_eq!(chunk.write_constant(number(1.2)), 2);
    assert_eq!(chunk.values, vec![number(1.2), number(3.4), number(1.2)]);
    assert!(chunk.codes.is_empty());
    assert!(chunk.lines.is_empty());
}

#[test]
fn clear_empties_all_three() {
    let mut chunk = arithmetic();
    chunk.clear();
    assert!(chunk.codes.is_empty());
    assert!(chunk.lines.is_empty());
    assert!(chunk.values.is_empty());
    assert_eq!(chunk.write_constant(number(9.0)), 0);
}

#[test]
fn listing_of_a_chunk() {
    let chunk = arithmetic();
    assert_eq!(
        listing(&chunk, "test chunk").unwrap(),
        "== test chunk ==\n\
         0000  123 constant\t   0 '1.2'\n\
         0002    | constant\t   1 '3.4'\n\
         0004    | add\n\
         0005  124 constant\t   2 '5.6'\n\
         0007    | div\n\
         0008  125 neg\n\
         0009    | ret\n"
    );
}

#[test]
fn listing_of_an_empty_chunk_is_its_banner() {
    assert_eq!(listing(&Chunk::new(), "").unwrap(), "==  ==\n");
    assert_eq!(listing(&Chunk::new(), "empty").unwrap(), "== empty ==\n");
}

#[test]
fn listing_has_one_line_for_each_instruction() {
    let chunk = arithmetic();
    let text = listing(&chunk, "lines").unwrap();
    let mut decoded = 0;
    let mut offset = 0;
    while offset < chunk.codes.len() {
        offset = line_at(&chunk, offset).unwrap().1;
        decoded += 1;
    }
    assert_eq!(decoded, 7);
    assert_eq!(text.lines().count(), decoded + 1);
    assert_eq!(text.bytes().filter(|b| *b == b'\n').count(), decoded + 1);
}

#[test]
fn listing_twice_gives_the_same_bytes() {
    let chunk = arithmetic();
    let texts = pool_text(&chunk);
    let first = chunk.disassemble("again", &texts);
    let second = chunk.disassemble("again", &texts);
    assert!(first.is_some());
    assert_eq!(first, second);
    assert_eq!(chunk.codes, arithmetic().codes);
    assert_eq!(chunk.lines, arithmetic().lines);
    assert_eq!(chunk.values, arithmetic().values);
}

#[test]
fn one_instruction_at_a_time() {
    let chunk = arithmetic();
    assert_eq!(line_at(&chunk, 0), Some(("0000  123 constant\t   0 '1.2'\n".to_string(), 2)));
    assert_eq!(line_at(&chunk, 4), Some(("0004    | add\n".to_string(), 5)));
    assert_eq!(line_at(&chunk, 5), Some(("0005  124 constant\t   2 '5.6'\n".to_string(), 7)));
    assert_eq!(line_at(&chunk, 8), Some(("0008  125 neg\n".to_string(), 9)));
    assert_eq!(line_at(&chunk, 9), Some(("0009    | ret\n".to_string(), 10)));
    assert_eq!(line_at(&chunk, 10), None);
    assert_eq!(line_at(&chunk, 1000), None);
}

#[test]
fn the_line_column_compares_with_the_byte_before() {
    let mut chunk = Chunk::new();
    chunk.write_constant(number(2.0));
    chunk.write_codes(&[
        (OpCode::constant.byte(), 1),
        (0, 2),
        (OpCode::neg.byte(), 2),
        (OpCode::neg.byte(), 1),
        (OpCode::ret.byte(), 12345),
    ]);
    assert_eq!(
        listing(&chunk, "marks").unwrap(),
        "== marks ==\n\
         0000    1 constant\t   0 '2'\n\
         0002    | neg\n\
         0003    1 neg\n\
         0004 12345 ret\n"
    );
}

#[test]
fn every_simple_instruction_has_its_name() {
    let mut chunk = Chunk::new();
    for (i, op) in
        [OpCode::neg, OpCode::add, OpCode::sub, OpCode::mul, OpCode::div, OpCode::ret]
            .iter()
            .enumerate()
    {
        chunk.write_code(op.byte(), i as u32);
    }
    assert_eq!(
        listing(&chunk, "all").unwrap(),
        "== all ==\n\
         0000    0 neg\n\
         0001    1 add\n\
         0002    2 sub\n\
         0003    3 mul\n\
         0004    4 div\n\
         0005    5 ret\n"
    );
}

#[test]
fn an_unknown_byte_is_not_listed() {
    let mut chunk = Chunk::new();
    chunk.write_code(OpCode::ret.byte(), 1);
    chunk.write_code(7, 1);
    assert_eq!(line_at(&chunk, 0), Some(("0000    1 ret\n".to_string(), 1)));
    assert_eq!(line_at(&chunk, 1), None);
    assert_eq!(listing(&chunk, "bad"), None);
}

#[test]
fn a_constant_without_operand_is_not_listed() {
    let mut chunk = Chunk::new();
    chunk.write_constant(number(1.0));
    chunk.write_code(OpCode::constant.byte(), 1);
    assert_eq!(line_at(&chunk, 0), None);
    assert_eq!(listing(&chunk, "cut"), None);
    chunk.write_code(0, 1);
    assert_eq!(line_at(&chunk, 0), Some(("0000    1 constant\t   0 '1'\n".to_string(), 2)));
}

#[test]
fn a_constant_outside_the_pool_is_not_listed() {
    let mut chunk = Chunk::new();
    chunk.write_constant(number(1.0));
    chunk.write_codes(&[(OpCode::constant.byte(), 1), (1, 1)]);
    assert_eq!(line_at(&chunk, 0), None);
    assert_eq!(listing(&chunk, "far"), None);
    chunk.write_constant(number(-0.5));
    assert_eq!(line_at(&chunk, 0), Some(("0000    1 constant\t   1 '-0.5'\n".to_string(), 2)));
}

#[test]
fn a_constant_instruction_is_read_back_as_written() {
    let mut chunk = arithmetic();
    for x in [0.0, -1.5, 1e100, f64::INFINITY] {
        let index = chunk.write_constant(number(x));
        let offset = chunk.codes.len();
        chunk.write_code(OpCode::constant.byte(), 200);
        chunk.write_code(index as u8, 200);
        assert_eq!(OpCode::decode(chunk.codes[offset]), Some(OpCode::constant));
        assert_eq!(chunk.codes[offset + 1] as usize, index);
        assert_eq!(chunk.values[chunk.codes[offset + 1] as usize], number(x));
        let (text, next) = line_at(&chunk, offset).unwrap();
        assert_eq!(next, offset + 2);
        assert!(text.ends_with(&format!("constant\t{:4} '{}'\n", index, x)));
    }
}

#[test]
fn wide_offsets_and_operands_are_not_cut() {
    let mut chunk = Chunk::new();
    for i in 0..200 {
        chunk.write_constant(number(i as f64));
    }
    for _ in 0..10000 {
        chunk.write_code(OpCode::neg.byte(), 3);
    }
    chunk.write_codes(&[(OpCode::constant.byte(), 4), (199, 4)]);
    assert_eq!(line_at(&chunk, 9999), Some(("9999    | neg\n".to_string(), 10000)));
    assert_eq!(
        line_at(&chunk, 10000),
        Some(("10000    4 constant\t 199 '199'\n".to_string(), 10002))
    );
}
