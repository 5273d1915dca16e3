use clox::chunk::{Chunk, Opcode};
use clox::debug::{mnemonic, Disassembler, Instruction};
use clox::fault::Fault;
use clox::text::{decimal_string, pad_left_string, pad_right_string, signed_decimal_string};

fn render_all(chunk: &Chunk<f64>) -> Vec<String> {
    let mut dis = Disassembler::new(chunk, "test");
    let instrs = dis.disassemble_chunk().unwrap();
    instrs
        .iter()
        .map(|ins| match ins.constant {
            Some((_, v)) => ins.render(&format!("{}", v)),
            None => ins.render(""),
        })
        .collect()
}

#[test]
fn constant_then_return_on_line_122() {
    let mut chunk: Chunk<f64> = Chunk::new();
    let constant = Chunk::add_constant(&mut chunk, 1.2);
    Chunk::write_chunk(&mut chunk, Opcode::OpConstant.to_byte(), 122);
    Chunk::write_chunk(&mut chunk, constant, 122);
    Chunk::write_chunk(&mut chunk, Opcode::OpReturn.to_byte(), 122);

    let lines = render_all(&chunk);
    assert_eq!(lines.len(), 2);
    assert_eq!(lines[0], "0000  122 OP_CONSTANT         0 '1.2'");
    assert_eq!(lines[1], "0002    | OP_RETURN");
}

#[test]
fn known_instructions_give_one_line_each() {
    let mut chunk: Chunk<f64> = Chunk::new();
    let a = Chunk::add_constant(&mut chunk, 1.2);
    let b = Chunk::add_constant(&mut chunk, 3.4);
    Chunk::write_chunk(&mut chunk, Opcode::OpConstant.to_byte(), 1);
    Chunk::write_chunk(&mut chunk, a, 1);
    Chunk::write_chunk(&mut chunk, Opcode::OpConstant.to_byte(), 2);
    Chunk::write_chunk(&mut chunk, b, 2);
    Chunk::write_chunk(&mut chunk, Opcode::OpAdd.to_byte(), 2);
    Chunk::write_chunk(&mut chunk, Opcode::OpNegate.to_byte(), 3);
    Chunk::write_chunk(&mut chunk, Opcode::OpSubtract.to_byte(), 3);
    Chunk::write_chunk(&mut chunk, Opcode::OpMultiply.to_byte(), 3);
    Chunk::write_chunk(&mut chunk, Opcode::OpDivide.to_byte(), 1000);
    Chunk::write_chunk(&mut chunk, Opcode::OpReturn.to_byte(), 1000);

    let lines = render_all(&chunk);
    assert_eq!(
        lines,
        vec![
            "0000    1 OP_CONSTANT         0 '1.2'",
            "0002    2 OP_CONSTANT         1 '3.4'",
            "0004    | OP_ADD",
            "0005    3 OP_NEGATE",
            "0006    | OP_SUBTRACT",
            "0007    | OP_MULTIPLY",
            "0008 1000 OP_DIVIDE",
            "0009    | OP_RETURN",
        ]
    );
}

#[test]
fn records_carry_operand_and_value() {
    let mut chunk: Chunk<f64> = Chunk::new();
    Chunk::add_constant(&mut chunk, 0.5);
    let idx = Chunk::add_constant(&mut chunk, 7.25);
    Chunk::write_chunk(&mut chunk, Opcode::OpConstantLong.to_byte(), 4);
    Chunk::write_chunk(&mut chunk, idx, 4);
    let mut dis = Disassembler::new(&chunk, "long");
    let ins = dis.disassemble_instruction().unwrap();
    assert_eq!(
        ins,
        Instruction {
            offset: 0,
            line: 4,
            continues_line: false,
            opcode: Opcode::OpConstantLong,
            constant: Some((1, 7.25)),
        }
    );
    assert_eq!(dis.offset, 2);
    assert_eq!(ins.render("7.25"), "0000    4 OP_CONSTANT_LONG    1 '7.25'");
}

#[test]
fn unknown_opcode_is_a_fault() {
    let mut chunk: Chunk<f64> = Chunk::new();
    Chunk::write_chunk(&mut chunk, Opcode::OpReturn.to_byte(), 1);
    Chunk::write_chunk(&mut chunk, 42, 1);
    let mut dis = Disassembler::new(&chunk, "bad");
    assert_eq!(dis.disassemble_chunk(), Err(Fault::UnknownOpcode(42)));
}

#[test]
fn missing_operand_is_a_fault() {
    let mut chunk: Chunk<f64> = Chunk::new();
    Chunk::add_constant(&mut chunk, 1.0);
    Chunk::write_chunk(&mut chunk, Opcode::OpConstant.to_byte(), 1);
    let mut dis = Disassembler::new(&chunk, "short");
    assert_eq!(dis.disassemble_instruction(), Err(Fault::MissingOperand));
    assert_eq!(dis.offset, 0);
}

#[test]
fn constant_index_out_of_range_is_a_fault() {
    let mut chunk: Chunk<f64> = Chunk::new();
    Chunk::write_chunk(&mut chunk, Opcode::OpConstant.to_byte(), 1);
    Chunk::write_chunk(&mut chunk, 3, 1);
    let mut dis = Disassembler::new(&chunk, "range");
    assert_eq!(dis.disassemble_chunk(), Err(Fault::ConstantOutOfRange(3)));
}

#[test]
fn empty_chunk_disassembles_to_nothing() {
    let chunk: Chunk<f64> = Chunk::new();
    let mut dis = Disassembler::new(&chunk, "empty");
    assert_eq!(dis.disassemble_chunk(), Ok(vec![]));
}

#[test]
fn header_names_the_chunk() {
    let chunk: Chunk<f64> = Chunk::new();
    let dis = Disassembler::new(&chunk, "test chunk");
    assert_eq!(dis.header(), "== test chunk ==");
}

#[test]
fn negative_line_is_right_aligned() {
    let ins: Instruction<f64> = Instruction {
        offset: 12345,
        line: -7,
        continues_line: false,
        opcode: Opcode::OpNegate,
        constant: None,
    };
    assert_eq!(ins.render(""), "12345   -7 OP_NEGATE");
}

#[test]
fn mnemonics() {
    assert_eq!(mnemonic(Opcode::OpReturn), "OP_RETURN");
    assert_eq!(mnemonic(Opcode::OpConstantLong), "OP_CONSTANT_LONG");
    assert_eq!(mnemonic(Opcode::OpDivide), "OP_DIVIDE");
}

#[test]
fn number_text() {
    assert_eq!(decimal_string(0), "0");
    assert_eq!(decimal_string(907), "907");
    assert_eq!(decimal_string(u64::MAX), "18446744073709551615");
    assert_eq!(signed_decimal_string(-42), "-42");
    assert_eq!(signed_decimal_string(i64::MIN), "-9223372036854775808");
    assert_eq!(pad_left_string(String::from("7"), 4, "0"), "0007");
    assert_eq!(pad_left_string(String::from("12345"), 4, " "), "12345");
    assert_eq!(pad_right_string(String::from("ab"), 5), "ab   ");
}
