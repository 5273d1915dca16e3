use clox::chunk::{Chunk, LineEncoding, Opcode};

#[test]
fn opcode_bytes_round_trip() {
    let all = [
        Opcode::OpReturn,
        Opcode::OpConstant,
        Opcode::OpConstantLong,
        Opcode::OpNegate,
        Opcode::OpAdd,
        Opcode::OpSubtract,
        Opcode::OpMultiply,
        Opcode::OpDivide,
    ];
    for (i, op) in all.iter().enumerate() {
        assert_eq!(op.to_byte(), i as u8);
        assert_eq!(Opcode::from_byte(i as u8), Some(*op));
    }
}

#[test]
fn out_of_range_byte_does_not_decode() {
    assert_eq!(Opcode::from_byte(8), None);
    assert_eq!(Opcode::from_byte(255), None);
}

#[test]
fn same_line_bytes_share_one_run() {
    let mut chunk: Chunk<f64> = Chunk::new();
    for b in 0..5u8 {
        Chunk::write_chunk(&mut chunk, b, 7);
    }
    assert_eq!(chunk.code(), &vec![0, 1, 2, 3, 4]);
    assert_eq!(chunk.lines(), &vec![LineEncoding { count: 5, line: 7 }]);
    for offset in 0..5 {
        assert_eq!(Chunk::<f64>::get_line(offset, chunk.lines()), 7);
    }
}

#[test]
fn new_line_starts_new_run() {
    let mut chunk: Chunk<f64> = Chunk::new();
    Chunk::write_chunk(&mut chunk, 0, 1);
    Chunk::write_chunk(&mut chunk, 0, 1);
    Chunk::write_chunk(&mut chunk, 0, 2);
    Chunk::write_chunk(&mut chunk, 0, 1);
    Chunk::write_chunk(&mut chunk, 0, 1);
    Chunk::write_chunk(&mut chunk, 0, 1);
    assert_eq!(
        chunk.lines(),
        &vec![
            LineEncoding { count: 2, line: 1 },
            LineEncoding { count: 1, line: 2 },
            LineEncoding { count: 3, line: 1 },
        ]
    );
    let total: usize = chunk.lines().iter().map(|r| r.count).sum();
    assert_eq!(total, chunk.code().len());
    let expected = [1, 1, 2, 1, 1, 1];
    for (offset, line) in expected.iter().enumerate() {
        assert_eq!(Chunk::<f64>::get_line(offset, chunk.lines()), *line);
    }
}

#[test]
fn negative_and_large_lines_are_kept() {
    let mut chunk: Chunk<f64> = Chunk::new();
    Chunk::write_chunk(&mut chunk, 0, -3);
    Chunk::write_chunk(&mut chunk, 0, i32::MAX);
    assert_eq!(Chunk::<f64>::get_line(0, chunk.lines()), -3);
    assert_eq!(Chunk::<f64>::get_line(1, chunk.lines()), i32::MAX);
}

#[test]
fn line_encoding_new_counts_one() {
    assert_eq!(LineEncoding::new(42), LineEncoding { count: 1, line: 42 });
}

#[test]
fn add_constant_returns_successive_indices() {
    let mut chunk: Chunk<f64> = Chunk::new();
    assert_eq!(Chunk::add_constant(&mut chunk, 1.5), 0);
    assert_eq!(Chunk::add_constant(&mut chunk, 2.5), 1);
    assert_eq!(chunk.constants(), &vec![1.5, 2.5]);
    assert!(chunk.code().is_empty());
    assert!(chunk.lines().is_empty());
}

#[test]
fn add_constant_reaches_index_254() {
    let mut chunk: Chunk<f64> = Chunk::new();
    let mut last = 0;
    for i in 0..255 {
        last = Chunk::add_constant(&mut chunk, i as f64);
    }
    assert_eq!(last, 254);
    assert_eq!(chunk.constants().len(), 255);
}

#[test]
fn write_constant_switches_to_long_form_at_256() {
    let mut chunk: Chunk<f64> = Chunk::new();
    for i in 0..256 {
        Chunk::write_constant(&mut chunk, i as f64, 3);
    }
    assert_eq!(chunk.constants().len(), 256);
    assert_eq!(chunk.code().len(), 256);
    for offset in 0..255 {
        assert_eq!(chunk.code()[offset], Opcode::OpConstant.to_byte());
    }
    assert_eq!(chunk.code()[255], Opcode::OpConstantLong.to_byte());
    assert_eq!(chunk.lines(), &vec![LineEncoding { count: 256, line: 3 }]);
}

#[test]
fn write_constant_short_form_on_small_pool() {
    let mut chunk: Chunk<f64> = Chunk::new();
    Chunk::write_constant(&mut chunk, 9.0, 1);
    assert_eq!(chunk.constants(), &vec![9.0]);
    assert_eq!(chunk.code(), &vec![1]);
}
