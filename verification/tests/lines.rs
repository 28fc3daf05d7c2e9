//! The run-length-encoded line table.
use rlox::chunk::Lines;

#[test]
fn push_test() {
    let mut builder = Lines::new();
    builder.add_line(1);
    builder.add_line(1);
    builder.add_line(2);
    let lines = builder;

    let mut pos: usize = 0;
    assert_eq!(Some(1), lines.get_line(pos));
    pos = pos + 1;
    assert_eq!(Some(1), lines.get_line(pos));
    pos = pos + 1;
    assert_eq!(Some(2), lines.get_line(pos));
}

#[test]
fn line_table_round_trip() {
    let mut lines = Lines::new();
    let recorded: Vec<u32> = vec![7, 7, 7, 8, 10, 10, 8, 8, 8, 11];
    for line in &recorded {
        lines.add_line(*line);
    }
    for (offset, line) in recorded.iter().enumerate() {
        assert_eq!(Some(*line), lines.get_line(offset));
    }
    assert_eq!(None, lines.get_line(recorded.len()));
}
