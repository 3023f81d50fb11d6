use bft::bft_types::{BFCharCmdName, BFCharInfo, BFProgram};

#[test]
fn test_line_col_bf_char() {
    let bf_info = BFProgram::new("", "test001++  hello --");
    assert!(bf_info.match_square_bracket().is_ok());

    let read_instructions = bf_info.instructions();
    let target_instructions: Vec<BFCharInfo> = vec![
        BFCharInfo {
            raw: BFCharCmdName::DataIncrement,
            line: 1,
            column: 8,
        },
        BFCharInfo {
            raw: BFCharCmdName::DataIncrement,
            line: 1,
            column: 9,
        },
        BFCharInfo {
            raw: BFCharCmdName::DataDecrement,
            line: 1,
            column: 18,
        },
        BFCharInfo {
            raw: BFCharCmdName::DataDecrement,
            line: 1,
            column: 19,
        },
    ];

    for (i, x) in read_instructions.iter().enumerate() {
        let t: &BFCharInfo = &target_instructions[i];
        assert_eq!(x.raw, t.raw);
        assert_eq!(x.line, t.line);
        assert_eq!(x.column, t.column);
    }
}

#[test]
fn test_match_square_bracket() {
    let bf_info = BFProgram::new("", "test001++  hello --[>,<+>--,[]");
    assert!(bf_info.match_square_bracket().is_err());
}
