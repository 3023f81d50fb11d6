use bft::bft_interp::{BFPrintNewLine, BFVirtualMachine, BFVmErr, CellKind};
use bft::bft_types::{BFBracketErr, BFCharCmdName, BFProgram};

#[test]
fn cell_increment_wraps_at_255() {
    let mut c: u8 = 255;
    c.increment();
    assert_eq!(c, 0);
    let mut d: u8 = 41;
    d.increment();
    assert_eq!(d, 42);
}

#[test]
fn cell_decrement_wraps_at_0() {
    let mut c: u8 = 0;
    c.decrement();
    assert_eq!(c, 255);
    let mut d: u8 = 42;
    d.decrement();
    assert_eq!(d, 41);
}

#[test]
fn cell_get_set_roundtrip() {
    let mut c: u8 = u8::zero();
    assert_eq!(c.get_value(), 0);
    c.set_value(97);
    assert_eq!(c.get_value(), 97);
}

#[test]
fn fixed_tape_bounds_both_edges() {
    // a tape of length 3, not extensible: two moves right succeed, the
    // third falls off the high edge; a move left at index 0 falls off the
    // low edge whatever the length
    let bf_info = BFProgram::new("", ">>><");
    let mut vm = BFVirtualMachine::<u8>::new(3, false, &bf_info);
    assert!(vm.move_head_left().is_err());
    assert!(vm.move_head_right().is_ok());
    assert!(vm.move_head_right().is_ok());
    let e = vm.move_head_right().unwrap_err();
    assert!(matches!(e, BFVmErr::HeadInvalidPositionErr(_)));
}

#[test]
fn extensible_tape_appends_one_zero_cell() {
    // tape of length 1, extensible: '>' grows the tape by one zero cell,
    // and printing the fresh cell yields a zero byte
    let bf_info = BFProgram::new("", ">.");
    let mut vm = BFVirtualMachine::<u8>::new(1, true, &bf_info);
    let input: Vec<u8> = Vec::new();
    let mut output: Vec<u8> = Vec::new();
    assert!(vm.interpret(&input, &mut output).is_ok());
    assert_eq!(output, vec![0, 10]);
}

#[test]
fn default_tape_length_is_30000() {
    // requested length 0 resolves to 30000 cells: 29999 moves right stay
    // on the tape, the 30000th falls off
    let bf_info = BFProgram::new("", "+");
    let mut vm = BFVirtualMachine::<u8>::new(0, false, &bf_info);
    for _i in 0..29999 {
        assert!(vm.move_head_right().is_ok());
    }
    assert!(vm.move_head_right().is_err());
}

#[test]
fn wraparound_end_to_end() {
    // incrementing 255 yields 0; decrementing 0 yields 255
    let bf_info = BFProgram::new("", ",+.>,-.");
    let mut vm = BFVirtualMachine::<u8>::new(2, false, &bf_info);
    let input: Vec<u8> = vec![255, 0];
    let mut output: Vec<u8> = Vec::new();
    assert!(vm.interpret(&input, &mut output).is_ok());
    assert_eq!(output, vec![0, 255, 10]);
}

#[test]
fn empty_program_emits_one_newline() {
    let bf_info = BFProgram::new("", "no instructions here at all");
    let mut vm = BFVirtualMachine::<u8>::new(5, false, &bf_info);
    let input: Vec<u8> = Vec::new();
    let mut output: Vec<u8> = Vec::new();
    assert!(vm.interpret(&input, &mut output).is_ok());
    assert_eq!(output, vec![10]);
}

#[test]
fn newline_not_doubled() {
    // when the last byte the program wrote is already a line terminator,
    // finalization adds nothing
    let bf_info = BFProgram::new("", ",.");
    let mut vm = BFVirtualMachine::<u8>::new(5, false, &bf_info);
    let input: Vec<u8> = vec![10];
    let mut output: Vec<u8> = Vec::new();
    assert!(vm.interpret(&input, &mut output).is_ok());
    assert_eq!(output, vec![10]);
}

#[test]
fn exhausted_input_is_io_error_after_finalization() {
    // ',' with no input left fails with an input error, and the trailing
    // newline is still written before the error propagates
    let bf_info = BFProgram::new("", ".,");
    let mut vm = BFVirtualMachine::<u8>::new(5, false, &bf_info);
    let input: Vec<u8> = Vec::new();
    let mut output: Vec<u8> = Vec::new();
    let result = vm.interpret(&input, &mut output);
    assert!(matches!(result, Err(BFVmErr::IOErr(_))));
    assert_eq!(output, vec![0, 10]);
}

#[test]
fn bounds_error_keeps_partial_output() {
    let bf_info = BFProgram::new("", ",.<");
    let mut vm = BFVirtualMachine::<u8>::new(5, false, &bf_info);
    let input: Vec<u8> = vec![7];
    let mut output: Vec<u8> = Vec::new();
    let result = vm.interpret(&input, &mut output);
    assert!(matches!(result, Err(BFVmErr::HeadInvalidPositionErr(_))));
    assert_eq!(output, vec![7, 10]);
}

#[test]
fn nested_brackets_pair_innermost_first() {
    let bf_info = BFProgram::new("", "[[]]");
    let instrs = bf_info.instructions();
    assert_eq!(instrs.len(), 4);
    assert_eq!(instrs[0].get_raw(), BFCharCmdName::LoopStart(Some(3)));
    assert_eq!(instrs[1].get_raw(), BFCharCmdName::LoopStart(Some(2)));
    assert_eq!(instrs[2].get_raw(), BFCharCmdName::LoopTerminate(Some(1)));
    assert_eq!(instrs[3].get_raw(), BFCharCmdName::LoopTerminate(Some(0)));
    assert!(bf_info.match_square_bracket().is_ok());
}

#[test]
fn unmatched_open_cites_its_position() {
    let bf_info = BFProgram::new("", "++\n+[");
    let e = bf_info.match_square_bracket().unwrap_err();
    match e {
        BFBracketErr::UnmatchedOpen(info) => {
            assert_eq!(info.line, 2);
            assert_eq!(info.column, 2);
        },
        BFBracketErr::UnmatchedClose(_) => panic!("expected an unmatched open"),
    }
}

#[test]
fn unmatched_close_cites_its_position() {
    let bf_info = BFProgram::new("", "[]\nxx]+[]");
    let e = bf_info.match_square_bracket().unwrap_err();
    match e {
        BFBracketErr::UnmatchedClose(info) => {
            assert_eq!(info.line, 2);
            assert_eq!(info.column, 3);
        },
        BFBracketErr::UnmatchedOpen(_) => panic!("expected an unmatched close"),
    }
}

#[test]
fn close_before_open_reports_the_close_first() {
    // "][" has an unmatched close and an unmatched open; the close comes
    // first in the instruction sequence
    let bf_info = BFProgram::new("", "][");
    let e = bf_info.match_square_bracket().unwrap_err();
    assert!(matches!(e, BFBracketErr::UnmatchedClose(_)));
}

#[test]
fn unresolved_loop_is_a_structural_error_at_runtime() {
    // the machine does not re-validate, but an unresolved bracket it does
    // meet is reported as a structural error
    let bf_info = BFProgram::new("", "[");
    let mut vm = BFVirtualMachine::<u8>::new(5, false, &bf_info);
    let input: Vec<u8> = Vec::new();
    let mut output: Vec<u8> = Vec::new();
    let result = vm.interpret(&input, &mut output);
    assert!(matches!(result, Err(BFVmErr::BracketPairErr(_))));
    assert_eq!(output, vec![10]);
}

#[test]
fn program_keeps_its_filename() {
    let bf_info = BFProgram::new("hello.bf", "+");
    assert_eq!(bf_info.filename().as_str(), "hello.bf");
}

#[test]
fn print_newline_only_when_owed() {
    let mut v: Vec<u8> = vec![65];
    BFPrintNewLine::new(65).print_newline(&mut v);
    assert_eq!(v, vec![65, 10]);
    let mut w: Vec<u8> = vec![10];
    BFPrintNewLine::new(10).print_newline(&mut w);
    assert_eq!(w, vec![10]);
}
