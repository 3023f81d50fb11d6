use bft::bft_interp::BFVirtualMachine;
use bft::bft_types::BFProgram;

#[test]
fn test_move_head() {
    let bf_info = BFProgram::new("", "hello++--,><>");
    let mut vm = BFVirtualMachine::<u8>::new(2, false, &bf_info);
    assert!(vm.move_head_left().is_err());
    assert!(vm.move_head_right().is_ok());
    assert!(vm.move_head_right().is_err());
}

#[test]
fn test_move_head_extend() {
    let bf_info = BFProgram::new("", "hello++--,><>");
    let mut vm = BFVirtualMachine::<u8>::new(2, true, &bf_info);
    assert!(vm.move_head_left().is_err());
    assert!(vm.move_head_right().is_ok());
    assert!(vm.move_head_right().is_ok());
}

#[test]
fn test_rw_cells() {
    let r_buf: Vec<u8> = vec![1, 2, 3, 4, 5];
    let mut w_buf: Vec<u8> = Vec::new();
    let mut pos: usize = 0;
    let bf_info = BFProgram::new("", "hello++--,><>");
    let mut vm = BFVirtualMachine::<u8>::new(5, false, &bf_info);

    assert_ne!(&r_buf, &w_buf);
    for _i in 0..5 {
        vm.read_value(&r_buf, &mut pos).unwrap();
        vm.write_value(&mut w_buf).unwrap();
    }
    assert_eq!(&r_buf, &w_buf);
}

#[test]
fn test_inc_dec_data() {
    let r_buf: Vec<u8> = vec![1, 2, 3, 4, 5];
    let mut w_buf: Vec<u8> = Vec::new();
    let mut pos: usize = 0;
    let bf_info = BFProgram::new("", "hello++--,><>");
    let mut vm = BFVirtualMachine::<u8>::new(5, false, &bf_info);

    for _i in 0..5 {
        vm.read_value(&r_buf, &mut pos).unwrap();
        vm.add_head_by_one();
        vm.write_value(&mut w_buf).unwrap();
    }
    assert_eq!(&w_buf, &Vec::<u8>::from([2, 3, 4, 5, 6]));

    pos = 0;
    let mut w_buf: Vec<u8> = Vec::new();
    for _i in 0..5 {
        vm.read_value(&r_buf, &mut pos).unwrap();
        vm.minus_head_by_one();
        vm.write_value(&mut w_buf).unwrap();
    }
    assert_eq!(&w_buf, &Vec::<u8>::from([0, 1, 2, 3, 4]));
}
