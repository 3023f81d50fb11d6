use bft::bft_interp::BFVirtualMachine;
use bft::bft_types::BFProgram;

#[test]
fn test_bft_run() {
    let bf_info = BFProgram::new(
        "",
        "++++++++[>++++[>++>+++>+++>+<<<<-]>+>+>->>+[<]<-]>>.>---.+++++++..
        +++.>>.<-.<.+++.------.--------.>>+.>++.",
    );
    let mut bf_vm = BFVirtualMachine::<u8>::new(1000, false, &bf_info);
    let r_buf: Vec<u8> = Vec::new();
    let mut w_buf: Vec<u8> = Vec::new();
    let result = bf_vm.interpret(&r_buf, &mut w_buf);

    assert!(result.is_ok());
    let hello_world = Vec::<u8>::from("Hello World!\n");
    assert_eq!(&w_buf, &hello_world);
}

#[test]
fn test_input_output() {
    let bf_info = BFProgram::new("", ",>,>,>,>,>,.<.<.<.<.<.");
    let mut bf_vm = BFVirtualMachine::<u8>::new(1000, false, &bf_info);
    let r_buf: Vec<u8> = vec![1, 2, 3, 4, 5, 6];
    let mut w_buf: Vec<u8> = Vec::new();
    let result = bf_vm.interpret(&r_buf, &mut w_buf);

    assert!(result.is_ok());
    assert_eq!(&w_buf, &vec![6, 5, 4, 3, 2, 1, 10]);
}

#[test]
fn test_increment() {
    let bf_info = BFProgram::new("", ",+>,+>,+>,+>,+>,+.<.<.<.<.<.");
    let mut bf_vm = BFVirtualMachine::<u8>::new(10, false, &bf_info);
    let r_buf: Vec<u8> = vec![1, 2, 3, 4, 5, 6];
    let mut w_buf: Vec<u8> = Vec::new();
    let result = bf_vm.interpret(&r_buf, &mut w_buf);

    assert!(result.is_ok());
    assert_eq!(&w_buf, &vec![7, 6, 5, 4, 3, 2, 10]);
}

#[test]
fn test_decrement() {
    let bf_info = BFProgram::new("", ",->,->,->,->,->,-.<.<.<.<.<.");
    let mut bf_vm = BFVirtualMachine::<u8>::new(10, false, &bf_info);
    let r_buf: Vec<u8> = vec![1, 2, 3, 4, 5, 6];
    let mut w_buf: Vec<u8> = Vec::new();
    let result = bf_vm.interpret(&r_buf, &mut w_buf);

    assert!(result.is_ok());
    assert_eq!(&w_buf, &vec![5, 4, 3, 2, 1, 0, 10]);
}

#[test]
fn test_loop() {
    let bf_info = BFProgram::new("", ",[-.]");
    let mut bf_vm = BFVirtualMachine::<u8>::new(10, false, &bf_info);
    let r_buf: Vec<u8> = vec![6];
    let mut w_buf: Vec<u8> = Vec::new();
    let result = bf_vm.interpret(&r_buf, &mut w_buf);

    assert!(result.is_ok());
    assert_eq!(&w_buf, &vec![5, 4, 3, 2, 1, 0, 10]);
}
