use gdb_mi::commands::{
    cmd_break_delete, cmd_break_insert, cmd_break_list, cmd_exec_continue, cmd_exec_interrupt,
    cmd_exec_next, cmd_exec_run, cmd_exec_step, cmd_gdb_exit, cmd_read_memory, cmd_register_names,
    cmd_register_values, cmd_stack_list_frames, cmd_stack_list_variables,
};
use gdb_mi::correlator::Correlator;
use gdb_mi::linebuf::LineBuffer;

#[test]
fn command_texts_are_exact() {
    assert_eq!(cmd_break_list(), b"-break-list".to_vec());
    assert_eq!(cmd_exec_run(), b"-exec-run".to_vec());
    assert_eq!(cmd_exec_continue(), b"-exec-continue".to_vec());
    assert_eq!(cmd_exec_next(), b"-exec-next".to_vec());
    assert_eq!(cmd_exec_step(), b"-exec-step".to_vec());
    assert_eq!(cmd_exec_interrupt(), b"-exec-interrupt".to_vec());
    assert_eq!(cmd_gdb_exit(), b"-gdb-exit".to_vec());
    assert_eq!(cmd_stack_list_frames(), b"-stack-list-frames".to_vec());
    assert_eq!(cmd_stack_list_variables(), b"-stack-list-variables --all-values".to_vec());
    assert_eq!(cmd_register_names(), b"-data-list-register-names".to_vec());
    assert_eq!(cmd_register_values(), b"-data-list-register-values x".to_vec());
}

#[test]
fn break_insert_names_file_and_line() {
    assert_eq!(
        cmd_break_insert(&b"main.c".to_vec(), 77),
        b"-break-insert main.c:77".to_vec(),
    );
    assert_eq!(
        cmd_break_insert(&b"Core/Src/main.c".to_vec(), 112),
        b"-break-insert Core/Src/main.c:112".to_vec(),
    );
}

#[test]
fn break_delete_lists_each_number() {
    assert_eq!(cmd_break_delete(&vec![]), b"-break-delete".to_vec());
    assert_eq!(cmd_break_delete(&vec![3]), b"-break-delete 3".to_vec());
    assert_eq!(cmd_break_delete(&vec![1, 2, 10]), b"-break-delete 1 2 10".to_vec());
}

#[test]
fn read_memory_carries_address_count_and_offset() {
    assert_eq!(
        cmd_read_memory(&b"0x08000000".to_vec(), 16, None),
        b"-data-read-memory-bytes 0x08000000 16".to_vec(),
    );
    assert_eq!(
        cmd_read_memory(&b"0x20000000".to_vec(), 64, Some(-4)),
        b"-data-read-memory-bytes -o -4 0x20000000 64".to_vec(),
    );
    assert_eq!(
        cmd_read_memory(&b"&buffer".to_vec(), 8, Some(256)),
        b"-data-read-memory-bytes -o 256 &buffer 8".to_vec(),
    );
}

#[test]
fn sent_lines_carry_token_text_and_newline() {
    let mut c = Correlator::new();
    let (_t, line) = c.send(&cmd_break_insert(&b"main.c".to_vec(), 77), 0, 1000);
    assert_eq!(line, b"1-break-insert main.c:77\n".to_vec());
}

#[test]
fn partial_lines_wait_for_their_newline() {
    let mut lb = LineBuffer::new();
    assert_eq!(lb.push_chunk(&b"1^do".to_vec()), Vec::<Vec<u8>>::new());
    let lines = lb.push_chunk(&b"ne\n*stop".to_vec());
    assert_eq!(lines, vec![b"1^done".to_vec()]);
    let lines = lb.push_chunk(&b"ped\n\n^exit\n".to_vec());
    assert_eq!(lines, vec![b"*stopped".to_vec(), b"".to_vec(), b"^exit".to_vec()]);
    assert_eq!(lb.push_chunk(&b"".to_vec()), Vec::<Vec<u8>>::new());
}

#[test]
fn buffered_bytes_are_neither_lost_nor_invented() {
    let mut lb = LineBuffer::new();
    let mut seen: Vec<u8> = Vec::new();
    for chunk in [&b"^"[..], &b"done,x"[..], &b"=\"1\"\n~\"hi\"\n&\"t"[..], &b"ail\"\n"[..]] {
        for line in lb.push_chunk(&chunk.to_vec()) {
            seen.extend_from_slice(&line);
            seen.push(b'\n');
        }
    }
    assert_eq!(seen, b"^done,x=\"1\"\n~\"hi\"\n&\"tail\"\n".to_vec());
}
