use sentinel::output::{exit_message, push_output, tick_message};

#[test]
fn empty_output_gets_literal_suffix() {
    let mut s = String::from("head");
    push_output(&mut s, "");
    assert_eq!(s, "head; no new output");
}

#[test]
fn nonempty_output_gets_fenced_block() {
    let mut s = String::from("head");
    push_output(&mut s, "a\nb\n");
    assert_eq!(s, "head\n```\na\nb\n```\n");
}

#[test]
fn tick_message_on_empty_buffer() {
    assert_eq!(tick_message("10s", ""), "10s elapsed; no new output");
}

#[test]
fn tick_message_on_nonempty_buffer() {
    assert_eq!(tick_message("1m 5s", "x\n"), "1m 5s elapsed\n```\nx\n```\n");
}

#[test]
fn exit_message_both_shapes() {
    assert_eq!(exit_message(""), "Exited; no new output");
    assert_eq!(exit_message("a\n"), "Exited\n```\na\n```\n");
}
