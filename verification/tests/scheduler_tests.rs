use sentinel::output::exit_message;
use sentinel::scheduler::{Event, Scheduler};

#[test]
fn tick_uses_human_readable_elapsed() {
    let mut s = Scheduler::new(10);
    let m = s.handle(&Event::Tick(65));
    assert_eq!(m.unwrap(), "1m 5s elapsed; no new output");
}

#[test]
fn tick_on_empty_buffer_says_no_new_output() {
    let mut s = Scheduler::new(4);
    let m = s.handle(&Event::Tick(10)).unwrap();
    assert!(m.ends_with("; no new output"));
    assert_eq!(m, "10s elapsed; no new output");
}

#[test]
fn tick_on_nonempty_buffer_flushes_fenced_contents() {
    let mut s = Scheduler::new(4);
    assert!(s.handle(&Event::Line(String::from("one"))).is_none());
    assert!(s.handle(&Event::Line(String::from("two"))).is_none());
    let m = s.handle(&Event::Tick(20)).unwrap();
    assert_eq!(m, "20s elapsed\n```\none\ntwo\n```\n");
    let after = s.handle(&Event::Tick(30)).unwrap();
    assert_eq!(after, "30s elapsed; no new output");
}

#[test]
fn lines_overflow_capacity_before_tick() {
    let mut s = Scheduler::new(2);
    for t in ["a", "b", "c"] {
        s.handle(&Event::Line(String::from(t)));
    }
    let m = s.handle(&Event::Tick(5)).unwrap();
    assert_eq!(m, "5s elapsed\n```\nb\nc\n```\n");
}

#[test]
fn closed_stops_and_pending_tick_is_ignored() {
    let mut s = Scheduler::new(4);
    let msgs = s.run(&vec![
        Event::Line(String::from("tail")),
        Event::Closed,
        Event::Tick(40),
        Event::Line(String::from("late")),
    ]);
    assert!(msgs.is_empty());
    assert!(!s.is_running());
    assert_eq!(s.contents(), "tail\n");
}

#[test]
fn end_to_end_three_lines_no_tick() {
    let mut s = Scheduler::new(10);
    let msgs = s.run(&vec![
        Event::Line(String::from("a")),
        Event::Line(String::from("b")),
        Event::Line(String::from("c")),
        Event::Closed,
    ]);
    assert!(msgs.is_empty());
    assert!(!s.is_running());
    let fin = exit_message(&s.contents());
    assert_eq!(fin, "Exited\n```\na\nb\nc\n```\n");
}

#[test]
fn run_collects_tick_messages_in_order() {
    let mut s = Scheduler::new(4);
    let msgs = s.run(&vec![
        Event::Line(String::from("a")),
        Event::Tick(1),
        Event::Line(String::from("b")),
        Event::Tick(2),
        Event::Closed,
    ]);
    assert_eq!(msgs, vec!["1s elapsed\n```\na\n```\n", "2s elapsed\n```\nb\n```\n"]);
}
