use asciinema::{
    Action, Arrow, ExitKind, Instruction, RecordError, Recorder, SessionPlan,
};

#[test]
fn commands_are_typed_then_entered() {
    let mut r = Recorder::new(3, 10, 20);
    let acts = r.execute(Instruction::Command("aé".to_owned())).unwrap();
    assert_eq!(
        acts,
        vec![
            Action::Send(vec![b'a']),
            Action::Pause(10),
            Action::Send("é".as_bytes().to_vec()),
            Action::Pause(10),
            Action::Send(vec![b'\n']),
        ]
    );
}

#[test]
fn settings_and_markers_change_the_recorder() {
    let mut r = Recorder::new(4, 10, 20);
    assert_eq!(r.execute(Instruction::Delay(3)).unwrap(), vec![]);
    assert_eq!(r.delay_ms, 3);
    assert_eq!(r.execute(Instruction::Wait(40)).unwrap(), vec![]);
    assert_eq!(r.wait_ms, 40);
    assert_eq!(
        r.execute(Instruction::Snapshot("one".to_owned())).unwrap(),
        vec![Action::Marker("one".to_owned())]
    );
    assert_eq!(r.snapshot_labels, vec!["one".to_owned()]);
    assert_eq!(
        r.execute(Instruction::SendArrow { direction: Arrow::Up, count: 2, enter: true }).unwrap(),
        vec![Action::Arrow { key: b"\x1b[A".to_vec(), presses: 2, enter: true, pause_ms: 3 }]
    );
    assert_eq!(
        r.execute(Instruction::Expect("\\$".to_owned())).unwrap(),
        vec![Action::AwaitOutput("\\$".to_owned())]
    );
    assert_eq!(
        r.execute(Instruction::SendCharacter("xé".to_owned())).unwrap(),
        vec![Action::Send("xé".as_bytes().to_vec())]
    );
    assert_eq!(
        r.execute(Instruction::Send("ab".to_owned())).unwrap(),
        vec![Action::Send(vec![b'a']), Action::Pause(3), Action::Send(vec![b'b']), Action::Pause(3)]
    );
}

#[test]
fn control_keys() {
    let mut r = Recorder::new(1, 0, 0);
    assert_eq!(r.execute(Instruction::SendControl('C')).unwrap(), vec![Action::Send(vec![3])]);
    assert_eq!(r.execute(Instruction::SendControl('z')).unwrap(), vec![Action::Send(vec![26])]);
    assert_eq!(r.execute(Instruction::SendControl('1')), Err(RecordError::ControlNeedsLetter));
}

#[test]
fn arrow_keys() {
    assert_eq!(Arrow::Down.bytes(), b"\x1b[B".to_vec());
    assert_eq!(Arrow::Left.bytes(), b"\x1b[D".to_vec());
    assert_eq!(Arrow::Right.bytes(), b"\x1b[C".to_vec());
    assert_eq!(Arrow::Up.bytes(), b"\x1b[A".to_vec());
}

#[test]
fn progress_counts_instructions() {
    let mut r = Recorder::new(2, 0, 0);
    let p = r.show_progress(7, &Instruction::Wait(5));
    assert_eq!((p.current, p.total, p.line, p.label), (1, 2, 7, "wait"));
    assert_eq!(p.summary, "5 ms");
    let p = r.show_progress(9, &Instruction::Delay(1));
    assert_eq!(p.current, 2);
}

#[test]
fn exit_statuses() {
    let mut r = Recorder::new(1, 0, 0);
    r.execute(Instruction::Snapshot("s".to_owned())).unwrap();
    let rec = r.finish(ExitKind::Signaled(9));
    assert_eq!(rec.exit_status, 137);
    assert_eq!(rec.failure(), Some(137));
    assert_eq!(rec.snapshot_labels, vec!["s".to_owned()]);
    assert_eq!(Recorder::new(0, 0, 0).finish(ExitKind::Exited(0)).failure(), None);
    assert_eq!(Recorder::new(0, 0, 0).finish(ExitKind::Other).exit_status, 1);
}

#[test]
fn session_setup() {
    let plan = SessionPlan::new("/bin/bash", "examples/demo.sh", 80, 24, None);
    assert_eq!((plan.cols, plan.rows), (80, 24));
    assert_eq!(plan.command, vec!["/bin/bash", "--noprofile", "--norc"]);
    assert_eq!(plan.command_line, "/bin/bash --noprofile --norc");
    assert_eq!(plan.working_dir, "examples");
    assert_eq!(plan.env[1], ("PS1".to_owned(), "$ ".to_owned()));
    let plan = SessionPlan::new("sh", "demo.sh", 80, 24, Some((100, 30)));
    assert_eq!((plan.cols, plan.rows), (100, 30));
    assert_eq!(plan.working_dir, ".");
    let header = plan.header(1700000000);
    assert_eq!(header.term_cols, 100);
    assert_eq!(header.timestamp, Some(1700000000));
    assert_eq!(header.command, Some("sh --noprofile --norc".to_owned()));
    assert_eq!(header.term_type, Some("xterm-256color".to_owned()));
    assert_eq!(header.env.unwrap().len(), 4);
}

#[test]
fn send_and_sendcharacter_write_the_same_bytes() {
    let mut r = Recorder::new(2, 5, 0);
    let typed = r.execute(Instruction::Send("añb".to_owned())).unwrap();
    let whole = r.execute(Instruction::SendCharacter("añb".to_owned())).unwrap();
    let bytes = |acts: &[Action]| {
        acts.iter()
            .flat_map(|a| match a {
                Action::Send(b) => b.clone(),
                _ => Vec::new(),
            })
            .collect::<Vec<u8>>()
    };
    assert_eq!(bytes(&typed), "añb".as_bytes().to_vec());
    assert_eq!(bytes(&typed), bytes(&whole));
}

#[test]
fn control_letters_ignore_case() {
    let mut r = Recorder::new(2, 0, 0);
    assert_eq!(r.execute(Instruction::SendControl('c')).unwrap(), vec![Action::Send(vec![3])]);
    assert_eq!(r.execute(Instruction::SendControl('A')).unwrap(), vec![Action::Send(vec![1])]);
}
