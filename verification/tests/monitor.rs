use asciinema::{progress_message, Monitor, MonitorError, Progress, ProgressPanel, TtySize};

#[test]
fn progress_panel_keeps_the_latest_entries() {
    let mut panel = ProgressPanel::new(2);
    panel.push("one".to_owned(), 80);
    panel.push("two".to_owned(), 80);
    panel.push("three".to_owned(), 80);

    assert_eq!(panel.get(0), Some("two"));
    assert_eq!(panel.get(1), Some("three"));
}

#[test]
fn progress_panel_cuts_lines_to_the_width() {
    let mut panel = ProgressPanel::new(3);
    panel.push("abcdef".to_owned(), 4);
    panel.push("é😀x".to_owned(), 2);
    assert_eq!(panel.len(), 2);
    assert_eq!(panel.get(0), Some("abcd"));
    assert_eq!(panel.get(1), Some("é😀"));
    assert_eq!(panel.get(2), None);
}

#[test]
fn progress_panel_of_no_capacity_stays_empty() {
    let mut panel = ProgressPanel::new(0);
    panel.push("one".to_owned(), 10);
    assert_eq!(panel.len(), 0);
}

#[test]
fn progress_message_layout() {
    let p = Progress { current: 7, total: 12, line: 3, label: "expect", summary: "\\$".to_owned() };
    assert_eq!(progress_message(&p), "::: [  7/12 ] L003 [expect       ] \\$");
    let p = Progress {
        current: 1234,
        total: 5678,
        line: 4321,
        label: "sendlinearrow",
        summary: "up x2".to_owned(),
    };
    assert_eq!(progress_message(&p), "::: [1234/5678] L4321 [sendlinearrow] up x2");
}

#[test]
fn monitor_needs_room() {
    assert!(matches!(Monitor::new(0, 40), Err(MonitorError::TooSmall)));
    assert!(matches!(Monitor::new(80, 6), Err(MonitorError::TooSmall)));
    let monitor = Monitor::new(80, 7).unwrap();
    assert_eq!(monitor.capture_size(), TtySize(80, 2));
    assert_eq!(monitor.enter_sequence(), "\x1b[?1049h\x1b[2J\x1b[H\x1b[1;2r\x1b[1;1H");
}

#[test]
fn monitor_draws_the_panel_below_the_session() {
    let mut monitor = Monitor::new(20, 10).unwrap();
    let p = Progress { current: 1, total: 2, line: 1, label: "command", summary: "ls".to_owned() };
    let frame = monitor.render_progress(&p);
    let expected = format!(
        "\x1b7\x1b[6;1H\x1b[2K\x1b[1;36m{}\x1b[0m\x1b[7;1H\x1b[2K\x1b[8;1H\x1b[2K\x1b[9;1H\x1b[2K\x1b[10;1H\x1b[2K\x1b8",
        "::: [  1/2  ] L001 ["
    );
    assert_eq!(frame, expected);
    let p = Progress { current: 2, total: 2, line: 2, label: "wait", summary: "".to_owned() };
    let frame = monitor.render_progress(&p);
    assert!(frame.contains("\x1b[6;1H\x1b[2K\x1b[2;36m::: [  1/2  ] L001 [\x1b[0m"));
    assert!(frame.contains("\x1b[7;1H\x1b[2K\x1b[1;36m::: [  2/2  ] L002 [\x1b[0m"));
    assert_eq!(monitor.closing_sequence(), Some("\x1b[r\x1b[?1049l".to_owned()));
    monitor.mark_closed();
    assert_eq!(monitor.closing_sequence(), None);
}
