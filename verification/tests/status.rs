use asciinema::{disable, do_highlight, do_info, do_warn, Status};

#[test]
fn status_lines_until_disabled() {
    let mut status = Status::new();
    assert_eq!(do_info(&status, "hello"), Some("::: hello".to_owned()));
    assert_eq!(do_warn(&status, "careful"), Some("!!! careful".to_owned()));
    assert_eq!(
        do_highlight(&status, "done", true),
        Some("\x1b[1;36m::: done\x1b[0m".to_owned())
    );
    assert_eq!(do_highlight(&status, "done", false), Some("::: done".to_owned()));
    disable(&mut status);
    assert_eq!(do_info(&status, "hello"), None);
    assert_eq!(do_warn(&status, "careful"), None);
    assert_eq!(do_highlight(&status, "done", true), None);
}
