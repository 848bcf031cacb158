use asciinema::ExpectBuffer;

#[test]
fn matching_consumes_up_to_the_match() {
    let mut b = ExpectBuffer::new();
    b.push_output("hello $ ");
    b.push_output("more");
    assert_eq!(b.try_take_match("\\$"), Ok(true));
    assert_eq!(b.as_str(), " more");
    assert_eq!(b.try_take_match("zzz"), Ok(false));
    assert_eq!(b.as_str(), " more");
}

#[test]
fn matching_counts_bytes_of_wide_characters() {
    let mut b = ExpectBuffer::new();
    b.push_output("αβγ done");
    assert_eq!(b.try_take_match("β"), Ok(true));
    assert_eq!(b.as_str(), "γ done");
}

#[test]
fn output_beyond_the_limit_drops_the_oldest() {
    let mut b = ExpectBuffer::new();
    let big = "a".repeat(1024 * 1024);
    b.push_output(&big);
    assert_eq!(b.as_str().len(), 1024 * 1024);
    b.push_output("bc");
    assert_eq!(b.as_str().len(), 1024 * 1024);
    assert!(b.as_str().ends_with("abc"));
    assert_eq!(b.try_take_match("bc$"), Ok(true));
    assert!(b.try_take_match("(").is_err());
    assert_eq!(b.as_str(), "");
}
