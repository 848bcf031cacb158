use asciinema::{
    decode_escapes, heredoc_delimiter, instruction_summary, parse_arrow, parse_directive,
    parse_script_content, parse_script_with_lines, Arrow, BuildPaths, Instruction, ScriptError,
};

#[test]
fn parses_commands_directives_and_markers() {
    let instructions = parse_script_content(
        "#$ expect \\$\n\
         echo hello\n\
         #$ snapshot greeting\n\
         #$ sendcontrol r\n\
         #$ sendarrow up 2\n",
    )
    .unwrap();

    assert_eq!(
        instructions,
        vec![
            Instruction::Expect("\\$".to_owned()),
            Instruction::Command("echo hello".to_owned()),
            Instruction::Snapshot("greeting".to_owned()),
            Instruction::SendControl('r'),
            Instruction::SendArrow {
                direction: Arrow::Up,
                count: 2,
                enter: false,
            },
        ]
    );
}

#[test]
fn parses_heredoc_body_without_treating_source_as_script_comments() {
    let instructions = parse_script_content(
        r#"cat > hello.c <<'EOF'
#include <stdio.h>
int main(void) { return 0; }
EOF
#$ snapshot source
"#,
    )
    .unwrap();

    assert_eq!(
        instructions,
        vec![
            Instruction::Command("cat > hello.c <<'EOF'".to_owned()),
            Instruction::Send("#include <stdio.h>\nint main(void) { return 0; }\nEOF\n".to_owned()),
            Instruction::Snapshot("source".to_owned()),
        ]
    );
}

#[test]
fn records_source_lines_for_progress() {
    let parsed = parse_script_with_lines(
        r#"#$ snapshot source
cat > hello.c <<'EOF'
#include <stdio.h>
EOF
echo done
"#,
    )
    .unwrap();

    let lines = parsed
        .instructions
        .iter()
        .map(|instruction| instruction.line)
        .collect::<Vec<_>>();

    assert_eq!(lines, vec![1, 2, 2, 5]);
}

#[test]
fn decodes_legacy_directive_escapes_without_breaking_regex_escapes() {
    let instructions =
        parse_script_content("#$ send hello\\nworld\n#$ expect done\\r\\n\\$\n").unwrap();

    assert_eq!(
        instructions,
        vec![
            Instruction::Send("hello\nworld".to_owned()),
            Instruction::Expect("done\r\n\\$".to_owned()),
        ]
    );
}

#[test]
fn build_paths_use_script_stem_by_default() {
    let paths = BuildPaths::new("examples/demo.sh", None).unwrap();

    assert_eq!(paths.output_dir, "examples/demo");
    assert_eq!(paths.cast, "examples/demo/demo.cast");
    assert_eq!(paths.snapshot_dir, "examples/demo/snapshots");
}

#[test]
fn scenario_requires_shell_extension() {
    assert!(BuildPaths::new("demo", None).is_err());
    assert!(BuildPaths::new("demo.txt", None).is_err());
}

#[test]
fn decode_escapes_handles_every_kind() {
    assert_eq!(decode_escapes("a\\tb").unwrap(), "a\tb");
    assert_eq!(decode_escapes("\\x41\\u00e9\\U0001F600").unwrap(), "A\u{e9}\u{1F600}");
    assert_eq!(decode_escapes("\\101\\0\\7777").unwrap(), "A\0\u{1ff}7");
    assert_eq!(decode_escapes("\\xZZ\\q").unwrap(), "\\xZZ\\q");
    assert_eq!(decode_escapes("end\\").unwrap(), "end\\");
    assert_eq!(decode_escapes("plain text, no escapes").unwrap(), "plain text, no escapes");
    assert!(decode_escapes("\\uD800").is_err());
    assert!(decode_escapes("\\U00110000").is_err());
}

#[test]
fn marker_names_are_safe_and_stable() {
    assert_eq!(asciinema::marker_name("Build #1", 1), "Build--1");
    assert_eq!(asciinema::marker_name("", 2), "marker-2");
}

#[test]
fn marker_names_trim_dashes_and_fall_back() {
    assert_eq!(asciinema::marker_name("--a b--", 1), "a-b");
    assert_eq!(asciinema::marker_name("###", 12), "marker-12");
    assert_eq!(asciinema::marker_name("état_1", 3), "tat_1");
}

#[test]
fn script_errors_name_their_line() {
    assert_eq!(
        parse_script_content("echo a \\\n#$ wait 5\n"),
        Err(ScriptError::DirectiveInterruptsCommand { line: 2 })
    );
    assert_eq!(
        parse_script_content("echo a \\\ncat <<EOF\nEOF\n"),
        Err(ScriptError::HeredocInterruptsCommand { line: 2 })
    );
    assert_eq!(
        parse_script_content("cat <<END\nbody\n"),
        Err(ScriptError::UnterminatedHeredoc { line: 1, delimiter: "END".to_owned() })
    );
    assert_eq!(
        parse_script_content("true\necho a \\\n"),
        Err(ScriptError::UnfinishedCommand { line: 2 })
    );
    assert_eq!(
        parse_script_content("#$ delay soon\n"),
        Err(ScriptError::ExpectedMilliseconds { line: 1 })
    );
    assert_eq!(
        parse_script_content("\n#$ expect (\n"),
        Err(ScriptError::InvalidRegex { line: 2 })
    );
    assert_eq!(
        parse_script_content("#$ sendcontrol ab\n"),
        Err(ScriptError::ControlArity { line: 1 })
    );
    assert_eq!(
        parse_script_content("#$ sendarrow sideways\n"),
        Err(ScriptError::UnknownArrow { line: 1 })
    );
    assert_eq!(
        parse_script_content("#$ sendarrow up many\n"),
        Err(ScriptError::InvalidArrowCount { line: 1 })
    );
    assert_eq!(
        parse_script_content("#$ sendarrow up 2 3\n"),
        Err(ScriptError::TooManyArrowArguments { line: 1 })
    );
    assert_eq!(
        parse_script_content("#$ dance\n"),
        Err(ScriptError::UnknownDirective { line: 1, directive: "dance".to_owned() })
    );
    assert_eq!(parse_script_content("#$ send \\uDFFF\n"), Err(ScriptError::InvalidCodepoint));
}

#[test]
fn continued_commands_keep_their_first_line() {
    let parsed = parse_script_with_lines("# comment\necho a \\\n  # inside\n  b\n").unwrap();
    assert_eq!(parsed.instructions.len(), 1);
    assert_eq!(parsed.instructions[0].line, 2);
    assert_eq!(
        parsed.instructions[0].instruction,
        Instruction::Command("echo a \\\n  b".to_owned())
    );
}

#[test]
fn directives_of_every_kind() {
    let instructions = parse_script_content(
        "  #$ delay 5\n#$ wait +7\n#$ sendcharacter q\\n\n#$ sendlinearrow down\n#$ snapshot  spaced out  \n",
    )
    .unwrap();
    assert_eq!(
        instructions,
        vec![
            Instruction::Delay(5),
            Instruction::Wait(7),
            Instruction::SendCharacter("q\\n".to_owned()),
            Instruction::SendArrow { direction: Arrow::Down, count: 1, enter: true },
            Instruction::Snapshot("spaced out".to_owned()),
        ]
    );
}

#[test]
fn heredoc_delimiters() {
    assert_eq!(heredoc_delimiter("cat <<EOF"), Some("EOF".to_owned()));
    assert_eq!(heredoc_delimiter("cat <<-'END' "), Some("END".to_owned()));
    assert_eq!(heredoc_delimiter("cat << \"X\""), Some("X".to_owned()));
    assert_eq!(heredoc_delimiter("cat <<- EOF"), Some(" EOF".to_owned()));
    assert_eq!(heredoc_delimiter("echo a << b c"), None);
    assert_eq!(heredoc_delimiter("cat <<''"), None);
    assert_eq!(heredoc_delimiter("echo hi"), None);
}

#[test]
fn lone_quote_heredoc_is_reported() {
    assert!(asciinema::parse_would_panic("cat <<'\n"));
    assert!(!asciinema::parse_would_panic("cat <<'EOF'\nEOF\n"));
    assert!(!asciinema::parse_would_panic("cat <<EOF\n<<'\nEOF\n"));
}

#[test]
fn crlf_lines_and_final_line_without_newline() {
    let parsed = parse_script_with_lines("echo a\r\necho b").unwrap();
    let lines = parsed.instructions.iter().map(|i| i.line).collect::<Vec<_>>();
    assert_eq!(lines, vec![1, 2]);
    assert_eq!(parsed.instructions[1].instruction, Instruction::Command("echo b".to_owned()));
}

#[test]
fn build_paths_for_other_layouts() {
    let paths = BuildPaths::new("demo.sh", None).unwrap();
    assert_eq!(paths.output_dir, "demo");
    assert_eq!(paths.gif, "demo/demo.gif");
    assert_eq!(paths.mp4, "demo/demo.mp4");
    assert_eq!(paths.stem, "demo");
    let paths = BuildPaths::new("/tmp/a/./b.c.sh", Some("out/")).unwrap();
    assert_eq!(paths.output_dir, "out/");
    assert_eq!(paths.cast, "out/b.c.cast");
    let paths = BuildPaths::new("./x.sh", None).unwrap();
    assert_eq!(paths.output_dir, "./x");
    let paths = BuildPaths::new("/x.sh", None).unwrap();
    assert_eq!(paths.snapshot_dir, "/x/snapshots");
    assert_eq!(BuildPaths::new(".sh", None), Err(asciinema::BuildError::NotShellScript));
    assert_eq!(BuildPaths::new("dir/demo.SH", None), Err(asciinema::BuildError::NotShellScript));
}

#[test]
fn summaries_of_each_instruction() {
    assert_eq!(
        instruction_summary(&Instruction::Command("a \\\nb".to_owned())),
        ("command", "a \\ b".to_owned())
    );
    assert_eq!(instruction_summary(&Instruction::Delay(250)), ("delay", "250 ms".to_owned()));
    assert_eq!(instruction_summary(&Instruction::Wait(0)), ("wait", "0 ms".to_owned()));
    assert_eq!(
        instruction_summary(&Instruction::Send("héllo".to_owned())),
        ("send", "5 character(s)".to_owned())
    );
    assert_eq!(
        instruction_summary(&Instruction::SendCharacter("".to_owned())),
        ("sendcharacter", "0 character(s)".to_owned())
    );
    assert_eq!(
        instruction_summary(&Instruction::SendArrow { direction: Arrow::Left, count: 12, enter: true }),
        ("sendlinearrow", "left x12".to_owned())
    );
    assert_eq!(
        instruction_summary(&Instruction::SendArrow { direction: Arrow::Right, count: 1, enter: false }),
        ("sendarrow", "right x1".to_owned())
    );
    assert_eq!(
        instruction_summary(&Instruction::SendControl('c')),
        ("sendcontrol", "c".to_owned())
    );
    assert_eq!(
        instruction_summary(&Instruction::Expect("\\$".to_owned())),
        ("expect", "\\$".to_owned())
    );
    assert_eq!(
        instruction_summary(&Instruction::Snapshot("x".to_owned())),
        ("snapshot", "x".to_owned())
    );
}

#[test]
fn directive_label_matches_keyword() {
    for d in ["delay 1", "expect x", "snapshot s", "sendcharacter c", "send t", "sendcontrol d",
        "sendarrow up", "sendlinearrow up 3", "wait 2"]
    {
        let ins = parse_directive(d, 1).unwrap();
        let (label, _) = instruction_summary(&ins);
        assert!(d.starts_with(&format!("{label} ")));
    }
}

#[test]
fn arrow_counts_and_limits() {
    assert_eq!(
        parse_arrow("  up   3 ", false, 4),
        Ok(Instruction::SendArrow { direction: Arrow::Up, count: 3, enter: false })
    );
    assert_eq!(
        parse_arrow("down 99999999999999999999999", true, 4),
        Err(asciinema::ScriptError::InvalidArrowCount { line: 4 })
    );
    assert_eq!(parse_arrow("", true, 9), Err(asciinema::ScriptError::UnknownArrow { line: 9 }));
}
