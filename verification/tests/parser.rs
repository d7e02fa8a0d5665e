use runbench::parser::{parse_command, split_tokens, trim_line_ending};

#[test]
fn splits_plain_tokens_on_spaces() {
    let (program, args) = parse_command("run alpha beta");
    assert_eq!(program, "run");
    assert_eq!(args, vec!["alpha".to_string(), "beta".to_string()]);
}

#[test]
fn single_word_command_has_no_arguments() {
    let (program, args) = parse_command("ls");
    assert_eq!(program, "ls");
    assert!(args.is_empty());
}

#[test]
fn quoted_segment_spanning_tokens_is_one_argument() {
    let (program, args) = parse_command("run \"first arg\" second");
    assert_eq!(program, "run");
    assert_eq!(args, vec!["first arg".to_string(), "second".to_string()]);
}

#[test]
fn quoted_segment_keeps_internal_spaces() {
    let (program, args) = parse_command("tool \"a b c\" tail");
    assert_eq!(program, "tool");
    assert_eq!(args, vec!["a b c".to_string(), "tail".to_string()]);
}

#[test]
fn one_token_quoted_argument_closes_immediately() {
    let (program, args) = parse_command("echo \"hi\" there");
    assert_eq!(program, "echo");
    assert_eq!(args, vec!["hi".to_string(), "there".to_string()]);
}

#[test]
fn unbalanced_quote_drops_the_trailing_buffer() {
    let (program, args) = parse_command("run \"never closed");
    assert_eq!(program, "run");
    assert!(args.is_empty());
}

#[test]
fn adjacent_spaces_yield_an_empty_argument() {
    let (program, args) = parse_command("run a  b");
    assert_eq!(program, "run");
    assert_eq!(args, vec!["a".to_string(), "".to_string(), "b".to_string()]);
}

#[test]
fn empty_command_string_names_no_program() {
    let (program, args) = parse_command("");
    assert_eq!(program, "");
    assert!(args.is_empty());
}

#[test]
fn trailing_quote_without_opening_is_kept_verbatim() {
    let (program, args) = parse_command("run ab\"");
    assert_eq!(program, "run");
    assert_eq!(args, vec!["ab\"".to_string()]);
}

#[test]
fn two_quoted_segments_become_two_arguments() {
    let (program, args) = parse_command("run \"a b\" \"c d\"");
    assert_eq!(program, "run");
    assert_eq!(args, vec!["a b".to_string(), "c d".to_string()]);
}

#[test]
fn split_tokens_keeps_every_piece() {
    let tokens = split_tokens("one two  three");
    assert_eq!(
        tokens,
        vec![
            "one".to_string(),
            "two".to_string(),
            "".to_string(),
            "three".to_string()
        ]
    );
}

#[test]
fn split_tokens_of_empty_string_is_one_empty_token() {
    assert_eq!(split_tokens(""), vec!["".to_string()]);
}

#[test]
fn trim_line_ending_strips_lf() {
    assert_eq!(trim_line_ending("echo hi\n"), "echo hi");
}

#[test]
fn trim_line_ending_strips_crlf() {
    assert_eq!(trim_line_ending("echo hi\r\n"), "echo hi");
}

#[test]
fn trim_line_ending_leaves_plain_text() {
    assert_eq!(trim_line_ending("echo hi"), "echo hi");
}

#[test]
fn trim_line_ending_of_bare_newline_is_empty() {
    assert_eq!(trim_line_ending("\n"), "");
}
