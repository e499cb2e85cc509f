use quipu::parser::{parse_script, parse_type_content};
use quipu::types::{Command, Decimal};

fn type_text(line: &str) -> String {
    let script = parse_script(line).expect("line should parse");
    assert_eq!(script.commands.len(), 1);
    match &script.commands[0] {
        Command::Type(text) => text.clone(),
        other => panic!("expected a Type command, got {:?}", other),
    }
}

#[test]
fn test_parse_speed() {
    let input = "@ speed:0.2";
    let result = parse_script(input);
    assert!(result.is_ok());
    let script = result.unwrap();
    assert_eq!(script.commands[0], Command::SetSpeed(Decimal { micros: 200_000 }));
}

#[test]
fn test_parse_jitter() {
    let input = "@ jitter:0.02";
    let result = parse_script(input);
    assert!(result.is_ok());
    let script = result.unwrap();
    assert_eq!(script.commands[0], Command::SetJitter(Decimal { micros: 20_000 }));
}

#[test]
fn test_parse_wait() {
    let input = "@ wait:2.0";
    let result = parse_script(input);
    assert!(result.is_ok());
    let script = result.unwrap();
    assert_eq!(script.commands[0], Command::Wait(Decimal { micros: 2_000_000 }));
}

#[test]
fn test_parse_shell() {
    let input = "@ shell:/bin/zsh";
    let result = parse_script(input);
    assert!(result.is_ok());
    let script = result.unwrap();
    assert_eq!(script.commands[0], Command::SetShell("/bin/zsh".to_string()));
}

#[test]
fn test_parse_type() {
    let input = "$ echo hello";
    let result = parse_script(input);
    assert!(result.is_ok());
    let script = result.unwrap();
    assert_eq!(script.commands[0], Command::Type("echo hello".to_string()));
}

#[test]
fn test_parse_type_with_special_keys() {
    let input = "$ echo hello<ret>";
    let result = parse_script(input);
    assert!(result.is_ok());
    let script = result.unwrap();
    if let Command::Type(text) = &script.commands[0] {
        assert_eq!(text, "echo hello\r");
    } else {
        panic!("Expected Type command");
    }
}

#[test]
fn test_parse_type_with_ctrl() {
    let input = "$ <C-c>";
    let result = parse_script(input);
    assert!(result.is_ok());
    let script = result.unwrap();
    if let Command::Type(text) = &script.commands[0] {
        assert_eq!(text, "\x03");
    } else {
        panic!("Expected Type command");
    }
}

#[test]
fn test_parse_type_with_escaped() {
    let input = r"$ \<not a key\>";
    let result = parse_script(input);
    assert!(result.is_ok());
    let script = result.unwrap();
    if let Command::Type(text) = &script.commands[0] {
        assert_eq!(text, "<not a key>");
    } else {
        panic!("Expected Type command");
    }
}

#[test]
fn test_parse_script() {
    let input = "@ speed:0.2\n@ jitter:0.02\n# This is a comment\n$ echo hello\n@ wait:1.0\n$ ls -la\n";
    let result = parse_script(input);
    if let Err(e) = &result {
        println!("Parse error: {}", e);
    }
    assert!(result.is_ok());
    let script = result.unwrap();
    assert_eq!(script.commands.len(), 5);
}

#[test]
fn test_parse_alt_with_special_keys() {
    let input = "$ <A-ret>";
    let result = parse_script(input);
    assert!(result.is_ok());
    let script = result.unwrap();
    if let Command::Type(text) = &script.commands[0] {
        assert_eq!(text, "\x1b\r");
    } else {
        panic!("Expected Type command");
    }

    let input = "$ <A-space>";
    let result = parse_script(input);
    assert!(result.is_ok());
    let script = result.unwrap();
    if let Command::Type(text) = &script.commands[0] {
        assert_eq!(text, "\x1b ");
    } else {
        panic!("Expected Type command");
    }
}

#[test]
fn test_parse_ctrl_with_special_keys() {
    let input = "$ <C-space>";
    let result = parse_script(input);
    assert!(result.is_ok());
    let script = result.unwrap();
    if let Command::Type(text) = &script.commands[0] {
        assert_eq!(text, "\x00");
    } else {
        panic!("Expected Type command");
    }
}

#[test]
fn named_keys_resolve_to_documented_sequences() {
    assert_eq!(type_text("$ <ret>"), "\r");
    assert_eq!(type_text("$ <esc>"), "\x1b");
    assert_eq!(type_text("$ <tab>"), "\t");
    assert_eq!(type_text("$ <backspace>"), "\x7f");
    assert_eq!(type_text("$ <F1>"), "\x1bOP");
    assert_eq!(type_text("$ <F4>"), "\x1bOS");
    assert_eq!(type_text("$ <F5>"), "\x1b[15~");
    assert_eq!(type_text("$ <F12>"), "\x1b[24~");
    assert_eq!(type_text("$ <up>"), "\x1b[A");
    assert_eq!(type_text("$ <left>"), "\x1b[D");
    assert_eq!(type_text("$ <home>"), "\x1b[H");
    assert_eq!(type_text("$ <end>"), "\x1b[F");
    assert_eq!(type_text("$ <pageup>"), "\x1b[5~");
    assert_eq!(type_text("$ <pgdn>"), "\x1b[6~");
    assert_eq!(type_text("$ <ins>"), "\x1b[2~");
    assert_eq!(type_text("$ <delete>"), "\x1b[3~");
}

#[test]
fn ctrl_letters_map_to_control_codes() {
    assert_eq!(type_text("$ <C-a>"), "\x01");
    assert_eq!(type_text("$ <C-z>"), "\x1a");
    assert_eq!(type_text("$ <Ctrl-g>"), "\x07");
}

#[test]
fn ctrl_of_an_uppercase_letter_lowercases_first() {
    assert_eq!(type_text("$ <C-A>"), "\x01");
}

#[test]
fn directive_allows_no_space_after_the_marker() {
    let script = parse_script("@speed:0.2").unwrap();
    assert_eq!(script.commands[0], Command::SetSpeed(Decimal { micros: 200_000 }));
}

#[test]
fn ctrl_punctuation_maps_to_c0_codes() {
    assert_eq!(type_text("$ <C-[>"), "\x1b");
    assert_eq!(type_text("$ <C-]>"), "\x1d");
    assert_eq!(type_text(r"$ <C-\>"), "\x1c");
}

#[test]
fn alt_prepends_escape_to_any_base() {
    assert_eq!(type_text("$ <A-x>"), "\x1bx");
    assert_eq!(type_text("$ <M-F5>"), "\x1b\x1b[15~");
}

#[test]
fn shift_uppercases_a_single_character() {
    assert_eq!(type_text("$ <S-a>"), "A");
}

#[test]
fn ctrl_shift_and_ctrl_alt_combinations() {
    assert_eq!(type_text("$ <C-S-c>"), "\x03");
    assert_eq!(type_text("$ <C-A-c>"), "\x1b\x03");
}

#[test]
fn unknown_spec_passes_through_verbatim() {
    assert_eq!(type_text("$ <nope>"), "<nope>");
    assert_eq!(type_text("$ <X-q>"), "<X-q>");
    assert_eq!(type_text("$ <C-ret>"), "<C-ret>");
}

#[test]
fn unterminated_bracket_is_literal() {
    assert_eq!(type_text("$ a<b"), "a<b");
}

#[test]
fn type_content_expands_directly() {
    assert_eq!(parse_type_content("echo hello<ret>"), "echo hello\r");
    assert_eq!(parse_type_content(r"\<not a key\>"), "<not a key>");
    assert_eq!(parse_type_content(""), "");
}

#[test]
fn parse_size_directive() {
    let script = parse_script("@ size:80:24").unwrap();
    assert_eq!(script.commands[0], Command::SetSize(80, 24));
}

#[test]
fn size_overflow_is_an_error() {
    let result = parse_script("@ size:99999:24");
    assert_eq!(result.unwrap_err(), "Line 1: Parse error");
}

#[test]
fn empty_script_has_no_commands() {
    let script = parse_script("").unwrap();
    assert_eq!(script.commands.len(), 0);
    let script = parse_script("\n# only a comment\n\n").unwrap();
    assert_eq!(script.commands.len(), 0);
}

#[test]
fn malformed_line_cites_its_number() {
    let result = parse_script("@ speed:0.2\n\n# fine\nbogus line\n$ ok");
    assert_eq!(result.unwrap_err(), "Line 4: Parse error");
}

#[test]
fn trailing_text_after_directive_is_an_error() {
    let result = parse_script("@ speed:0.2 extra");
    assert_eq!(
        result.unwrap_err(),
        "Line 1: Unexpected text after command: ' extra'"
    );
}

#[test]
fn malformed_directive_value_is_an_error() {
    assert_eq!(parse_script("@ speed:fast").unwrap_err(), "Line 1: Parse error");
    assert_eq!(parse_script("@ speed:").unwrap_err(), "Line 1: Parse error");
    assert_eq!(parse_script("@ tempo:1").unwrap_err(), "Line 1: Parse error");
}

#[test]
fn scenario_full_script_command_kinds() {
    let input = "@ speed:0.2\n@ jitter:0.02\n# comment\n$ echo hi\n@ wait:1.0\n$ ls -la\n";
    let script = parse_script(input).unwrap();
    assert_eq!(script.commands.len(), 5);
    assert_eq!(script.commands[0], Command::SetSpeed(Decimal { micros: 200_000 }));
    assert_eq!(script.commands[1], Command::SetJitter(Decimal { micros: 20_000 }));
    assert_eq!(script.commands[2], Command::Type("echo hi".to_string()));
    assert_eq!(script.commands[3], Command::Wait(Decimal { micros: 1_000_000 }));
    assert_eq!(script.commands[4], Command::Type("ls -la".to_string()));
}

#[test]
fn decimal_values_parse_exactly() {
    let script = parse_script("@ speed:1.5\n@ wait:0.125\n@ jitter:1").unwrap();
    assert_eq!(script.commands[0], Command::SetSpeed(Decimal { micros: 1_500_000 }));
    assert_eq!(script.commands[1], Command::Wait(Decimal { micros: 125_000 }));
    assert_eq!(script.commands[2], Command::SetJitter(Decimal { micros: 1_000_000 }));
}

#[test]
fn crlf_line_endings_parse_like_plain_newlines() {
    let script = parse_script("@ speed:0.2\r\n$ hi\r\n").unwrap();
    assert_eq!(script.commands.len(), 2);
    assert_eq!(script.commands[1], Command::Type("hi".to_string()));
}

#[test]
fn shell_value_is_trimmed() {
    let script = parse_script("@ shell:  /bin/bash  ").unwrap();
    assert_eq!(script.commands[0], Command::SetShell("/bin/bash".to_string()));
}
