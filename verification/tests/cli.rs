use notepadppp::platform::cli::{parse_file_location, CliArgs};


#[test]
fn test_parse_no_args() {
    let args = vec!["notepadppp"];
    let cli = CliArgs::parse(args).unwrap();
    assert!(cli.files.is_empty());
    assert!(cli.goto_line.is_none());
}

#[test]
fn test_parse_single_file() {
    let args = vec!["notepadppp", "file.txt"];
    let cli = CliArgs::parse(args).unwrap();
    assert_eq!(cli.files, vec![String::from("file.txt")]);
}

#[test]
fn test_parse_multiple_files() {
    let args = vec!["notepadppp", "a.rs", "b.py", "c.js"];
    let cli = CliArgs::parse(args).unwrap();
    assert_eq!(cli.files.len(), 3);
}

#[test]
fn test_parse_goto_line() {
    let args = vec!["notepadppp", "-n", "42", "file.rs"];
    let cli = CliArgs::parse(args).unwrap();
    assert_eq!(cli.goto_line, Some(42));
    assert_eq!(cli.files, vec![String::from("file.rs")]);
}

#[test]
fn test_parse_goto_line_long() {
    let args = vec!["notepadppp", "--line", "100", "file.rs"];
    let cli = CliArgs::parse(args).unwrap();
    assert_eq!(cli.goto_line, Some(100));
}

#[test]
fn test_parse_goto_column() {
    let args = vec!["notepadppp", "-c", "10", "file.rs"];
    let cli = CliArgs::parse(args).unwrap();
    assert_eq!(cli.goto_column, Some(10));
}

#[test]
fn test_parse_encoding() {
    let args = vec!["notepadppp", "-e", "utf-16le", "file.txt"];
    let cli = CliArgs::parse(args).unwrap();
    assert_eq!(cli.encoding, Some("utf-16le".to_string()));
}

#[test]
fn test_parse_language() {
    let args = vec!["notepadppp", "--language", "rust", "script.txt"];
    let cli = CliArgs::parse(args).unwrap();
    assert_eq!(cli.language, Some("rust".to_string()));
}

#[test]
fn test_parse_read_only() {
    let args = vec!["notepadppp", "-r", "file.txt"];
    let cli = CliArgs::parse(args).unwrap();
    assert!(cli.read_only);
}

#[test]
fn test_parse_new_instance() {
    let args = vec!["notepadppp", "--new-instance", "file.txt"];
    let cli = CliArgs::parse(args).unwrap();
    assert!(cli.new_instance);
}

#[test]
fn test_parse_register_shell() {
    let args = vec!["notepadppp", "--register-shell"];
    let cli = CliArgs::parse(args).unwrap();
    assert!(cli.register_shell);
}

#[test]
fn test_parse_unregister_shell() {
    let args = vec!["notepadppp", "--unregister-shell"];
    let cli = CliArgs::parse(args).unwrap();
    assert!(cli.unregister_shell);
}

#[test]
fn test_parse_version() {
    let args = vec!["notepadppp", "--version"];
    let cli = CliArgs::parse(args).unwrap();
    assert!(cli.version);
}

#[test]
fn test_parse_help() {
    let args = vec!["notepadppp", "-h"];
    let cli = CliArgs::parse(args).unwrap();
    assert!(cli.help);
}

#[test]
fn test_parse_combined_short_line() {
    let args = vec!["notepadppp", "-n42", "file.rs"];
    let cli = CliArgs::parse(args).unwrap();
    assert_eq!(cli.goto_line, Some(42));
}

#[test]
fn test_parse_file_colon_line() {
    let args = vec!["notepadppp", "main.rs:42"];
    let cli = CliArgs::parse(args).unwrap();
    assert_eq!(cli.files, vec![String::from("main.rs")]);
    assert_eq!(cli.goto_line, Some(42));
}

#[test]
fn test_parse_file_colon_line_colon_col() {
    let args = vec!["notepadppp", "main.rs:42:10"];
    let cli = CliArgs::parse(args).unwrap();
    assert_eq!(cli.files, vec![String::from("main.rs")]);
    assert_eq!(cli.goto_line, Some(42));
    assert_eq!(cli.goto_column, Some(10));
}

#[test]
fn test_parse_all_options() {
    let args = vec![
        "notepadppp",
        "-n", "10",
        "-c", "5",
        "-e", "utf-8",
        "-l", "python",
        "-r",
        "--new-instance",
        "--new-tab-group",
        "file.py",
    ];
    let cli = CliArgs::parse(args).unwrap();
    assert_eq!(cli.goto_line, Some(10));
    assert_eq!(cli.goto_column, Some(5));
    assert_eq!(cli.encoding, Some("utf-8".to_string()));
    assert_eq!(cli.language, Some("python".to_string()));
    assert!(cli.read_only);
    assert!(cli.new_instance);
    assert!(cli.new_tab_group);
    assert_eq!(cli.files, vec![String::from("file.py")]);
}

#[test]
fn test_parse_unknown_option_error() {
    let args = vec!["notepadppp", "--foobar"];
    assert!(CliArgs::parse(args).is_err());
}

#[test]
fn test_parse_missing_value_error() {
    let args = vec!["notepadppp", "-n"];
    assert!(CliArgs::parse(args).is_err());
}

#[test]
fn test_parse_invalid_line_error() {
    let args = vec!["notepadppp", "-n", "abc"];
    assert!(CliArgs::parse(args).is_err());
}

#[test]
fn test_parse_zero_line_error() {
    let args = vec!["notepadppp", "-n", "0"];
    assert!(CliArgs::parse(args).is_err());
}

#[test]
fn test_help_text_contains_usage() {
    let text = CliArgs::help_text();
    assert!(text.contains("USAGE:"));
    assert!(text.contains("--line"));
    assert!(text.contains("--encoding"));
    assert!(text.contains("--register-shell"));
}

#[test]
fn test_parse_file_location_unix() {
    let result = parse_file_location("main.rs:42");
    assert_eq!(result, Some(("main.rs", 42, None)));
}

#[test]
fn test_parse_file_location_with_col() {
    let result = parse_file_location("main.rs:42:10");
    assert_eq!(result, Some(("main.rs", 42, Some(10))));
}

#[test]
fn test_parse_file_location_no_colon() {
    let result = parse_file_location("main.rs");
    assert_eq!(result, None);
}

#[test]
fn test_parse_file_location_not_number() {
    let result = parse_file_location("main.rs:abc");
    assert_eq!(result, None);
}

#[test]
fn test_parse_goto_alias() {
    let args = vec!["notepadppp", "-goto", "50", "file.rs"];
    let cli = CliArgs::parse(args).unwrap();
    assert_eq!(cli.goto_line, Some(50));
}
