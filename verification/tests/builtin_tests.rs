use rush::builtin::{
    builtin_of, cd_error_message, directory_change, execution_error_message, exit_code,
    expand_tilde, not_found_message, parse_exit_code, same_text, Builtin, DirectoryChange, PROMPT,
};

fn args(items: &[&str]) -> Vec<String> {
    items.iter().map(|a| a.to_string()).collect()
}

#[test]
fn builtins_are_found_by_name() {
    assert_eq!(builtin_of("exit"), Some(Builtin::Exit));
    assert_eq!(builtin_of("cd"), Some(Builtin::ChangeDirectory));
    assert_eq!(builtin_of("ls"), None);
    assert_eq!(builtin_of("Exit"), None);
    assert_eq!(builtin_of("exit "), None);
    assert_eq!(builtin_of(""), None);
}

#[test]
fn same_text_compares_texts() {
    assert!(same_text("a", "a"));
    assert!(same_text("", ""));
    assert!(!same_text("a", "b"));
    assert!(!same_text("a", "ab"));
}

#[test]
fn exit_codes_are_decimal_integers() {
    assert_eq!(parse_exit_code("0"), Some(0));
    assert_eq!(parse_exit_code("42"), Some(42));
    assert_eq!(parse_exit_code("007"), Some(7));
    assert_eq!(parse_exit_code("+5"), Some(5));
    assert_eq!(parse_exit_code("-1"), Some(-1));
    assert_eq!(parse_exit_code("-0"), Some(0));
}

#[test]
fn exit_codes_fit_32_bits() {
    assert_eq!(parse_exit_code("2147483647"), Some(2147483647));
    assert_eq!(parse_exit_code("2147483648"), None);
    assert_eq!(parse_exit_code("-2147483648"), Some(-2147483648));
    assert_eq!(parse_exit_code("-2147483649"), None);
    assert_eq!(parse_exit_code("99999999999999999999999999"), None);
    assert_eq!(parse_exit_code("00000000000000000000000001"), Some(1));
}

#[test]
fn what_is_no_integer_is_no_exit_code() {
    assert_eq!(parse_exit_code(""), None);
    assert_eq!(parse_exit_code("-"), None);
    assert_eq!(parse_exit_code("+"), None);
    assert_eq!(parse_exit_code("abc"), None);
    assert_eq!(parse_exit_code("1a"), None);
    assert_eq!(parse_exit_code(" 1"), None);
    assert_eq!(parse_exit_code("1 "), None);
    assert_eq!(parse_exit_code("--1"), None);
    assert_eq!(parse_exit_code("1_000"), None);
    assert_eq!(parse_exit_code("٣"), None);
}

#[test]
fn exit_defaults_to_zero() {
    assert_eq!(exit_code(&args(&[])), 0);
    assert_eq!(exit_code(&args(&["3"])), 3);
    assert_eq!(exit_code(&args(&["3", "4"])), 3);
    assert_eq!(exit_code(&args(&["x"])), 0);
    assert_eq!(exit_code(&args(&["x", "4"])), 0);
    assert_eq!(exit_code(&args(&["-2"])), -2);
}

#[test]
fn tilde_expands_to_home() {
    assert_eq!(expand_tilde("~", "/home/user"), "/home/user");
    assert_eq!(expand_tilde("~/docs", "/home/user"), "/home/user/docs");
    assert_eq!(expand_tilde("~/", "/home/user"), "/home/user/");
    assert_eq!(expand_tilde("~/a/~/b", "/h"), "/h/a/~/b");
}

#[test]
fn tilde_elsewhere_stays() {
    assert_eq!(expand_tilde("~user", "/home/user"), "~user");
    assert_eq!(expand_tilde("a/~", "/home/user"), "a/~");
    assert_eq!(expand_tilde("/tmp", "/home/user"), "/tmp");
    assert_eq!(expand_tilde("", "/home/user"), "");
}

#[test]
fn cd_without_argument_goes_home() {
    assert_eq!(
        directory_change(&args(&[]), "/home/user"),
        DirectoryChange { target: "/home/user".to_string(), shown: "/home/user".to_string() }
    );
    assert_eq!(
        directory_change(&args(&[""]), "/home/user"),
        DirectoryChange { target: "/home/user".to_string(), shown: "/home/user".to_string() }
    );
}

#[test]
fn cd_with_argument_goes_there() {
    assert_eq!(
        directory_change(&args(&["/tmp", "x"]), "/home/user"),
        DirectoryChange { target: "/tmp".to_string(), shown: "/tmp".to_string() }
    );
    assert_eq!(
        directory_change(&args(&["~/docs"]), "/home/user"),
        DirectoryChange { target: "/home/user/docs".to_string(), shown: "~/docs".to_string() }
    );
    assert_eq!(
        directory_change(&args(&["~"]), "/home/user"),
        DirectoryChange { target: "/home/user".to_string(), shown: "~".to_string() }
    );
}

#[test]
fn messages_have_their_fixed_form() {
    assert_eq!(PROMPT, "$ ");
    assert_eq!(not_found_message("frobnicate"), "frobnicate: command not found");
    assert_eq!(cd_error_message("/nowhere"), "cd: /nowhere: No such file or directory");
    assert_eq!(cd_error_message("~/x"), "cd: ~/x: No such file or directory");
    assert_eq!(
        execution_error_message("Permission denied (os error 13)"),
        "Error executing command: Permission denied (os error 13)"
    );
}
