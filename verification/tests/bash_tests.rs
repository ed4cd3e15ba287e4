use stub::tools::bash::{check_command, interpret_output, wrap_command};

#[test]
fn dangerous_commands_are_blocked() {
    assert_eq!(
        check_command("rm -rf /").as_deref(),
        Some("\u{26a0} Blocked dangerous command pattern: rm\\s+-rf\\s+/")
    );
    assert_eq!(
        check_command("cd x && rm  -rf   *").as_deref(),
        Some("\u{26a0} Blocked dangerous command pattern: rm\\s+-rf\\s+\\*")
    );
    assert_eq!(
        check_command("sudo mkfs.ext4 /dev/sda").as_deref(),
        Some("\u{26a0} Blocked dangerous command pattern: mkfs")
    );
    assert_eq!(
        check_command("dd if=/dev/zero of=x").as_deref(),
        Some("\u{26a0} Blocked dangerous command pattern: dd\\s+if=")
    );
    assert!(check_command(":(){ :|:& };:").is_some());
    assert_eq!(check_command("ls -la"), None);
    assert_eq!(check_command("rm -rf build"), None);
}

#[test]
fn command_is_wrapped_to_print_its_directory() {
    assert_eq!(wrap_command("cd /tmp"), "cd /tmp; printf '\\n__PWD__:%s\\n' \"$(pwd -P)\"");
}

#[test]
fn output_without_errors() {
    let r = interpret_output(b"hello\nworld\n\n__PWD__:/tmp\n", b"", Some(0), true);
    assert_eq!(r.text, "hello\nworld");
    assert_eq!(r.new_dir.as_deref(), Some("/tmp"));
}

#[test]
fn output_with_stderr_and_exit_code() {
    let r = interpret_output(b"partial\n\n__PWD__:/home\n", b"  boom \n", Some(2), false);
    assert_eq!(r.text, "partial\n[stderr]\nboom\n[exit code: 2]");
    assert_eq!(r.new_dir, None);
    let r = interpret_output(b"", b"", None, false);
    assert_eq!(r.text, "[exit code: -1]");
    let r = interpret_output(b"\n__PWD__:/a\n", b"oops", Some(0), true);
    assert_eq!(r.text, "[stderr]\noops");
    assert_eq!(r.new_dir.as_deref(), Some("/a"));
}

#[test]
fn invalid_utf8_is_replaced() {
    let r = interpret_output(b"a\xffb\n", b"", Some(0), true);
    assert_eq!(r.text, "a\u{fffd}b");
    assert_eq!(r.new_dir, None);
}

#[test]
fn last_directory_report_wins() {
    let r = interpret_output(b"__PWD__:/one\nx\n__PWD__:/two\n", b"", Some(0), true);
    assert_eq!(r.text, "x");
    assert_eq!(r.new_dir.as_deref(), Some("/two"));
}
