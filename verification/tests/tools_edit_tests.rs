use stub::tools::edit::EditFileTool;
use stub::text::replace_first_occurrence;
use stub::tools::ToolError;

const PATH: &str = "/tmp/work/notes.txt";

#[test]
fn test_edit_file_success() {
    let path = PATH.to_string();
    let tool = EditFileTool;
    let content = "line1\nline2\nline3\n";
    let edited = tool.apply(&path, content, "line2", "line2 modified").ok().unwrap();
    let result = tool.report(&path, content, &edited);
    assert!(result.contains("Successfully edited"));
    assert!(result.contains(&format!("--- a/{}", path)));
    assert!(result.contains(&format!("+++ b/{}", path)));
    assert!(result.contains("-line2"));
    assert!(result.contains("+line2 modified"));

    assert_eq!(edited, "line1\nline2 modified\nline3\n");
}

#[test]
fn test_edit_file_not_found() {
    let tool = EditFileTool;
    let result = tool.apply(PATH, "line1\nline2\nline3\n", "missing", "replacement");
    assert!(result.is_err());
    let message = result.err().unwrap().message();
    assert!(message.contains("Ensure the string matches exactly"));
    assert_eq!(
        message,
        "old_string not found in /tmp/work/notes.txt. Ensure the string matches exactly, including whitespace and indentation."
    );
}

#[test]
fn test_edit_file_multiple_occurrences() {
    let tool = EditFileTool;
    let result = tool.apply(PATH, "dup\ndup\n", "dup", "single");
    assert!(result.is_err());
    let message = result.err().unwrap().message();
    assert!(message.contains("appears 2 times"));
    assert_eq!(message, "old_string appears 2 times in /tmp/work/notes.txt. Include more context.");
}

#[test]
fn test_edit_file_empty_old_string() {
    let tool = EditFileTool;
    let result = tool.check_old_string("");
    assert!(result.is_err());
    assert_eq!(result.err().unwrap().message(), "old_string cannot be empty");
    assert!(matches!(tool.apply("any.txt", "text", "", "something"), Err(ToolError::EmptyOldString)));
    assert!(tool.check_old_string("x").is_ok());
}

#[test]
fn edit_replaces_only_the_single_occurrence() {
    let tool = EditFileTool;
    let edited = tool.apply(PATH, "alpha beta gamma", "beta", "BETA").ok().unwrap();
    assert_eq!(edited, "alpha BETA gamma");
    // Overlapping occurrences count apart: "aa" occurs at 0 and 1 in "aaa".
    match tool.apply(PATH, "aaa", "aa", "b") {
        Err(ToolError::Ambiguous(2, p)) => assert_eq!(p, PATH),
        _ => panic!("expected two occurrences"),
    }
    match tool.apply(PATH, "aaaa", "aa", "b") {
        Err(ToolError::Ambiguous(3, p)) => assert_eq!(p, PATH),
        _ => panic!("expected three occurrences"),
    }
    assert_eq!(tool.apply(PATH, "aab", "ab", "X").ok().unwrap(), "aX");
    let edited = tool.apply(PATH, "h\u{e9}llo w\u{f6}rld", "w\u{f6}", "wo").ok().unwrap();
    assert_eq!(edited, "h\u{e9}llo world");
}

#[test]
fn edit_report_holds_the_unified_diff() {
    let tool = EditFileTool;
    let report = tool.report("f.txt", "a\nb\nc\n", "a\nB\nc\n");
    assert_eq!(report, "Successfully edited f.txt\n--- a/f.txt\n+++ b/f.txt\n@@ -1,3 +1,3 @@\n a\n-b\n+B\n c\n");
    let unchanged = tool.report("f.txt", "same\n", "same\n");
    assert_eq!(unchanged, "Successfully edited f.txt\n");
}

#[test]
fn tool_names_and_descriptions() {
    let tool = EditFileTool;
    assert_eq!(tool.name(), "edit_file");
    assert!(tool.description().starts_with("Edit a file by replacing an exact string match. old_string must appear exactly once"));
}

#[test]
fn replacing_the_empty_text_puts_the_replacement_in_front() {
    assert_eq!(replace_first_occurrence("abc", "", "X"), "abc".replacen("", "X", 1));
    assert_eq!(replace_first_occurrence("abcbc", "bc", "X"), "abcbc".replacen("bc", "X", 1));
    assert_eq!(replace_first_occurrence("abc", "z", "X"), "abc");
}
