use stub::text::split_lines;
use stub::tools::file::{GlobTool, GrepTool, ReadFileTool, WriteFileTool};
use stub::tools::{required_arg, ToolError};

#[test]
fn test_file_tools() {
    let file_path_str = "/tmp/dir/test.txt";

    let write_tool = WriteFileTool;
    assert_eq!(write_tool.report(file_path_str), "Successfully wrote to /tmp/dir/test.txt");

    let grep_tool = GrepTool;
    let pattern = grep_tool.compile("world").ok().unwrap();
    let hits = grep_tool.search(&pattern, file_path_str, "hello world\nline 2");
    let grep_res = grep_tool.listing(&hits);
    assert!(grep_res.contains("hello world"));
    assert_eq!(grep_res, "/tmp/dir/test.txt:1: hello world");

    let glob_tool = GlobTool;
    let glob_res = glob_tool.listing(&vec![file_path_str.to_string()]);
    assert!(glob_res.contains("test.txt"));
}

#[test]
fn grep_numbers_matching_lines_from_one() {
    let grep_tool = GrepTool;
    let pattern = grep_tool.compile("^b.*").ok().unwrap();
    let hits = grep_tool.search(&pattern, "f", "apple\nbanana\ncherry\nblueberry\r\n");
    assert_eq!(hits, vec!["f:2: banana".to_string(), "f:4: blueberry".to_string()]);
    assert_eq!(grep_tool.listing(&hits), "f:2: banana\nf:4: blueberry");
    assert!(grep_tool.search(&pattern, "f", "").is_empty());
}

#[test]
fn grep_reports_an_invalid_pattern() {
    let grep_tool = GrepTool;
    match grep_tool.compile("foo(bar") {
        Err(ToolError::InvalidPattern(msg)) => {
            assert!(msg.contains("unclosed group"));
            assert_eq!(ToolError::InvalidPattern(msg.clone()).message(), msg);
        }
        _ => panic!("pattern should not compile"),
    }
}

#[test]
fn glob_listing_joins_paths_by_line() {
    let glob_tool = GlobTool;
    assert_eq!(glob_tool.listing(&vec![]), "");
    assert_eq!(glob_tool.listing(&vec!["a".to_string(), "b/c".to_string()]), "a\nb/c");
}

#[test]
fn missing_arguments_are_named() {
    match required_arg(None, "file_path") {
        Err(e) => assert_eq!(e.message(), "Missing file_path"),
        Ok(_) => panic!("argument is missing"),
    }
    assert_eq!(required_arg(Some("x".to_string()), "file_path").ok().unwrap(), "x");
}

#[test]
fn file_tool_names() {
    assert_eq!(ReadFileTool.name(), "read_file");
    assert_eq!(ReadFileTool.description(), "Read the content of a file.");
    assert_eq!(WriteFileTool.name(), "write_file");
    assert_eq!(GlobTool.name(), "glob");
    assert_eq!(GrepTool.name(), "grep_search");
    assert_eq!(GrepTool.description(), "Search for a pattern in files.");
}

#[test]
fn lines_follow_str_lines() {
    for s in ["", "a", "a\n", "a\n\n", "\n", "a\r\nb", "a\rb\n", "x\r", "a\nb\r\n\r\n"] {
        let expected: Vec<String> = s.lines().map(|l| l.to_string()).collect();
        assert_eq!(split_lines(s), expected, "lines of {:?}", s);
    }
}
