use stub::tools::{ToolError, ToolRegistry};

#[test]
fn registry_finds_the_first_tool_with_a_name() {
    let mut registry: ToolRegistry<u32> = ToolRegistry::new();
    assert_eq!(registry.len(), 0);
    registry.add("read_file".to_string(), 1);
    registry.add("bash".to_string(), 2);
    registry.add("bash".to_string(), 3);
    assert_eq!(registry.len(), 3);
    assert_eq!(*registry.find("bash").ok().unwrap(), 2);
    assert_eq!(*registry.find("read_file").ok().unwrap(), 1);
    assert_eq!(registry.name_at(2), "bash");
    assert_eq!(*registry.tool_at(2), 3);
    match registry.find("nope") {
        Err(ToolError::UnknownTool(name)) => {
            assert_eq!(name, "nope");
            assert_eq!(ToolError::UnknownTool(name).message(), "Tool not found: nope");
        }
        _ => panic!("no tool is named nope"),
    }
}
