use jest_lua_companion::ordered_map::OrderedMap;
use jest_lua_companion::sourcemap::{ParseError, RojoSourceMap, RojoSourceMapEntry, RojoSourceMapNode};
use jest_lua_companion::trace::{convert_stack_trace, convert_stack_trace_text};

fn node(name: &str, file_paths: Vec<&str>, children: Vec<RojoSourceMapNode>) -> RojoSourceMapNode {
    RojoSourceMapNode {
        name: name.to_string(),
        className: name.to_string(),
        filePaths: file_paths.into_iter().map(|p| p.to_string()).collect(),
        children,
    }
}

fn unused_tree() -> Result<RojoSourceMapNode, ParseError> {
    Err(ParseError { message: "missing field `name`".to_string() })
}

#[test]
fn test_sourcemap_creation_flat_format() {
    let mut entries = OrderedMap::new();
    entries.insert(
        "path1".to_string(),
        RojoSourceMapEntry {
            path: "C:/path/to/file1.lua".to_string(),
            filePaths: vec!["C:/path/to/file1.lua".to_string()],
        },
    );
    entries.insert(
        "path2".to_string(),
        RojoSourceMapEntry {
            path: "C:/path/to/file2.lua".to_string(),
            filePaths: vec!["C:/path/to/file2.lua".to_string()],
        },
    );

    let sourcemap = RojoSourceMap::new(Some(entries), unused_tree()).expect("Failed to create sourcemap");

    assert!(sourcemap.get_entries().contains_key("path1"));
    assert!(sourcemap.get_entries().contains_key("path2"));

    assert_eq!(sourcemap.get_entries().get("path1").unwrap().path, "C:/path/to/file1.lua");
    assert_eq!(sourcemap.get_entries().get("path2").unwrap().path, "C:/path/to/file2.lua");
}

#[test]
fn test_sourcemap_creation_tree_format() {
    let root = node(
        "DataModel",
        vec![],
        vec![node(
            "ServerScriptService",
            vec![],
            vec![node("Script", vec!["C:/path/to/script.lua"], vec![])],
        )],
    );

    let sourcemap = RojoSourceMap::new(None, Ok(root)).expect("Failed to create sourcemap");

    assert!(sourcemap.get_path_map().contains_key("DataModel.ServerScriptService.Script"));

    assert_eq!(
        sourcemap.get_path_map().get("DataModel.ServerScriptService.Script").unwrap(),
        "C:/path/to/script.lua"
    );
}

#[test]
fn test_get_file_path() {
    let mut entries = OrderedMap::new();
    entries.insert(
        "ServerScriptService.Script1".to_string(),
        RojoSourceMapEntry {
            path: "C:/entries/script1.lua".to_string(),
            filePaths: vec!["C:/entries/script1.lua".to_string()],
        },
    );

    let mut path_map = OrderedMap::new();
    path_map.insert(
        "DataModel.ServerScriptService.Script2".to_string(),
        "C:/path_map/script2.lua".to_string(),
    );
    path_map.insert(
        "Game.ReplicatedStorage.Module".to_string(),
        "C:/path_map/module.lua".to_string(),
    );

    let sourcemap = RojoSourceMap::create_test_sourcemap(entries, path_map);

    assert_eq!(
        sourcemap.get_file_path("ServerScriptService.Script1"),
        Some("C:/entries/script1.lua".to_string())
    );

    assert_eq!(
        sourcemap.get_file_path("DataModel.ServerScriptService.Script2"),
        Some("C:/path_map/script2.lua".to_string())
    );

    let mut sourcemap_with_lua = sourcemap.clone();
    sourcemap_with_lua.get_path_map_mut().insert(
        "Module.lua".to_string(),
        "C:/path_map/module_with_lua.lua".to_string(),
    );

    assert_eq!(
        sourcemap_with_lua.get_file_path("Module"),
        Some("C:/path_map/module_with_lua.lua".to_string())
    );

    assert_eq!(
        sourcemap.get_file_path("ServerScriptService.Script2"),
        Some("C:/path_map/script2.lua".to_string())
    );

    assert_eq!(
        sourcemap.get_file_path("ReplicatedStorage.Module"),
        Some("C:/path_map/module.lua".to_string())
    );

    assert_eq!(sourcemap.get_file_path("NonexistentPath"), None);
}

#[test]
fn test_convert_stack_trace() {
    let mut path_map = OrderedMap::new();
    path_map.insert(
        "DataModel.ServerScriptService.Script".to_string(),
        "C:/path/to/script.lua".to_string(),
    );
    path_map.insert(
        "DataModel.ReplicatedStorage.Module".to_string(),
        "C:/path/to/module.lua".to_string(),
    );

    let sourcemap = RojoSourceMap::create_test_sourcemap(OrderedMap::new(), path_map);

    assert_eq!(
        convert_stack_trace("ServerScriptService.Script:42", &sourcemap),
        "C:/path/to/script.lua:42"
    );

    assert_eq!(
        convert_stack_trace("DataModel.ServerScriptService.Script:42", &sourcemap),
        "C:/path/to/script.lua:42"
    );

    let original_line = "NonexistentPath:42";
    assert_eq!(convert_stack_trace(original_line, &sourcemap), original_line);
}

#[test]
fn test_convert_stack_trace_text() {
    let mut path_map = OrderedMap::new();
    path_map.insert(
        "DataModel.ServerScriptService.Script1".to_string(),
        "C:/path/to/script1.lua".to_string(),
    );
    path_map.insert(
        "DataModel.ServerScriptService.Script2".to_string(),
        "C:/path/to/script2.lua".to_string(),
    );

    let sourcemap = RojoSourceMap::create_test_sourcemap(OrderedMap::new(), path_map);

    let stack_trace = "ServerScriptService.Script1:42\nServerScriptService.Script2:24\nNonExistentPath:10";
    let expected = "C:/path/to/script1.lua:42\nC:/path/to/script2.lua:24\nNonExistentPath:10";

    assert_eq!(convert_stack_trace_text(stack_trace, &sourcemap), expected);
}
