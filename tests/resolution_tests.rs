use jest_lua_companion::options::{merge_run_cli_options, RunCliOptions};
use jest_lua_companion::ordered_map::OrderedMap;
use jest_lua_companion::sourcemap::{
    strip_json_prefix, ParseError, RojoSourceMap, RojoSourceMapEntry, RojoSourceMapNode,
};
use jest_lua_companion::trace::{convert_stack_trace, convert_stack_trace_text};

fn node(name: &str, file_paths: Vec<&str>, children: Vec<RojoSourceMapNode>) -> RojoSourceMapNode {
    RojoSourceMapNode {
        name: name.to_string(),
        className: "Folder".to_string(),
        filePaths: file_paths.into_iter().map(|p| p.to_string()).collect(),
        children,
    }
}

fn index_of(pairs: &[(&str, &str)]) -> RojoSourceMap {
    let mut path_map = OrderedMap::new();
    for (k, v) in pairs {
        path_map.insert(k.to_string(), v.to_string());
    }
    RojoSourceMap::create_test_sourcemap(OrderedMap::new(), path_map)
}

fn entry(path: &str, file_paths: Vec<&str>) -> RojoSourceMapEntry {
    RojoSourceMapEntry {
        path: path.to_string(),
        filePaths: file_paths.into_iter().map(|p| p.to_string()).collect(),
    }
}

fn unset_options() -> RunCliOptions {
    RunCliOptions {
        ci: None,
        clear_mocks: None,
        debug: None,
        expand: None,
        json: None,
        list_tests: None,
        no_stack_trace: None,
        old_function_spying: None,
        pass_with_no_tests: None,
        reset_mocks: None,
        setup_files: None,
        show_config: None,
        test_match: None,
        test_name_pattern: None,
        test_path_ignore_patterns: None,
        test_path_pattern: None,
        test_timeout: None,
        update_snapshot: None,
        verbose: None,
    }
}

#[test]
fn empty_map_leaves_text_unchanged() {
    let map = RojoSourceMap::empty();
    let text = "A.B:1\n  X.Y:22 trailing\n\nno location here\nC@D.E:3\n";
    assert_eq!(convert_stack_trace_text(text, &map), text);
    assert_eq!(convert_stack_trace_text("", &map), "");
}

#[test]
fn tree_flattening_joins_names_with_dots() {
    let root = node("A", vec![], vec![node("B", vec!["f.lua"], vec![])]);
    let map = RojoSourceMap::from_tree(&root);
    assert_eq!(map.get_path_map().get("A.B").unwrap(), "f.lua");
    assert!(!map.get_path_map().contains_key("A"));
    assert_eq!(map.get_path_map().len(), 1);
    assert_eq!(map.get_entries().len(), 0);
}

#[test]
fn tree_skips_empty_first_path_and_keeps_last_duplicate() {
    let root = node(
        "R",
        vec![""],
        vec![
            node("X", vec!["1.lua"], vec![]),
            node("X", vec!["2.lua", "3.lua"], vec![node("Y", vec!["y.lua"], vec![])]),
        ],
    );
    let map = RojoSourceMap::from_tree(&root);
    assert!(!map.get_path_map().contains_key("R"));
    assert_eq!(map.get_path_map().get("R.X").unwrap(), "2.lua");
    assert_eq!(map.get_path_map().get("R.X.Y").unwrap(), "y.lua");
    assert_eq!(map.get_path_map().len(), 2);
    assert_eq!(map.get_path_map().key_at(0), "R.X");
}

#[test]
fn local_path_wins_over_first_file_path() {
    let mut entries = OrderedMap::new();
    entries.insert("K".to_string(), entry("/local.lua", vec!["/first.lua"]));
    entries.insert("L".to_string(), entry("", vec!["/first.lua", "/second.lua"]));
    entries.insert("M".to_string(), entry("", vec!["", "/second.lua"]));
    entries.insert("N".to_string(), entry("", vec![]));
    let map = RojoSourceMap::from_entries(entries);
    assert_eq!(map.get_file_path("K"), Some("/local.lua".to_string()));
    assert_eq!(map.get_file_path("L"), Some("/first.lua".to_string()));
    assert_eq!(map.get_file_path("M"), None);
    assert_eq!(map.get_file_path("N"), None);
}

#[test]
fn unresolvable_line_passes_through() {
    let map = index_of(&[("Other.Thing", "/o.lua")]);
    assert_eq!(convert_stack_trace("Foo.Bar:10", &map), "Foo.Bar:10");
    assert_eq!(convert_stack_trace("Foo.Bar:10", &RojoSourceMap::empty()), "Foo.Bar:10");
}

#[test]
fn lines_are_converted_independently() {
    let map = index_of(&[("A.B", "/s/ab.lua")]);
    assert_eq!(convert_stack_trace_text("A.B:1\nX.Y:2", &map), "/s/ab.lua:1\nX.Y:2");
    assert_eq!(convert_stack_trace_text("X.Y:2\nA.B:1\n", &map), "X.Y:2\n/s/ab.lua:1\n");
}

#[test]
fn segment_pair_tier_matches_whole_segments() {
    let map = index_of(&[("Root.Foo.Target", "/p/t.lua")]);
    assert_eq!(map.get_file_path("Other.Foo.Target"), Some("/p/t.lua".to_string()));
}

#[test]
fn substring_tier_matches_inside_segments() {
    let map = index_of(&[("Game.Scripts.MyModuleImpl", "/m.lua")]);
    assert_eq!(map.get_file_path("X.MyModule"), Some("/m.lua".to_string()));
    assert_eq!(map.get_file_path("MyModule"), None);
}

#[test]
fn fuzzy_tiers_take_first_inserted_key() {
    let map = index_of(&[("Root.One.Target", "/1.lua"), ("Root.Two.Target", "/2.lua")]);
    assert_eq!(map.get_file_path("X.Target"), Some("/1.lua".to_string()));
    assert_eq!(map.get_file_path("Two.Target"), Some("/2.lua".to_string()));
}

#[test]
fn project_root_tier_tries_lua_suffix() {
    let map = index_of(&[("Game.Server.Main", "/main.lua"), ("Game.Shared.Util.lua", "/util.lua")]);
    assert_eq!(map.get_file_path("Shared.Util"), Some("/util.lua".to_string()));
    assert_eq!(map.get_file_path("Server.Main"), Some("/main.lua".to_string()));
}

#[test]
fn root_object_tier_prefixes_datamodel() {
    let map = index_of(&[("DataModel.Workspace.Part", "/part.lua")]);
    assert_eq!(map.get_file_path("Workspace.Part"), Some("/part.lua".to_string()));
}

#[test]
fn instance_path_is_trimmed() {
    let map = index_of(&[("A.B", "/ab.lua")]);
    assert_eq!(map.get_file_path("  A.B\t"), Some("/ab.lua".to_string()));
    assert_eq!(map.get_file_path("\u{3000}A.B\u{a0}"), Some("/ab.lua".to_string()));
}

#[test]
fn marker_fallback_ignores_at_signs() {
    let map = index_of(&[("Packages._Index.roblox_jest@3.0.Module", "/jest.lua")]);
    assert_eq!(convert_stack_trace("jest@3:12", &map), "/jest.lua:12");
    assert_eq!(convert_stack_trace("jest3:12", &map), "jest3:12");
}

#[test]
fn location_takes_last_colon_followed_by_digits() {
    let map = index_of(&[("Script", "/s.lua"), ("foo:bar", "/fb.lua"), ("y", "/y.lua")]);
    assert_eq!(convert_stack_trace("Script:10: attempt to index nil", &map), "/s.lua:10");
    assert_eq!(convert_stack_trace("foo:bar:12", &map), "/fb.lua:12");
    assert_eq!(convert_stack_trace("x\ny:3", &map), "/y.lua:3");
    assert_eq!(convert_stack_trace("Script:x", &map), "Script:x");
    assert_eq!(convert_stack_trace(":5", &map), ":5");
    let xy = index_of(&[("X.Y", "/x.lua")]);
    assert_eq!(convert_stack_trace("X.Y:5:7", &xy), "X.Y:5:7");
    let xy5 = index_of(&[("X.Y:5", "/x5.lua")]);
    assert_eq!(convert_stack_trace("X.Y:5:7", &xy5), "/x5.lua:7");
}

#[test]
fn flat_shape_drops_entries_without_a_file_path() {
    let mut entries = OrderedMap::new();
    entries.insert("a".to_string(), entry("", vec![]));
    entries.insert("b".to_string(), entry("/b.lua", vec![]));
    entries.insert("c".to_string(), entry("", vec![""]));
    entries.insert("d".to_string(), entry("", vec!["/d.lua"]));
    let map = RojoSourceMap::new(Some(entries), Err(ParseError { message: "unused".to_string() })).unwrap();
    assert_eq!(map.get_entries().len(), 2);
    assert!(!map.get_entries().contains_key("a"));
    assert!(!map.get_entries().contains_key("c"));
    assert_eq!(map.get_entries().key_at(0), "b");
    assert_eq!(map.get_entries().key_at(1), "d");
}

#[test]
fn json_prefix_is_cut_before_first_brace() {
    assert_eq!(strip_json_prefix("warning: x\n{\"a\": {}}"), "{\"a\": {}}");
    assert_eq!(strip_json_prefix("{}"), "{}");
    assert_eq!(strip_json_prefix("no json"), "no json");
}

#[test]
fn tree_node_clone_is_deep() {
    let root = node("A", vec!["a.lua"], vec![node("B", vec!["f.lua"], vec![])]);
    let copy = root.clone();
    assert_eq!(copy.name, "A");
    assert_eq!(copy.children.len(), 1);
    assert_eq!(copy.children[0].filePaths, vec!["f.lua".to_string()]);
    let map = RojoSourceMap::from_tree(&copy);
    assert_eq!(map.get_path_map().get("A.B").unwrap(), "f.lua");
}

#[test]
fn new_prefers_flat_shape_then_tree_then_error() {
    let mut entries = OrderedMap::new();
    entries.insert("K".to_string(), entry("/k.lua", vec![]));
    let tree = node("A", vec![], vec![node("B", vec!["f.lua"], vec![])]);
    let flat = RojoSourceMap::new(Some(entries), Ok(tree)).unwrap();
    assert_eq!(flat.get_path_map().len(), 0);
    assert_eq!(flat.get_file_path("K"), Some("/k.lua".to_string()));

    let tree = node("A", vec![], vec![node("B", vec!["f.lua"], vec![])]);
    let from_tree = RojoSourceMap::new(None, Ok(tree)).unwrap();
    assert_eq!(from_tree.get_file_path("A.B"), Some("f.lua".to_string()));

    let err = RojoSourceMap::new(None, Err(ParseError { message: "bad".to_string() }));
    assert_eq!(err.unwrap_err().message, "bad");
}

#[test]
fn ordered_map_insert_replaces_in_place() {
    let mut m = OrderedMap::new();
    m.insert("a".to_string(), 1u32);
    m.insert("b".to_string(), 2u32);
    m.insert("a".to_string(), 3u32);
    assert_eq!(m.len(), 2);
    assert_eq!(m.key_at(0), "a");
    assert_eq!(*m.value_at(0), 3);
    assert_eq!(m.get("b"), Some(&2));
    assert_eq!(m.get("c"), None);
}

#[test]
fn run_cli_options_empty_and_merge() {
    let mut target = unset_options();
    assert!(target.is_empty());
    target.ci = Some(false);
    target.verbose = Some(true);
    assert!(!target.is_empty());

    let mut source = unset_options();
    source.ci = Some(true);
    source.setup_files = Some(vec!["a.lua".to_string()]);
    source.test_timeout = Some(5000);
    merge_run_cli_options(&mut target, &source);
    assert_eq!(target.ci, Some(true));
    assert_eq!(target.verbose, Some(true));
    assert_eq!(target.setup_files, Some(vec!["a.lua".to_string()]));
    assert_eq!(target.test_timeout, Some(5000));
    assert_eq!(target.test_match, None);
}
