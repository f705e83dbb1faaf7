use piex_nodetree::data::RawValue;
use piex_nodetree::item::RegistriesItem;
use piex_nodetree::registry_tree::{BuildStep, RegistriesTree, TreeBuilder};

fn wide_bytes(units: &[u16]) -> Vec<u8> {
    let mut out = Vec::new();
    for u in units {
        out.push((u & 0xFF) as u8);
        out.push((u >> 8) as u8);
    }
    out
}

fn drive(builder: &mut TreeBuilder, children: Vec<String>, values: Vec<(String, RawValue)>) {
    match builder.step() {
        BuildStep::Open(_) => builder.opened(children, values),
        other => panic!("expected Open, got {:?}", step_name(&other)),
    }
}

fn step_name(step: &BuildStep) -> &'static str {
    match step {
        BuildStep::Open(_) => "Open",
        BuildStep::Ascend => "Ascend",
        BuildStep::Finished => "Finished",
    }
}

fn run_to_end(builder: TreeBuilder) -> RegistriesTree {
    let mut builder = builder;
    loop {
        match builder.step() {
            BuildStep::Open(_) => builder.open_failed("unexpected".to_string()),
            BuildStep::Ascend => builder.ascended(),
            BuildStep::Finished => break,
        }
    }
    builder.finish().unwrap()
}

/// A small tree: root with two values and one child holding a value
/// whose text needs escaping.
fn build_sample() -> RegistriesTree {
    let mut builder = TreeBuilder::new(RegistriesItem::new("HKLM\\X")).unwrap();
    drive(
        &mut builder,
        vec!["Sub".to_string()],
        vec![
            (
                "num".to_string(),
                RawValue {
                    ty: 4,
                    data: vec![5, 0, 0, 0],
                },
            ),
            (
                "bin".to_string(),
                RawValue {
                    ty: 3,
                    data: vec![1, 2, 3, 4, 5, 6, 7, 8, 9, 10, 11],
                },
            ),
        ],
    );
    drive(
        &mut builder,
        Vec::new(),
        vec![(
            "s".to_string(),
            RawValue {
                ty: 1,
                data: wide_bytes(&[0x0061, 0x0022, 0x0062, 0x0000]),
            },
        )],
    );
    run_to_end(builder)
}

#[test]
fn compact_json_of_a_leaf_tree() {
    let mut builder = TreeBuilder::new(RegistriesItem::new("HKLM\\X")).unwrap();
    drive(&mut builder, Vec::new(), Vec::new());
    let tree = run_to_end(builder);
    assert_eq!(
        "{\"data\":{\"key_path\":\"HKLM\\\\X\",\"value_map\":{}},\"children\":[]}",
        tree.to_json()
    );
}

#[test]
fn compact_json_renders_values_and_children() {
    let tree = build_sample();
    let expected = "{\"data\":{\"key_path\":\"HKLM\\\\X\",\"value_map\":{\"num\":{\"U32\":5},\"bin\":{\"Bytes\":[1,2,3,4,5,6,7,8,9,10,11]}}},\"children\":[{\"data\":{\"key_path\":\"Sub\",\"value_map\":{\"s\":{\"String\":\"a\\\"b\"}}},\"children\":[]}]}";
    assert_eq!(expected, tree.to_json());
}

#[test]
fn pretty_json_describes_the_same_structure() {
    // pretty-printing changes only whitespace: both texts parse to the
    // same JSON value
    let tree = build_sample();
    let compact: serde_json::Value = serde_json::from_str(&tree.to_json()).unwrap();
    let pretty: serde_json::Value = serde_json::from_str(&tree.to_pretty_json()).unwrap();
    assert_eq!(compact, pretty);
    assert_ne!(tree.to_json(), tree.to_pretty_json());
}

#[test]
fn sub_tree_renders_like_the_tree() {
    let tree = build_sample();
    let node = tree.sub_tree(tree.root()).unwrap();
    assert_eq!(tree.to_json(), node.to_json());
    assert_eq!(tree.to_pretty_json(), node.to_pretty_json());
}

#[test]
fn sub_tree_of_child_renders_that_subtree() {
    let tree = build_sample();
    let kids = tree.children(tree.root());
    let node = tree.sub_tree(kids[0]).unwrap();
    let parsed: serde_json::Value = serde_json::from_str(&node.to_json()).unwrap();
    assert_eq!("Sub", parsed["data"]["key_path"]);
    assert_eq!("a\"b", parsed["data"]["value_map"]["s"]["String"]);
}

#[test]
fn json_escapes_control_characters() {
    let mut builder = TreeBuilder::new(RegistriesItem::new("HKLM\\X")).unwrap();
    drive(
        &mut builder,
        Vec::new(),
        vec![(
            "t".to_string(),
            RawValue {
                ty: 1,
                data: wide_bytes(&[0x0009, 0x000A, 0x0001, 0x0041]),
            },
        )],
    );
    let tree = run_to_end(builder);
    let parsed: serde_json::Value = serde_json::from_str(&tree.to_json()).unwrap();
    assert_eq!("\t\n\u{1}A", parsed["data"]["value_map"]["t"]["String"]);
}

#[test]
fn pretty_tree_outline() {
    let tree = build_sample();
    let expected = "key_path: HKLM\\X\n\t- num:\tU32(5)\n\t- bin:\tBytes(0x01,0x02,0x03,0x04,0x05,0x06,0x07,0x08,0x09,0x0A...)\n\tkey_path: Sub\n\t\t- s:\tString(\"a\\\"b\")\n";
    assert_eq!(expected, tree.to_pretty_tree());
}

#[test]
fn pretty_tree_shows_up_to_ten_bytes_without_ellipsis() {
    let mut builder = TreeBuilder::new(RegistriesItem::new("HKLM\\X")).unwrap();
    drive(
        &mut builder,
        Vec::new(),
        vec![(
            "b".to_string(),
            RawValue {
                ty: 3,
                data: vec![0xAB, 0xCD],
            },
        )],
    );
    let tree = run_to_end(builder);
    assert_eq!(
        "key_path: HKLM\\X\n\t- b:\tBytes(0xAB,0xCD)\n",
        tree.to_pretty_tree()
    );
}

#[test]
fn pretty_tree_renders_every_variant() {
    let mut builder = TreeBuilder::new(RegistriesItem::new("HKLM\\X")).unwrap();
    drive(
        &mut builder,
        Vec::new(),
        vec![
            (
                "m".to_string(),
                RawValue {
                    ty: 7,
                    data: wide_bytes(&[0x0061, 0x0000, 0x0062, 0x0000, 0x0000]),
                },
            ),
            (
                "q".to_string(),
                RawValue {
                    ty: 11,
                    data: vec![7, 0, 0, 0, 0, 0, 0, 0],
                },
            ),
            (
                "r".to_string(),
                RawValue {
                    ty: 12,
                    data: vec![],
                },
            ),
            (
                "n".to_string(),
                RawValue {
                    ty: 4,
                    data: vec![1, 2],
                },
            ),
        ],
    );
    let tree = run_to_end(builder);
    let expected = "key_path: HKLM\\X\n\t- m:\tMultiString([\"a\", \"b\"])\n\t- q:\tU64(7)\n\t- r:\tRaw(12)\n\t- n:\tNone\n";
    assert_eq!(expected, tree.to_pretty_tree());
}
