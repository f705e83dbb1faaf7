use piex_nodetree::data::{RawValue, RegistriesData};
use piex_nodetree::item::RegistriesItem;
use piex_nodetree::registry_tree::{BuildStep, RegistriesTree, RootCollection, TreeBuilder};
use piex_nodetree::registry_tree::root_key;

fn u32_raw(x: u32) -> RawValue {
    RawValue {
        ty: 4,
        data: x.to_le_bytes().to_vec(),
    }
}

fn expect_open(builder: &TreeBuilder, expected: &str) {
    match builder.step() {
        BuildStep::Open(p) => assert_eq!(expected, p),
        BuildStep::Ascend => panic!("expected Open({:?}), got Ascend", expected),
        BuildStep::Finished => panic!("expected Open({:?}), got Finished", expected),
    }
}

fn expect_ascend(builder: &mut TreeBuilder) {
    match builder.step() {
        BuildStep::Ascend => builder.ascended(),
        BuildStep::Open(p) => panic!("expected Ascend, got Open({:?})", p),
        BuildStep::Finished => panic!("expected Ascend, got Finished"),
    }
}

/// The synthetic store of the containment scenario: root `ROOT` with
/// children `A`, `B`, `C`, where opening `B` fails.
fn build_contained() -> RegistriesTree {
    let mut builder = TreeBuilder::new(RegistriesItem::new("HKLM\\ROOT")).unwrap();
    assert!(matches!(builder.root_collection(), RootCollection::LocalMachine));
    expect_open(&builder, "ROOT");
    builder.opened(
        vec!["A".to_string(), "B".to_string(), "C".to_string()],
        Vec::new(),
    );
    expect_open(&builder, "A");
    builder.opened(Vec::new(), Vec::new());
    expect_ascend(&mut builder);
    expect_open(&builder, "B");
    builder.open_failed("access denied".to_string());
    expect_open(&builder, "C");
    builder.opened(Vec::new(), vec![("v".to_string(), u32_raw(1))]);
    expect_ascend(&mut builder);
    expect_ascend(&mut builder);
    assert!(matches!(builder.step(), BuildStep::Finished));
    builder.finish().unwrap()
}

#[test]
fn failed_child_is_contained() {
    // the build still succeeds, and B stays as an empty placeholder
    let tree = build_contained();
    assert_eq!(4, tree.len());
    let kids = tree.children(tree.root());
    assert_eq!(3, kids.len());
    assert_eq!("A", tree.node(kids[0]).key_path());
    assert_eq!("B", tree.node(kids[1]).key_path());
    assert_eq!("C", tree.node(kids[2]).key_path());
    assert!(tree.children(kids[1]).is_empty());
    assert_eq!(0, tree.node(kids[1]).values().len());
}

#[test]
fn index_covers_opened_nodes() {
    let tree = build_contained();
    let kids = tree.children(tree.root());
    assert_eq!(Some(tree.root()), tree.lookup("HKLM\\ROOT"));
    assert_eq!(Some(kids[0]), tree.lookup("HKLM\\ROOT\\A"));
    assert_eq!(Some(kids[2]), tree.lookup("HKLM\\ROOT\\C"));
    // the node whose open failed is not indexed
    assert_eq!(None, tree.lookup("HKLM\\ROOT\\B"));
}

#[test]
fn lookup_normalizes_alias_and_case() {
    let tree = build_contained();
    let kids = tree.children(tree.root());
    assert_eq!(Some(tree.root()), tree.lookup("HKEY_LOCAL_MACHINE\\ROOT"));
    assert_eq!(Some(kids[0]), tree.lookup("hklm\\root\\a"));
    assert_eq!(Some(kids[2]), tree.lookup("Hkey_Local_Machine\\Root\\c"));
    assert_eq!(None, tree.lookup("HKLM"));
}

#[test]
fn get_and_get_with_find_values() {
    let tree = build_contained();
    let item = tree.get("HKLM\\ROOT\\C").unwrap();
    assert_eq!("C", item.key_path());
    match tree.get_with("hklm\\root\\c", "v") {
        Some(RegistriesData::U32(x)) => assert_eq!(1, x),
        other => panic!("expected U32, got {:?}", other),
    }
    assert!(tree.get_with("HKLM\\ROOT\\C", "missing").is_none());
    assert!(tree.get("HKLM\\ELSEWHERE").is_none());
}

#[test]
fn later_value_with_same_name_wins() {
    let mut builder = TreeBuilder::new(RegistriesItem::new("HKLM\\R")).unwrap();
    expect_open(&builder, "R");
    builder.opened(
        Vec::new(),
        vec![("x".to_string(), u32_raw(1)), ("x".to_string(), u32_raw(2))],
    );
    expect_ascend(&mut builder);
    let tree = builder.finish().unwrap();
    match tree.get_with("HKLM\\R", "x") {
        Some(RegistriesData::U32(x)) => assert_eq!(2, x),
        other => panic!("expected U32, got {:?}", other),
    }
    assert_eq!(1, tree.node(tree.root()).values().len());
}

#[test]
fn root_open_failure_fails_the_build() {
    let mut builder = TreeBuilder::new(RegistriesItem::new("HKLM\\MISSING")).unwrap();
    expect_open(&builder, "MISSING");
    builder.open_failed("no such key".to_string());
    assert!(matches!(builder.step(), BuildStep::Finished));
    match builder.finish() {
        Err(err) => assert_eq!("no such key", err.0),
        Ok(_) => panic!("expected the build to fail"),
    }
}

#[test]
fn path_without_separator_is_refused() {
    let item = RegistriesItem::with_name("JUSTROOT".to_string());
    assert!(TreeBuilder::new(item).is_err());
}

#[test]
fn root_item_path_is_normalized() {
    let item = RegistriesItem::new("hkey_local_machine\\Software\\Vendor");
    assert_eq!("HKLM\\SOFTWARE\\VENDOR", item.key_path());
}

#[test]
fn multi_segment_root_path_opens_in_one_request() {
    let builder = TreeBuilder::new(RegistriesItem::new("HKLM\\SOFTWARE\\Vendor")).unwrap();
    expect_open(&builder, "SOFTWARE\\VENDOR");
}

#[test]
fn root_key_resolves_both_alias_forms() {
    assert_eq!(Some(RootCollection::LocalMachine), root_key("HKLM"));
    assert_eq!(Some(RootCollection::LocalMachine), root_key("hkey_local_machine"));
    assert_eq!(Some(RootCollection::CurrentUser), root_key("HKCU"));
    assert_eq!(Some(RootCollection::CurrentUser), root_key("HKEY_CURRENT_USER"));
    assert_eq!(Some(RootCollection::Users), root_key("hku"));
    assert_eq!(Some(RootCollection::Users), root_key("HKEY_USERS"));
    assert_eq!(None, root_key("HKEY_CLASSES_ROOT"));
}

#[test]
fn unknown_alias_falls_back_to_default_root() {
    let builder = TreeBuilder::new(RegistriesItem::new("HKEY_CLASSES_ROOT\\X")).unwrap();
    assert!(matches!(builder.root_collection(), RootCollection::LocalMachine));
}

#[test]
fn deep_paths_are_indexed_with_reported_case_kept() {
    let mut builder = TreeBuilder::new(RegistriesItem::new("HKLM\\Software\\Vendor")).unwrap();
    expect_open(&builder, "SOFTWARE\\VENDOR");
    builder.opened(vec!["MixedCase".to_string()], Vec::new());
    expect_open(&builder, "MixedCase");
    builder.opened(vec!["inner".to_string()], Vec::new());
    expect_open(&builder, "inner");
    builder.opened(Vec::new(), vec![("deep".to_string(), u32_raw(9))]);
    expect_ascend(&mut builder);
    expect_ascend(&mut builder);
    expect_ascend(&mut builder);
    let tree = builder.finish().unwrap();
    // the stored names keep the case the store reported
    let mid = tree.lookup("hklm\\software\\vendor\\mixedcase").unwrap();
    assert_eq!("MixedCase", tree.node(mid).key_path());
    // the full path, in any alias or case form, reaches the deep node
    let deep = tree
        .lookup("HKEY_LOCAL_MACHINE\\SOFTWARE\\VENDOR\\MIXEDCASE\\INNER")
        .unwrap();
    assert_eq!("inner", tree.node(deep).key_path());
    match tree.get_with("hklm\\Software\\Vendor\\MixedCase\\Inner", "deep") {
        Some(RegistriesData::U32(x)) => assert_eq!(9, x),
        other => panic!("expected U32, got {:?}", other),
    }
}

#[test]
fn enumeration_loss_keeps_the_node_indexed() {
    // partial enumeration (empty lists) still indexes the node itself
    let mut builder = TreeBuilder::new(RegistriesItem::new("HKLM\\P")).unwrap();
    expect_open(&builder, "P");
    builder.opened(Vec::new(), Vec::new());
    expect_ascend(&mut builder);
    let tree = builder.finish().unwrap();
    assert_eq!(Some(tree.root()), tree.lookup("HKLM\\P"));
}
