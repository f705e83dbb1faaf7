use piex_nodetree::index::normalize;
use piex_nodetree::path::Path;

#[test]
fn path_push() {
    // Arrange
    let mut path = Path::new();

    // Act
    path.push("HKEY_LOCAL_MACHINE");
    path.push("SOFTWARE");
    path.push("Microsoft");

    // Asset
    assert_eq!(r"HKEY_LOCAL_MACHINE\SOFTWARE\Microsoft", path.path());
}

#[test]
fn path_pop() {
    // Arrange
    let mut path = Path::new();

    // Act
    path.push("HKEY_LOCAL_MACHINE");
    path.push("SOFTWARE");
    path.push("Microsoft");
    path.pop();

    // Asset
    assert_eq!(r"HKEY_LOCAL_MACHINE\SOFTWARE", path.path());
}

#[test]
fn path_from_str() {
    // Arrange
    let path_from_str = Path::from("HKEY_LOCAL_MACHINE\\SOFTWARE\\Microsoft");

    // Asset
    assert_eq!(
        r"HKEY_LOCAL_MACHINE\SOFTWARE\Microsoft",
        path_from_str.path()
    );
}

#[test]
fn separator_is_backslash() {
    assert_eq!(r"\", Path::separator());
}

#[test]
fn pop_on_empty_path_returns_none() {
    let mut path = Path::new();
    assert!(path.pop().is_none());
    assert_eq!("", path.path());
}

#[test]
fn normalize_maps_long_alias_to_short() {
    // the long and the short form of a root alias resolve to the same key
    let a = normalize("HKEY_LOCAL_MACHINE\\SOFTWARE").unwrap();
    let b = normalize("HKLM\\SOFTWARE").unwrap();
    assert_eq!(a, b);
    assert_eq!("HKLM\\SOFTWARE", a);
}

#[test]
fn normalize_uppercases_every_segment() {
    let a = normalize("hkey_current_user\\Software\\MyApp").unwrap();
    assert_eq!("HKCU\\SOFTWARE\\MYAPP", a);
}

#[test]
fn normalize_keeps_unknown_alias() {
    let a = normalize("HKEY_CLASSES_ROOT\\Sub").unwrap();
    assert_eq!("HKEY_CLASSES_ROOT\\SUB", a);
}

#[test]
fn normalize_refuses_bare_alias() {
    assert!(normalize("HKLM").is_none());
}
