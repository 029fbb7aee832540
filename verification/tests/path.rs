use maestro::errno::ENAMETOOLONG;
use maestro::file_path::FilePath;
use maestro::limits::PATH_MAX;
use maestro::path::{Component, Path, PathBuf};

fn shown(path: &[u8]) -> Vec<String> {
    Path::new(path)
        .components()
        .iter()
        .map(|c| match c {
            Component::RootDir => String::from("/"),
            Component::CurDir => String::from("."),
            Component::ParentDir => String::from(".."),
            Component::Normal(name) => String::from_utf8(name.to_vec()).unwrap(),
        })
        .collect()
}

#[test]
fn empty_path_is_empty() {
    assert!(Path::new(b"").is_empty());
    assert!(!Path::new(b"/").is_empty());
    assert!(Path::new(b"/a").is_absolute());
    assert!(!Path::new(b"a/").is_absolute());
}

#[test]
fn components_of_a_path() {
    assert_eq!(shown(b""), Vec::<String>::new());
    assert_eq!(shown(b"/"), vec!["/"]);
    assert_eq!(shown(b"//a//b/"), vec!["/", "a", "b"]);
    assert_eq!(shown(b"./a/../..b/..."), vec![".", "a", "..", "..b", "..."]);
}

#[test]
fn file_name_of_a_path() {
    assert_eq!(Path::new(b"/a/b").file_name(), Some(&b"b"[..]));
    assert_eq!(Path::new(b"a//").file_name(), Some(&b"a"[..]));
    assert_eq!(Path::new(b"/").file_name(), None);
    assert_eq!(Path::new(b"a/..").file_name(), None);
    assert_eq!(Path::new(b"").file_name(), None);
}

fn parent_of(path: &[u8]) -> Option<Vec<u8>> {
    Path::new(path).parent().map(|p| p.as_bytes().to_vec())
}

#[test]
fn parent_of_a_path() {
    assert_eq!(parent_of(b"/a/b"), Some(b"/a/".to_vec()));
    assert_eq!(parent_of(b"/a"), Some(b"/".to_vec()));
    assert_eq!(parent_of(b"a"), Some(b".".to_vec()));
    assert_eq!(parent_of(b"a/b//"), Some(b"a/".to_vec()));
    assert_eq!(parent_of(b"/"), None);
    assert_eq!(parent_of(b""), None);
}

#[test]
fn long_path_is_refused() {
    assert!(PathBuf::try_from(vec![b'a'; PATH_MAX]).is_ok());
    assert_eq!(PathBuf::try_from(vec![b'a'; PATH_MAX + 1]).err(), Some(ENAMETOOLONG));
    assert_eq!(PathBuf::root().as_bytes(), b"/");
}

fn names(path: &FilePath) -> Vec<Vec<u8>> {
    (0..path.get_elements_count()).map(|i| path.get_element(i).to_vec()).collect()
}

#[test]
fn file_path_holds_names() {
    let path = FilePath::from_bytes(b"//a/./b/../c/");
    let expected: Vec<Vec<u8>> = [&b"a"[..], b".", b"b", b"..", b"c"]
        .iter()
        .map(|n| n.to_vec())
        .collect();
    assert_eq!(names(&path), expected);
    assert_eq!(FilePath::root().get_elements_count(), 0);
}

#[test]
fn file_paths_are_joined() {
    let base = FilePath::from_bytes(b"/a/b");
    let joined = base.concat(&FilePath::from_bytes(b"c/d"));
    assert!(joined.is_same(&FilePath::from_bytes(b"/a/b/c/d")));
    let joined = base.concat(&FilePath::from_bytes(b"/c/d"));
    assert!(joined.is_same(&FilePath::from_bytes(b"/c/d")));
    assert!(!joined.is_same(&FilePath::from_bytes(b"c/d")));
    assert!(!joined.is_same(&FilePath::from_bytes(b"/c")));
    assert!(!joined.is_same(&FilePath::from_bytes(b"/c/e")));
}

#[test]
fn file_path_grows_and_shrinks() {
    let mut path = FilePath::from_bytes(b"/a");
    path.push(b"b".to_vec());
    assert!(path.is_same(&FilePath::from_bytes(b"/a/b")));
    path.pop();
    path.pop();
    path.pop();
    assert!(path.is_same(&FilePath::root()));
    assert!(path.copied().is_same(&path));
}

#[test]
fn file_path_is_cut_and_extended() {
    let path = FilePath::from_bytes(b"/a/b/c");
    assert!(path.prefix(0).is_same(&FilePath::root()));
    assert!(path.prefix(2).is_same(&FilePath::from_bytes(b"/a/b")));
    let mut other = FilePath::from_bytes(b"x");
    other.append(&path, 1);
    assert!(other.is_same(&FilePath::from_bytes(b"x/b/c")));
    other.append(&path, 3);
    assert!(other.is_same(&FilePath::from_bytes(b"x/b/c")));
}
