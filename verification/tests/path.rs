use postcard_bindgen_core::path::{Path, PathBuf};

fn parts_of(p: &PathBuf) -> Vec<&str> {
    p.parts().iter().map(|s| s.as_str()).collect()
}

#[test]
fn path_buf_push_example() {
    let mut path = PathBuf::new();

    assert!(path.is_empty());

    path.push("foo");
    path.push("bar");
    path.push("baz");

    assert!(!path.is_empty());
    assert_eq!(parts_of(&path), vec!["foo", "bar", "baz"]);
}

#[test]
fn path_buf_join_example() {
    let path = PathBuf::new().join("foo").join("bar").join("baz");

    assert_eq!(parts_of(&path), vec!["foo", "bar", "baz"]);
}

#[test]
fn path_parts_example() {
    let path = Path::new("foo/bar/baz", "/");

    assert_eq!(path.parts(), vec!["foo".to_string(), "bar".into(), "baz".into()]);
}

#[test]
fn push_front_then_pop_front_gives_the_buffer_back() {
    let mut path = PathBuf::new().join("a").join("b");
    path.push_front("crate");
    assert_eq!(parts_of(&path), vec!["crate", "a", "b"]);
    path.pop_front();
    assert_eq!(parts_of(&path), vec!["a", "b"]);
}

#[test]
fn pop_front_of_an_empty_buffer_does_nothing() {
    let mut path = PathBuf::new();
    path.pop_front();
    assert!(path.is_empty());
}

#[test]
fn into_path_then_into_buf_gives_the_parts_back() {
    let path = PathBuf::new().join("my_crate").join("a").join("b");
    let joined = path.clone().into_path("::");
    assert_eq!(joined.to_string(), "my_crate::a::b");
    assert_eq!(joined.into_buf(), path);
}

#[test]
fn into_buf_then_into_path_gives_the_path_back() {
    let path = Path::new("x.y.z", ".");
    let again = path.clone().into_buf().into_path(".");
    assert_eq!(again, path);
}

#[test]
fn an_empty_path_has_one_empty_part() {
    let path = PathBuf::new().into_path("::");
    assert!(path.is_empty());
    assert_eq!(path.parts(), vec!["".to_string()]);
}

#[test]
fn flattened_paths_have_no_parts() {
    let mut path = Path::new("a::b", "::");
    path.flatten();
    assert!(path.is_empty());
    assert!(path.parts().is_empty());
    assert_eq!(path.to_string(), "");

    let mut buf = PathBuf::new().join("a");
    buf.flatten();
    assert!(buf.is_empty());
}

#[test]
fn copies_are_equal() {
    let path = Path::new("a::b", "::");
    assert_eq!(path.duplicate(), path);
    assert_eq!(path.clone().into_owned(), path);
    let buf = PathBuf::from_parts(vec!["a".into(), "b".into()]);
    assert_eq!(buf.duplicate(), buf);
    assert_eq!(buf.clone().into_owned(), buf);
}

#[test]
fn default_is_the_empty_buffer() {
    let p = PathBuf::default();
    assert!(p.is_empty());
    assert_eq!(p, PathBuf::new());
}

#[test]
fn path_into_string() {
    let p = Path::new("a::b", "::");
    assert_eq!(String::from(p.clone()), p.to_string());
    assert_eq!(String::from(p), "a::b");
    let mut f = Path::new("x", "/");
    f.flatten();
    assert_eq!(String::from(f), "");
}
