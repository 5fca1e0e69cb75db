use webp_batch::engine::Paths;
use webp_batch::paths::{file_stem, output_target, parent, plan_write, split_file_name, FileError};
use webp_batch::tree::Node;

fn parts(s: &str) -> Vec<String> {
    let mut v: Vec<String> = Vec::new();
    if s.starts_with('/') {
        v.push("/".to_string());
    }
    for c in s.split('/').filter(|c| !c.is_empty()) {
        v.push(c.to_string());
    }
    v
}

#[test]
fn mirrored_output_of_nested_file() {
    let tree = Node::Dir(
        parts("a"),
        vec![Node::Dir(parts("a/b"), vec![Node::File(parts("a/b/img.png"))])],
    );
    let paths = Paths::build(&tree, parts("a"), parts("out"), 8);
    assert_eq!(paths.input.images, vec![parts("a/b/img.png")]);
    let target = output_target(&paths.input.images[0], &paths.input.root, &paths.output_root);
    assert_eq!(target, parts("out/b/img.png"));
    let stem = file_stem(&paths.input.images[0]).unwrap();
    assert_eq!(stem, "img");
    let plan = plan_write(&target, false, &stem).unwrap();
    assert_eq!(plan.create_dir, Some(parts("out/b")));
    assert_eq!(plan.file, parts("out/b/img.webp"));
}

#[test]
fn file_outside_root_goes_to_output_root() {
    assert_eq!(output_target(&parts("x/img.png"), &parts("a"), &parts("out")), parts("out"));
    assert_eq!(output_target(&parts("a"), &parts("a/b"), &parts("out")), parts("out"));
}

#[test]
fn single_file_root_maps_to_output_root() {
    let target = output_target(&parts("a/img.png"), &parts("a/img.png"), &parts("/out"));
    assert_eq!(target, parts("/out"));
    let existing = plan_write(&target, true, &"img".to_string()).unwrap();
    assert_eq!(existing.create_dir, None);
    assert_eq!(existing.file, parts("/out/img.webp"));
    let missing = plan_write(&target, false, &"img".to_string()).unwrap();
    assert_eq!(missing.create_dir, Some(parts("/out")));
    assert_eq!(missing.file, parts("/img.webp"));
}

#[test]
fn target_without_parent_is_an_error() {
    assert_eq!(plan_write(&parts("/"), false, &"img".to_string()).err(), Some(FileError::NoParent));
    assert_eq!(plan_write(&Vec::new(), false, &"img".to_string()).err(), Some(FileError::NoParent));
}

#[test]
fn stem_with_inner_dot_is_kept_whole() {
    let input = parts("a/b/x.v2.png");
    let target = output_target(&input, &parts("a"), &parts("out"));
    let stem = file_stem(&input).unwrap();
    assert_eq!(stem, "x.v2");
    let plan = plan_write(&target, false, &stem).unwrap();
    assert_eq!(plan.file, parts("out/b/x.v2.webp"));
    let existing = plan_write(&parts("out"), true, &stem).unwrap();
    assert_eq!(existing.file, parts("out/x.v2.webp"));
    let hidden = plan_write(&parts("out/.hidden"), false, &".hidden".to_string()).unwrap();
    assert_eq!(hidden.create_dir, Some(parts("out/.hidden")));
    assert_eq!(hidden.file, parts("out/.hidden.webp"));
}

#[test]
fn split_file_names() {
    assert_eq!(split_file_name(&"img.png".to_string()), ("img".to_string(), Some("png".to_string())));
    assert_eq!(
        split_file_name(&"a.tar.gz".to_string()),
        ("a.tar".to_string(), Some("gz".to_string()))
    );
    assert_eq!(split_file_name(&".hidden".to_string()), (".hidden".to_string(), None));
    assert_eq!(split_file_name(&"noext".to_string()), ("noext".to_string(), None));
    assert_eq!(split_file_name(&"a.".to_string()), ("a".to_string(), Some(String::new())));
    assert_eq!(split_file_name(&"..".to_string()), ("..".to_string(), None));
}

#[test]
fn stems_of_paths() {
    assert_eq!(file_stem(&parts("a/b/photo.jpeg")), Some("photo".to_string()));
    assert_eq!(file_stem(&parts("/")), None);
    assert_eq!(file_stem(&parts("a/..")), None);
    assert_eq!(file_stem(&Vec::new()), None);
}

#[test]
fn parents_of_paths() {
    assert_eq!(parent(&parts("a/b")), Some(parts("a")));
    assert_eq!(parent(&parts("a")), Some(Vec::new()));
    assert_eq!(parent(&parts("/")), None);
    assert_eq!(parent(&Vec::new()), None);
}
