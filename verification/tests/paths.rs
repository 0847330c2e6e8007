use fake::paths::{has_part, relative_from, relative_path, PathPart};

#[test]
fn path_stays_as_it_is_in_the_invocation_directory() {
    assert_eq!(relative_path("foo.a", "."), Some("foo.a".to_string()));
    assert_eq!(relative_path("./a//b/../c.x", "."), Some("./a//b/../c.x".to_string()));
    assert_eq!(relative_path("", "."), Some("".to_string()));
    assert_eq!(relative_path("foo.a", "./"), Some("foo.a".to_string()));
}

#[test]
fn absolute_path_stays_as_it_is() {
    assert_eq!(relative_path("/abs/foo.a", "build"), Some("/abs/foo.a".to_string()));
    assert_eq!(relative_path("/abs/foo.a", "/other"), Some("/abs/foo.a".to_string()));
    assert_eq!(relative_path("/abs/foo.a", "../up"), Some("/abs/foo.a".to_string()));
}

#[test]
fn path_below_the_base_loses_the_base() {
    assert_eq!(relative_path("build/foo.a", "build"), Some("foo.a".to_string()));
    assert_eq!(relative_path("build/sub/foo.a", "build/"), Some("sub/foo.a".to_string()));
    assert_eq!(relative_path("build", "build"), Some("".to_string()));
    assert_eq!(relative_path("../w/x.c", "../w"), Some("x.c".to_string()));
}

#[test]
fn path_beside_the_base_climbs_out_of_it() {
    assert_eq!(relative_path("out/final.c", "build/"), Some("../out/final.c".to_string()));
    assert_eq!(relative_path("x.c", "a/b"), Some("../../x.c".to_string()));
    assert_eq!(relative_path("buildx/foo.a", "build"), Some("../buildx/foo.a".to_string()));
}

#[test]
fn path_that_needs_the_file_system_has_no_relative_form() {
    assert_eq!(relative_path("x.c", "../w"), None);
    assert_eq!(relative_path("x.c", "a/../b"), None);
    assert_eq!(relative_path("x.c", "/abs"), None);
}

#[test]
fn relative_from_goes_by_what_it_is_told() {
    let one = vec![PathPart::Normal];
    let two = vec![PathPart::Normal, PathPart::Normal];
    let up = vec![PathPart::ParentDir, PathPart::Normal];
    let dot = vec![PathPart::CurDir];
    assert_eq!(relative_from("p", "b", &dot, false, false, None), Some("p".to_string()));
    assert_eq!(relative_from("p", "b", &one, true, false, None), Some("p".to_string()));
    assert_eq!(
        relative_from("p", "b", &one, false, false, Some("rest".to_string())),
        Some("rest".to_string())
    );
    assert_eq!(relative_from("p", "b", &two, false, false, None), Some("../../p".to_string()));
    assert_eq!(relative_from("p", "b", &up, false, false, None), None);
    assert_eq!(relative_from("p", "b", &one, false, true, None), None);
    assert_eq!(
        relative_from("p", "b", &up, false, true, Some("rest".to_string())),
        Some("rest".to_string())
    );
    assert_eq!(relative_from("p", ".", &two, false, true, None), Some("p".to_string()));
}

#[test]
fn parts_are_found_by_kind() {
    let parts = vec![PathPart::CurDir, PathPart::Normal];
    assert!(has_part(&parts, PathPart::Normal));
    assert!(has_part(&parts, PathPart::CurDir));
    assert!(!has_part(&parts, PathPart::ParentDir));
    assert!(!has_part(&Vec::new(), PathPart::Normal));
}
