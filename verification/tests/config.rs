use git_forum::internal::config::RepoPaths;
use std::path::Path;

#[test]
fn repo_paths_construction() {
    let paths = RepoPaths::from_repo_root("/tmp/repo");
    assert_eq!(Path::new(&paths.dot_forum), Path::new("/tmp/repo/.forum"));
    assert_eq!(Path::new(&paths.git_forum), Path::new("/tmp/repo/.git/forum"));
}

#[test]
fn repo_paths_join_without_doubling_a_trailing_slash() {
    let paths = RepoPaths::from_repo_root("/tmp/repo/");
    assert_eq!(Path::new(&paths.dot_forum), Path::new("/tmp/repo/.forum"));
}
