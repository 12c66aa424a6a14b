use nzb_core::path::{safe_component, safe_join};
use std::path::Path;

#[test]
fn safe_join_rejects_cross_platform_escape_paths() {
    let root = Path::new("/tmp/job");
    assert!(safe_join(root, "folder/file.txt").is_some());
    for path in ["../outside", r"..\outside", "/etc/passwd", r"C:\temp"] {
        assert!(safe_join(root, path).is_none(), "{path}");
    }
    assert!(safe_component("movies").is_some());
    assert!(safe_component("../outside").is_none());
    assert!(safe_component(r"movies\tv").is_none());
}
