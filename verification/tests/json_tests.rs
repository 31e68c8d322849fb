use image_sieve::paths::{get_project_filename, get_settings_filename, get_trace_filename};

#[test]
fn test_get_names() {
    assert!(!get_settings_filename().is_empty());
    let project_filename = get_project_filename("test");
    assert!(project_filename.contains("test"));
    assert!(project_filename.contains("image_sieve.json"));
    assert!(!get_trace_filename().is_empty());
}
