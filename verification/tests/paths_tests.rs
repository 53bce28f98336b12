use mrms_pull::paths::{dest_path, parent_dir};

#[test]
fn backslashes_become_forward_slashes() {
    let p = dest_path(".", "a\\b\\c.txt");
    assert_eq!(p, "./a/b/c.txt");
    assert_eq!(parent_dir(&p), "./a/b");
}

#[test]
fn forward_slashes_are_kept() {
    let p = dest_path("./out", "releases/app.jar");
    assert_eq!(p, "./out/releases/app.jar");
    assert_eq!(parent_dir(&p), "./out/releases");
}

#[test]
fn location_without_separator_lands_in_the_root() {
    let p = dest_path(".", "file.bin");
    assert_eq!(p, "./file.bin");
    assert_eq!(parent_dir(&p), ".");
}

#[test]
fn parent_of_text_without_slash_is_the_text() {
    assert_eq!(parent_dir("plain"), "plain");
}

#[test]
fn mixed_separators() {
    let p = dest_path("/srv/data", "a/b\\c\\d.yml");
    assert_eq!(p, "/srv/data/a/b/c/d.yml");
    assert_eq!(parent_dir(&p), "/srv/data/a/b/c");
}
