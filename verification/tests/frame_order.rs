use framestitch::frames::has_jpg_extension;
use framestitch::frames::order_frames;

fn names(v: &[&str]) -> Vec<String> {
    v.iter().map(|s| s.to_string()).collect()
}

#[test]
fn jpg_extension_is_recognised() {
    assert!(has_jpg_extension("1-capture.jpg"));
    assert!(has_jpg_extension("a.jpg"));
    assert!(has_jpg_extension("a.b.jpg"));
}

#[test]
fn other_extensions_are_not() {
    assert!(!has_jpg_extension("frame.png"));
    assert!(!has_jpg_extension("frame.jpeg"));
    assert!(!has_jpg_extension("frame.JPG"));
    assert!(!has_jpg_extension("noext"));
    assert!(!has_jpg_extension("ajpg"));
    assert!(!has_jpg_extension(""));
}

#[test]
fn a_bare_dot_jpg_has_no_stem() {
    assert!(!has_jpg_extension(".jpg"));
}

#[test]
fn only_frames_are_kept_and_sorted() {
    let listing = names(&["b.jpg", "readme.txt", "a.jpg", "c.png", "noext"]);
    let ordered = order_frames(&listing);
    assert_eq!(ordered, names(&["a.jpg", "b.jpg"]));
}

#[test]
fn order_is_lexicographic_on_the_name() {
    let listing = names(&["2.jpg", "10.jpg", "1.jpg"]);
    let ordered = order_frames(&listing);
    // purely lexicographic: "10" sorts before "2"
    assert_eq!(ordered, names(&["1.jpg", "10.jpg", "2.jpg"]));
}

#[test]
fn duplicates_are_kept() {
    let listing = names(&["a.jpg", "a.jpg"]);
    let ordered = order_frames(&listing);
    assert_eq!(ordered, names(&["a.jpg", "a.jpg"]));
}

#[test]
fn no_frames_order_to_nothing() {
    let listing = names(&["x.png", "y.txt"]);
    assert_eq!(order_frames(&listing), Vec::<String>::new());
}
