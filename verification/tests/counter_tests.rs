use tree::counter::Counter;

#[test]
fn test_new() {
    let c = Counter::new();
    assert_eq!(c.dirs, 0);
    assert_eq!(c.files, 0);
}

#[test]
fn test_display() {
    assert_eq!(Counter::new().render(), "0 directories, 0 files");
    assert_eq!(Counter { dirs: 10, files: 10 }.render(), "10 directories, 10 files");
    assert_eq!(Counter { dirs: 100, files: 1 }.render(), "100 directories, 1 files");
    assert_eq!(Counter { dirs: 512, files: 1024 }.render(), "512 directories, 1024 files");
    assert_eq!(Counter { dirs: 0, files: 1 }.render(), "0 directories, 1 files");
}

#[test]
fn accept_classifies_each_entry() {
    let mut c = Counter::new();
    c.accept(true);
    c.accept(false);
    c.accept(false);
    assert_eq!(c.dirs, 1);
    assert_eq!(c.files, 2);
}

#[test]
fn render_does_not_pluralize() {
    // One file still renders as "1 files": no special-cased pluralization.
    let c = Counter { dirs: 0, files: 1 };
    assert_eq!(c.render(), "0 directories, 1 files");
}
