use tree::config::Config;
use tree::counter::Counter;
use tree::util::is_hidden;
use tree::walk::Entry;
use tree::walk::walk;

fn file(name: &str) -> Entry {
    Entry { name: name.to_string(), display: name.to_string(), is_dir: false, children: vec![] }
}

fn dir(name: &str, children: Vec<Entry>) -> Entry {
    Entry { name: name.to_string(), display: name.to_string(), is_dir: true, children }
}

fn run(root: &Entry, config: Config) -> (Vec<String>, Counter) {
    let pol = config.create_pred();
    let mut counter = Counter::new();
    let mut out: Vec<String> = Vec::new();
    walk(root, "", &pol, &mut counter, &mut out);
    (out, counter)
}

fn defaults() -> Config {
    Config::new(false, false, false, None)
}

#[test]
fn empty_dir_and_one_file() {
    // Root contains `a/` (empty) and `b` (a file).
    let root = dir(".", vec![dir("a", vec![]), file("b")]);
    let (out, counter) = run(&root, defaults());
    assert_eq!(out, vec!["├── a", "└── b"]);
    assert_eq!(counter.render(), "1 directories, 1 files");
}

#[test]
fn hidden_only_root_lists_nothing() {
    // Root contains `.hidden` (a file) only, default flags.
    let root = dir(".", vec![file(".hidden")]);
    let (out, counter) = run(&root, defaults());
    assert_eq!(out, Vec::<String>::new());
    assert_eq!(counter.render(), "0 directories, 0 files");
}

#[test]
fn hidden_entry_skipped_by_default() {
    let root = dir(".", vec![file(".secret"), file("shown")]);
    let (out, counter) = run(&root, defaults());
    assert!(out.iter().all(|line| !line.contains(".secret")));
    assert_eq!(out, vec!["└── shown"]);
    assert_eq!(counter.dirs, 0);
    assert_eq!(counter.files, 1);
}

#[test]
fn hidden_entry_shown_with_all_files() {
    let root = dir(".", vec![file(".secret"), file("shown")]);
    let (out, counter) = run(&root, Config::new(true, false, false, None));
    assert_eq!(out, vec!["├── .secret", "└── shown"]);
    assert_eq!(counter.files, 2);
}

#[test]
fn hidden_dir_rejection_is_total() {
    // Nothing under a rejected directory is printed or counted either.
    let root = dir(".", vec![dir(".git", vec![file("config")]), file("a")]);
    let (out, counter) = run(&root, defaults());
    assert_eq!(out, vec!["└── a"]);
    assert_eq!(counter.dirs, 0);
    assert_eq!(counter.files, 1);
}

#[test]
fn depth_limit_stops_descent() {
    // With max depth 1 the entries directly under the root are listed,
    // but their children are neither printed nor counted.
    let root = dir(".", vec![dir("a", vec![file("b")]), file("c")]);
    let (out, counter) = run(&root, Config::new(false, false, false, Some(1)));
    assert_eq!(out, vec!["├── a", "└── c"]);
    assert_eq!(counter.dirs, 1);
    assert_eq!(counter.files, 1);
}

#[test]
fn depth_limit_two_descends_once() {
    let root = dir(".", vec![dir("a", vec![file("b")]), file("c")]);
    let (out, counter) = run(&root, Config::new(false, false, false, Some(2)));
    assert_eq!(out, vec!["├── a", "│   └── b", "└── c"]);
    assert_eq!(counter.dirs, 1);
    assert_eq!(counter.files, 2);
}

#[test]
fn dirs_only_suppresses_files_entirely() {
    let root = dir(".", vec![dir("a", vec![file("inner")]), file("b")]);
    let (out, counter) = run(&root, Config::new(false, true, false, None));
    assert_eq!(out, vec!["└── a"]);
    assert_eq!(counter.dirs, 1);
    assert_eq!(counter.files, 0);
}

#[test]
fn nested_prefixes_and_separators() {
    let root = dir(".", vec![dir("a", vec![file("x"), file("y")]), file("b")]);
    let (out, counter) = run(&root, defaults());
    assert_eq!(out, vec!["├── a", "│   ├── x", "│   └── y", "└── b"]);
    assert_eq!(counter.render(), "1 directories, 3 files");
}

#[test]
fn last_sibling_directory_gets_blank_continuation() {
    let root = dir(".", vec![file("b"), dir("a", vec![file("x")])]);
    let (out, _) = run(&root, defaults());
    assert_eq!(out, vec!["├── b", "└── a", "    └── x"]);
}

#[test]
fn one_elbow_per_non_empty_listing() {
    let root = dir(
        ".",
        vec![file("a"), file("b"), dir("c", vec![file("d"), file("e"), file("f")])],
    );
    let (out, _) = run(&root, defaults());
    let top_elbows = out.iter().filter(|l| l.starts_with("└── ")).count();
    let top_tees = out.iter().filter(|l| l.starts_with("├── ")).count();
    assert_eq!(top_elbows, 1);
    assert_eq!(top_tees, 2);
    let nested_elbows = out.iter().filter(|l| l.starts_with("    └── ")).count();
    let nested_tees = out.iter().filter(|l| l.starts_with("    ├── ")).count();
    assert_eq!(nested_elbows, 1);
    assert_eq!(nested_tees, 2);
}

#[test]
fn last_position_judged_after_filtering() {
    // The elbow goes to the last *surviving* entry, not the last raw one.
    let root = dir(".", vec![file("kept"), file(".dropped")]);
    let (out, _) = run(&root, defaults());
    assert_eq!(out, vec!["└── kept"]);
}

#[test]
fn counts_match_accepted_entries() {
    let root = dir(
        ".",
        vec![
            dir("a", vec![file("x"), dir("b", vec![file("y")])]),
            file(".hidden"),
            file("z"),
        ],
    );
    let (out, counter) = run(&root, defaults());
    assert_eq!(counter.dirs + counter.files, out.len());
    assert_eq!(counter.dirs, 2);
    assert_eq!(counter.files, 3);
}

#[test]
fn non_directory_root_lists_nothing() {
    let root = file("plain");
    let (out, counter) = run(&root, defaults());
    assert_eq!(out, Vec::<String>::new());
    assert_eq!(counter.dirs, 0);
    assert_eq!(counter.files, 0);
}

#[test]
fn walk_starts_from_given_prefix() {
    let root = dir(".", vec![file("a")]);
    let pol = defaults().create_pred();
    let mut counter = Counter::new();
    let mut out: Vec<String> = Vec::new();
    walk(&root, "    ", &pol, &mut counter, &mut out);
    assert_eq!(out, vec!["    └── a"]);
}

#[test]
fn display_name_is_a_renderer_choice_only() {
    // Full-path display: the shown text changes, but filtering still
    // judges the entry's own name.
    let shown = Entry {
        name: "b".to_string(),
        display: "./b".to_string(),
        is_dir: false,
        children: vec![],
    };
    let filtered = Entry {
        name: ".secret".to_string(),
        display: "./.secret".to_string(),
        is_dir: false,
        children: vec![],
    };
    let root = dir(".", vec![filtered, shown]);
    let (out, counter) = run(&root, defaults());
    assert_eq!(out, vec!["└── ./b"]);
    assert_eq!(counter.files, 1);
}

#[test]
fn is_hidden_checks_leading_period() {
    assert!(is_hidden(".secret"));
    assert!(is_hidden(".a"));
    assert!(!is_hidden("secret"));
    assert!(!is_hidden("se.cret"));
    assert!(!is_hidden(""));
}

#[test]
fn policy_carries_config_flags() {
    let pol = Config::new(true, true, false, Some(3)).create_pred();
    assert!(pol.all_files);
    assert!(pol.dirs_only);
    assert_eq!(pol.level, Some(3));
}

#[test]
fn accepts_applies_each_rule() {
    let pol = Config::new(false, false, false, Some(2)).create_pred();
    assert!(pol.accepts(false, false, 1));
    assert!(pol.accepts(false, true, 2));
    assert!(!pol.accepts(true, false, 1));
    assert!(!pol.accepts(false, false, 3));
    let all = Config::new(true, false, false, None).create_pred();
    assert!(all.accepts(true, false, 9));
    let dirs = Config::new(false, true, false, None).create_pred();
    assert!(!dirs.accepts(false, false, 1));
    assert!(dirs.accepts(false, true, 1));
}
