use tree::render::child_prefix;
use tree::render::render_line;

#[test]
fn render_line_uses_tee_before_further_siblings() {
    assert_eq!(render_line("", false, "src"), "├── src");
    assert_eq!(render_line("│   ", false, "lib.rs"), "│   ├── lib.rs");
}

#[test]
fn render_line_uses_elbow_for_last_sibling() {
    assert_eq!(render_line("", true, "src"), "└── src");
    assert_eq!(render_line("    ", true, "main.rs"), "    └── main.rs");
}

#[test]
fn child_prefix_continues_bar_while_siblings_follow() {
    assert_eq!(child_prefix("", false), "│   ");
    assert_eq!(child_prefix("│   ", false), "│   │   ");
}

#[test]
fn child_prefix_blank_after_last_sibling() {
    assert_eq!(child_prefix("", true), "    ");
    assert_eq!(child_prefix("│   ", true), "│       ");
}

#[test]
fn renderer_is_pure() {
    // Same inputs, same outputs, independent of call order.
    let a = render_line("│   ", false, "x");
    let b = render_line("    ", true, "y");
    let a2 = render_line("│   ", false, "x");
    let b2 = render_line("    ", true, "y");
    assert_eq!(a, a2);
    assert_eq!(b, b2);
    assert_eq!(child_prefix("│   ", true), child_prefix("│   ", true));
    assert_eq!(child_prefix("│   ", false), child_prefix("│   ", false));
}
