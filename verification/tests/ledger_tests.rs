use podsync::ledger::{sanitize_id, sanitize_title, Ledger};

#[test]
fn from_text_collects_ids_of_terminated_lines() {
    let text = "ep-1 1700000000 \"One\"\nep-2 1700000100 \"Two\"\n";
    let ledger = Ledger::from_text(text);
    assert!(ledger.contains("ep-1"));
    assert!(ledger.contains("ep-2"));
    assert!(!ledger.contains("ep-3"));
}

#[test]
fn from_text_ignores_a_partial_trailing_line() {
    let text = "ep-1 1700000000 \"One\"\nep-2 17000";
    let ledger = Ledger::from_text(text);
    assert!(ledger.contains("ep-1"));
    assert!(!ledger.contains("ep-2"));
}

#[test]
fn from_text_ignores_malformed_lines() {
    let text = "\nnospace\nep-1 1700000000 \"One\"\n";
    let ledger = Ledger::from_text(text);
    assert!(ledger.contains("ep-1"));
    assert!(!ledger.contains("nospace"));
    assert_eq!(ledger.ids.len(), 1);
}

#[test]
fn duplicate_lines_still_mean_presence() {
    let text = "ep-1 1 \"a\"\nep-1 2 \"b\"\nep-1 3 \"c\"\n";
    let ledger = Ledger::from_text(text);
    assert!(ledger.contains("ep-1"));
    assert_eq!(ledger.ids.len(), 3);
}

#[test]
fn record_makes_an_id_present_for_good() {
    let mut ledger = Ledger::new();
    assert!(!ledger.contains("ep-9"));
    ledger.record("ep-9");
    assert!(ledger.contains("ep-9"));
    ledger.record("ep-10");
    assert!(ledger.contains("ep-9"));
    assert!(ledger.contains("ep-10"));
}

#[test]
fn render_line_has_the_ledger_shape() {
    let line = Ledger::render_line("ep-1", 1700000000, "Episode One");
    assert_eq!(line, "ep-1 1700000000 \"Episode One\"\n");
}

#[test]
fn rendered_lines_parse_back() {
    let a = Ledger::render_line("ep-1", 1, "One");
    let b = Ledger::render_line("ep-2", 2, "Two");
    let ledger = Ledger::from_text(&format!("{}{}", a, b));
    assert!(ledger.contains("ep-1"));
    assert!(ledger.contains("ep-2"));
    assert_eq!(ledger.ids.len(), 2);
}

#[test]
fn render_line_handles_negative_timestamps() {
    let line = Ledger::render_line("x", -5, "t");
    assert_eq!(line, "x -5 \"t\"\n");
}

#[test]
fn sanitized_fields_fit_the_line_format() {
    assert_eq!(sanitize_id("plain-id"), "plain-id");
    assert_eq!(sanitize_id("a b\nc"), "a_b_c");
    assert_eq!(sanitize_id(""), "_");
    assert_eq!(sanitize_title("two\nlines"), "two lines");
    let line = Ledger::render_line(&sanitize_id("a b"), 5, &sanitize_title("x\ny"));
    assert_eq!(line, "a_b 5 \"x y\"\n");
    assert!(Ledger::from_text(&line).contains("a_b"));
}
