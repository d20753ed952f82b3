use constraint_mux::dashboard::{dashboard_html, PAGE_HEAD, PAGE_MIDDLE, PAGE_TAIL};

#[test]
fn test_dashboard_html_contains_alias() {
    let body = dashboard_html("test-synth");
    assert!(body.contains("test-synth"));
    assert!(body.contains("constraint-mux"));
    assert!(body.contains("heatmap"));
    assert!(body.contains("consonance"));
}

#[test]
fn dashboard_page_layout() {
    let body = dashboard_html("synth-1");
    assert_eq!(body, format!("{}synth-1{}synth-1{}", PAGE_HEAD, PAGE_MIDDLE, PAGE_TAIL));
    assert!(body.contains("<title>constraint-mux: synth-1</title>"));
    assert!(body.contains("const HM_SIZE = 24;"));
    assert!(body.starts_with("<!DOCTYPE html>"));
    assert!(body.ends_with("</html>"));
}
