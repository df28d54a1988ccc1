use env_inject::serve::{header_directive, is_html_content_type, HeaderDirective};

#[test]
fn html_label_routes_through_injector() {
    assert!(is_html_content_type("text/html"));
}

#[test]
fn other_labels_bypass_injector() {
    assert!(!is_html_content_type("text/plain"));
    assert!(!is_html_content_type("application/json"));
    assert!(!is_html_content_type("text/htm"));
    assert!(!is_html_content_type("text/htmlx"));
    assert!(!is_html_content_type(""));
    assert!(!is_html_content_type("TEXT/HTML"));
}

#[test]
fn html_label_drops_content_length() {
    assert_eq!(
        header_directive("text/html"),
        HeaderDirective::DropContentLength
    );
}

#[test]
fn other_labels_retain_all_headers() {
    assert_eq!(header_directive("text/plain"), HeaderDirective::RetainAll);
    assert_eq!(header_directive("image/png"), HeaderDirective::RetainAll);
}
