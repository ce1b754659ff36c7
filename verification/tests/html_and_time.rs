use ptah_archive_decomposition::archive_policy::DecompositionError;
use ptah_archive_decomposition::document::DocumentAdapter;
use ptah_archive_decomposition::document_adapters::SafeHtmlAdapter;
use ptah_archive_decomposition::html_text::{
    extract_html_title, html_contains_active_content, html_to_text, remove_html_active_regions,
};
use ptah_archive_decomposition::run_time::{checked_timestamp, days_in_month, require_utc_datetime};

#[test]
fn html_adapter_extracts_passive_text() {
    let html = "<html><head><title>My &amp; Page</title><script>alert(1)</script></head>\
<body><p onclick=\"x()\">Hello&nbsp;<b>world</b></p><style>p{}</style></body></html>";
    let a = SafeHtmlAdapter;
    assert_eq!(a.adapter_id(), "b03.safe-html");
    assert!(a.supports_media_type("text/html"));
    assert!(a.supports_media_type("application/xhtml+xml"));
    assert!(!a.supports_media_type("text/plain"));
    assert!(a.isolation().is_safe());
    let d = a.inspect(html.as_bytes(), "text/html").ok().unwrap();
    assert!(d.active_content_observed);
    assert!(!d.complete_claim);
    let meta: Vec<(&str, &str)> = d.metadata.iter().map(|m| (m.key.as_str(), m.value.as_str())).collect();
    assert_eq!(meta, vec![("media_type", "text/html"), ("active_content_observed", "true"), ("title", "My & Page")]);
    assert_eq!(d.text.len(), 1);
    assert_eq!(d.text[0].text, "My & Page Hello world");
    assert_eq!(d.pages[0].bytes, b"My & Page Hello world".to_vec());
    assert_eq!(d.pages[0].media_type, "text/plain");
    assert_eq!(d.conversion.as_ref().unwrap().bytes, b"My & Page Hello world".to_vec());
    assert_eq!(
        d.limitations,
        vec![
            "HTML layout/CSS fidelity is not claimed by the passive text adapter".to_string(),
            "external resources are not loaded".to_string(),
            "active/embedded HTML regions were removed before extraction".to_string(),
        ]
    );
}

#[test]
fn html_adapter_plain_and_lossy_input() {
    let d = SafeHtmlAdapter.inspect(b"<p>a\xffb</p>", "text/html").ok().unwrap();
    assert!(!d.active_content_observed);
    assert_eq!(d.metadata.len(), 2);
    assert_eq!(d.metadata[1].value, "false");
    assert_eq!(d.text[0].text, "a\u{fffd}b");
    assert_eq!(d.limitations.len(), 3);
    assert_eq!(d.limitations[2], "invalid UTF-8 sequences were replaced during HTML decoding");
}

#[test]
fn active_regions_are_removed_with_nesting() {
    let r = remove_html_active_regions("<div>a<script>x<script>y</script>z</script>b</div>");
    assert_eq!(r, "<div>ab</div>");
    let r = remove_html_active_regions("a<SCRIPT src=x />b");
    assert_eq!(r, "ab");
    let r = remove_html_active_regions("a<script>b");
    assert_eq!(r, "a");
    let r = remove_html_active_regions("x<scripts>y</scripts>");
    assert_eq!(r, "x<scripts>y</scripts>");
    let r = remove_html_active_regions("1<embed src=a>2<object>3</object>4");
    assert_eq!(r, "124");
}

#[test]
fn active_content_detection() {
    assert!(html_contains_active_content("<p onClick = 'x'>"));
    assert!(html_contains_active_content("<a href=\"JavaScript:void(0)\">"));
    assert!(html_contains_active_content("<IFRAME>"));
    assert!(!html_contains_active_content("<p>on time</p>"));
    assert!(!html_contains_active_content("plain"));
}

#[test]
fn title_and_text() {
    assert_eq!(extract_html_title("<TITLE a=b> Hi  <i>there</i> </title>").as_deref(), Some("Hi there"));
    assert_eq!(extract_html_title("<title></title>"), None);
    assert_eq!(extract_html_title("<title>x"), None);
    assert_eq!(html_to_text("&amp;lt; &quot;q&quot; &#39;s&#39; &gt;"), "&lt; \"q\" 's' >");
    assert_eq!(html_to_text("  a\t\n b  "), "a b");
}

#[test]
fn utc_timestamps() {
    for ok in ["2024-02-29T12:30:45Z", "2024-01-01t23:59:60.123Z", "2000-02-29T00:00:00Z", "2024-01-01T00:00:00.5.5Z"] {
        assert!(require_utc_datetime(ok).is_ok(), "{ok}");
    }
    for bad in [
        "2023-02-29T00:00:00Z",
        "1900-02-29T00:00:00Z",
        "2024-13-01T00:00:00Z",
        "2024-00-10T00:00:00Z",
        "2024-01-01T24:00:00Z",
        "2024-01-01T00:60:00Z",
        "2024-01-01T00:00:00",
        "2024-01-01T00:00Z",
        "2024-01-01 00:00:00Z",
        "2024-1-01T00:00:00Z",
        "2024-01-01T00:00:0aZ",
        "",
    ] {
        assert!(matches!(require_utc_datetime(bad), Err(DecompositionError::InvalidTimestamp)), "{bad}");
    }
    assert_eq!(days_in_month(2024, 2), 29);
    assert_eq!(days_in_month(2023, 2), 28);
    assert_eq!(days_in_month(2024, 4), 30);
    assert_eq!(days_in_month(2024, 13), 0);
    assert_eq!(checked_timestamp("2024-05-06T07:08:09Z".to_string()).ok().as_deref(), Some("2024-05-06T07:08:09Z"));
    assert!(checked_timestamp("yesterday".to_string()).is_err());
}
