use omp_desktop::external::{is_allowed, is_openable, open, scheme_of};

#[test]
fn the_allowed_schemes_pass() {
    for url in [
        "https://omp.sh/docs",
        "http://127.0.0.1:5173",
        "mailto:someone@example.com",
        "HTTPS://OMP.SH",
    ] {
        assert!(is_openable(url), "{url} must be openable");
    }
}

#[test]
fn everything_else_is_refused() {
    for url in [
        "javascript:alert(1)",
        "file:///etc/passwd",
        "vscode://file/etc/passwd",
        "ssh://host",
        "data:text/html,<script>",
        "not a url",
        "C:\\Windows\\System32",
        "",
        "   ",
    ] {
        assert!(!is_openable(url), "{url} must not be openable");
    }
}

#[test]
fn a_refusal_explains_itself_and_never_opens() {
    let error = open("javascript:alert(1)").expect_err("must refuse");
    assert!(error.contains("javascript"), "got {error}");

    let error = open("   ").expect_err("must refuse");
    assert!(error.contains("no URL"), "got {error}");
}

#[test]
fn a_scheme_hidden_behind_whitespace_or_case_is_still_read() {
    assert!(!is_openable("  javascript:alert(1)"));
    assert!(!is_openable("JaVaScRiPt:alert(1)"));
}

#[test]
fn an_accepted_url_is_handed_on_trimmed() {
    assert_eq!(open("  https://omp.sh/docs \n").unwrap(), "https://omp.sh/docs");
}

#[test]
fn a_scheme_is_the_text_before_the_first_colon() {
    assert_eq!(scheme_of("https://omp.sh"), Some("https"));
    assert_eq!(scheme_of("mailto:a@b"), Some("mailto"));
    assert_eq!(scheme_of("no colon here"), None);
    assert_eq!(scheme_of(":empty"), None);
    assert_eq!(scheme_of("C:\\Windows\\System32"), None);
    assert_eq!(scheme_of("ab:c"), Some("ab"));
    assert!(is_allowed("MailTo"));
    assert!(!is_allowed("ftp"));
}
