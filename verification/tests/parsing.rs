use ommapin::bookmark::{merge_tags, normalize_url, parse_tags};
use ommapin::pinboard::{
    classify_api_code, evaluate_add_response, evaluate_response, extract_error_message,
    extract_result_code_from_text, truncate_for_error, PinboardError,
};
use ommapin::bookmark::{BookmarkPayload, SubmitIntent};
use ommapin::pinboard::add_bookmark_params;
use ommapin::session::prepare_submission;
use ommapin::theme::parse_omarchy_colors;
use ommapin::title::{decode_html_entities, extract_html_title, find_ascii_case_insensitive};
use ommapin::token::TokenStoreError;

#[test]
fn normalize_url_adds_https() {
    let normalized = normalize_url("news.ycombinator.com").unwrap();
    assert!(normalized.starts_with("https://"));
}

#[test]
fn merge_tags_is_case_insensitive() {
    let merged = merge_tags(
        &["Tech".to_string(), "Rust".to_string()],
        &["tech".to_string(), "Arch".to_string()],
    );
    assert_eq!(merged, vec!["Tech", "Rust", "Arch"]);
}

#[test]
fn normalize_url_appends_path_slash() {
    assert_eq!(
        normalize_url("example.com").unwrap(),
        "https://example.com/"
    );
}

#[test]
fn normalize_url_preserves_schemed_input() {
    assert_eq!(
        normalize_url("https://example.com/a?b=c").unwrap(),
        "https://example.com/a?b=c"
    );
    assert_eq!(
        normalize_url("http://example.com/x").unwrap(),
        "http://example.com/x"
    );
}

#[test]
fn normalize_url_rejects_whitespace_only_input() {
    assert!(normalize_url("   \t  ").is_none());
    assert!(normalize_url("").is_none());
}

#[test]
fn parse_tags_splits_on_whitespace() {
    assert_eq!(parse_tags("  a  b\tc\nd "), vec!["a", "b", "c", "d"]);
    assert!(parse_tags("   ").is_empty());
}

#[test]
fn response_with_done_code_is_success() {
    assert!(evaluate_add_response(200, None, "{\"result_code\":\"done\"}").is_ok());
}

#[test]
fn response_with_existing_item_code_is_terminal() {
    let err =
        evaluate_add_response(200, None, "{\"result_code\":\"item already exists\"}").unwrap_err();
    assert!(!err.is_retryable());
    assert_eq!(err.message_for_user(), "item already exists");
}

#[test]
fn server_error_is_retryable_without_hint() {
    let err = evaluate_response(500, None, "oops").unwrap_err();
    assert!(err.is_retryable());
    assert_eq!(err.retry_after_secs(), None);
    match err {
        PinboardError::Http { status, .. } => assert_eq!(status, 500),
        other => panic!("expected an http classification, got {:?}", other),
    }
}

#[test]
fn rate_limit_falls_back_to_default_delay() {
    let err = evaluate_response(429, Some("not a number"), "").unwrap_err();
    assert_eq!(err.retry_after_secs(), Some(30));
    let err = evaluate_response(429, None, "").unwrap_err();
    assert_eq!(err.retry_after_secs(), Some(30));
}

#[test]
fn missing_result_code_is_invalid_response() {
    let err = evaluate_add_response(200, None, "{\"other\":1}").unwrap_err();
    assert!(err.is_retryable());
    assert_eq!(err.message_for_user(), "missing result code from posts/add");
}

#[test]
fn unparseable_body_yields_bare_code_marker() {
    let r = evaluate_response(200, None, "<result code=\"done\" />");
    assert_eq!(r.unwrap().as_deref(), Some("done"));
    let err = evaluate_response(200, None, "<result code=\"something went wrong\" />").unwrap_err();
    assert!(err.is_retryable());
}

#[test]
fn unparseable_body_without_marker_is_invalid_response() {
    let err = evaluate_response(200, None, "complete garbage").unwrap_err();
    match err {
        PinboardError::InvalidResponse { ref message } => {
            assert_eq!(message, "complete garbage")
        }
        ref other => panic!("expected an invalid-response classification, got {:?}", other),
    }
    assert!(err.is_retryable());
}

#[test]
fn classify_codes_by_markers() {
    assert!(matches!(
        classify_api_code("RATE limit hit"),
        PinboardError::RateLimited {
            retry_after_secs: 30,
            ..
        }
    ));
    assert!(!classify_api_code("Invalid url").is_retryable());
    assert!(!classify_api_code("forbidden").is_retryable());
    assert!(classify_api_code("invalid state: temporarily unavailable").is_retryable());
    assert!(classify_api_code("some new code").is_retryable());
}

#[test]
fn http_statuses_classify_retryability() {
    for status in [408u16, 425, 429, 500, 503] {
        let e = PinboardError::Http {
            status,
            message: String::new(),
        };
        assert!(e.is_retryable(), "status {status} should be retryable");
    }
    for status in [400u16, 401, 404, 422] {
        let e = PinboardError::Http {
            status,
            message: String::new(),
        };
        assert!(!e.is_retryable(), "status {status} should be terminal");
    }
}

#[test]
fn extract_error_message_prefers_code_then_error_field() {
    assert_eq!(extract_error_message(""), "empty response body");
    assert_eq!(
        extract_error_message("{\"result_code\":\"must provide dt\"}"),
        "must provide dt"
    );
    assert_eq!(
        extract_error_message("{\"error\":\"nope\"}"),
        "nope"
    );
    assert_eq!(
        extract_error_message("<r code=\"bad auth\"/>"),
        "bad auth"
    );
    assert_eq!(extract_error_message("  plain text  "), "plain text");
}

#[test]
fn truncate_bounds_long_error_text() {
    let long = "x\n".repeat(200);
    let t = truncate_for_error(&long);
    assert_eq!(t.chars().count(), 223);
    assert!(t.ends_with("..."));
    assert!(!t.contains('\n'));
    assert_eq!(truncate_for_error("short\r\nbody"), "short  body");
}

#[test]
fn extract_bare_code_marker() {
    assert_eq!(
        extract_result_code_from_text("<result code=\"done\" />").as_deref(),
        Some("done")
    );
    assert!(extract_result_code_from_text("no marker here").is_none());
    assert!(extract_result_code_from_text("code=\"unterminated").is_none());
}

#[test]
fn add_params_follow_wire_conventions() {
    let payload = BookmarkPayload {
        url: "https://example.com/".to_string(),
        title: "T".to_string(),
        notes: "N".to_string(),
        tags: vec!["a".to_string(), "b".to_string()],
        private: true,
        read_later: true,
        intent: SubmitIntent::Update,
    };
    let params = add_bookmark_params("u:tok", &payload);
    let lookup = |k: &str| -> String {
        params
            .iter()
            .find(|(key, _)| key == k)
            .map(|(_, v)| v.clone())
            .unwrap()
    };
    assert_eq!(lookup("auth_token"), "u:tok");
    assert_eq!(lookup("url"), "https://example.com/");
    assert_eq!(lookup("tags"), "a b");
    assert_eq!(lookup("replace"), "yes");
    assert_eq!(lookup("shared"), "no");
    assert_eq!(lookup("toread"), "yes");
}

#[test]
fn prepare_submission_normalizes_url_and_tags() {
    let payload = BookmarkPayload {
        url: "example.com".to_string(),
        title: "T".to_string(),
        notes: String::new(),
        tags: vec!["a b".to_string(), "c".to_string()],
        private: false,
        read_later: false,
        intent: SubmitIntent::Create,
    };
    let p = prepare_submission(&payload).unwrap();
    assert_eq!(p.url, "https://example.com/");
    assert_eq!(p.tags, vec!["a", "b", "c"]);
    let bad = BookmarkPayload {
        url: "   ".to_string(),
        ..payload
    };
    assert_eq!(prepare_submission(&bad).unwrap_err(), "Invalid URL");
}

#[test]
fn html_title_is_found_case_insensitively() {
    let html = "<html><head><TITLE>  Hello   &amp; <b>  </TITLE></head></html>";
    assert_eq!(extract_html_title(html).as_deref(), Some("Hello & <b>"));
    assert!(extract_html_title("<html><title>   </title>").is_none());
    assert!(extract_html_title("<html>no title</html>").is_none());
}

#[test]
fn ascii_case_insensitive_find_returns_byte_index() {
    assert_eq!(find_ascii_case_insensitive("abcDEF", "def"), Some(3));
    assert_eq!(find_ascii_case_insensitive("abc", ""), Some(0));
    assert_eq!(find_ascii_case_insensitive("abc", "zz"), None);
    assert_eq!(find_ascii_case_insensitive("xxABab", "ab"), Some(2));
}

#[test]
fn entities_decode_in_order() {
    assert_eq!(decode_html_entities("&lt;a&gt; &amp; &quot;q&quot;"), "<a> & \"q\"");
    assert_eq!(decode_html_entities("&apos;&#39;&nbsp;"), "'' ");
}

#[test]
fn theme_colors_parse_and_filter() {
    let raw = "background = \"#112233\"\n# comment line\nempty =\nnot_hex = \"red\"\naccent = #AABBCCDD\nshort = \"#12\"\n";
    let colors = parse_omarchy_colors(raw);
    assert_eq!(colors.len(), 2);
    assert_eq!(colors[0].0, "background");
    assert_eq!(colors[0].1, "#112233");
    assert_eq!(colors[1].0, "accent");
    assert_eq!(colors[1].1, "#AABBCCDD");
}

#[test]
fn token_store_errors_describe_themselves() {
    let e = TokenStoreError::Keyring("boom".to_string());
    assert_eq!(e.describe(), "failed to access keyring: boom");
    let e = TokenStoreError::StorageUnavailable("locked".to_string());
    assert_eq!(
        e.describe(),
        "system keyring is unavailable or locked (Secret Service): locked"
    );
}

#[test]
fn merge_tags_keeps_first_seen_casing() {
    let merged = merge_tags(
        &["Linux".to_string()],
        &["LINUX".to_string(), "linux".to_string(), "Vim".to_string()],
    );
    assert_eq!(merged, vec!["Linux", "Vim"]);
}
