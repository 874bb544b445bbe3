use mini_httpd::content_type::determine_content_type;
use mini_httpd::request::{parse_request, ParseError};
use mini_httpd::script::parse_headers_as_env_vars;

#[test]
fn parses_method_target_and_headers() {
    let raw = b"GET /docs/a.txt HTTP/1.1\r\nHost: example.org\r\n  X-Thing :  a:b:c  \r\n\r\nignored: body";
    let req = parse_request(raw).ok().unwrap();
    assert_eq!(req.method, b"GET".to_vec());
    assert_eq!(req.target, b"/docs/a.txt".to_vec());
    assert_eq!(req.headers.len(), 2);
    assert_eq!(req.headers[0].name, b"host".to_vec());
    assert_eq!(req.headers[0].value, b"example.org".to_vec());
    assert_eq!(req.headers[1].name, b"x-thing".to_vec());
    assert_eq!(req.headers[1].value, b"a:b:c".to_vec());
}

#[test]
fn last_header_of_a_name_wins() {
    let raw = b"GET / HTTP/1.1\nAccept: a\nACCEPT: b\nOther: c\n";
    let req = parse_request(raw).ok().unwrap();
    assert_eq!(req.header(b"accept"), Some(&b"b".to_vec()));
    assert_eq!(req.header(b"other"), Some(&b"c".to_vec()));
    assert_eq!(req.header(b"missing"), None);
}

#[test]
fn headers_stop_at_empty_line_and_skip_lines_without_colon() {
    let raw = b"POST /scripts/x HTTP/1.0\r\nno colon here\r\nA: 1\r\n\r\nB: 2\r\n";
    let req = parse_request(raw).ok().unwrap();
    assert_eq!(req.headers.len(), 1);
    assert_eq!(req.headers[0].name, b"a".to_vec());
    assert_eq!(req.headers[0].value, b"1".to_vec());
}

#[test]
fn request_line_needs_three_tokens() {
    assert!(matches!(parse_request(b"GET /\r\n\r\n"), Err(ParseError::MalformedRequestLine)));
    assert!(matches!(parse_request(b"GET / HTTP/1.1 extra\r\n"), Err(ParseError::MalformedRequestLine)));
    assert!(matches!(parse_request(b""), Err(ParseError::MalformedRequestLine)));
    let ok = parse_request(b"  PUT \t /x   HTTP/1.1  ").ok().unwrap();
    assert_eq!(ok.method, b"PUT".to_vec());
    assert_eq!(ok.target, b"/x".to_vec());
    assert_eq!(ok.headers.len(), 0);
}

#[test]
fn content_types_follow_the_table() {
    let cases: Vec<(&[u8], &[u8])> = vec![
        (b"/srv/www/index.html", b"text/html; charset=utf-8"),
        (b"/srv/www/a.txt", b"text/plain; charset=utf-8"),
        (b"/srv/www/s.css", b"text/css; charset=utf-8"),
        (b"/srv/www/app.js", b"text/javascript; charset=utf-8"),
        (b"/srv/www/p.jpg", b"image/jpeg"),
        (b"/srv/www/p.jpeg", b"image/jpeg"),
        (b"/srv/www/p.png", b"image/png"),
        (b"/srv/www/a.zip", b"application/zip"),
        (b"/srv/www/a.HTML", b"application/octet-stream"),
        (b"/srv/www/noext", b"application/octet-stream"),
        (b"/srv/www/.html", b"application/octet-stream"),
        (b"/srv/w.html/file", b"application/octet-stream"),
        (b"/srv/www/a.tar.zip", b"application/zip"),
    ];
    for (path, mime) in cases {
        assert_eq!(determine_content_type(path), mime.to_vec());
    }
}

#[test]
fn env_vars_carry_headers_method_and_path() {
    let raw = b"POST /scripts/echo HTTP/1.1\r\nX-Token: abc123\r\ncontent-type: text/x\r\n\r\n";
    let req = parse_request(raw).ok().unwrap();
    let env = parse_headers_as_env_vars(&req, b"/srv/www/scripts/echo");
    let pairs: Vec<(Vec<u8>, Vec<u8>)> = env.iter().map(|e| (e.name.clone(), e.value.clone())).collect();
    assert_eq!(
        pairs,
        vec![
            (b"METHOD".to_vec(), b"POST".to_vec()),
            (b"PATH".to_vec(), b"/srv/www/scripts/echo".to_vec()),
            (b"HTTP_X_TOKEN".to_vec(), b"abc123".to_vec()),
            (b"HTTP_CONTENT_TYPE".to_vec(), b"text/x".to_vec()),
        ]
    );
}
