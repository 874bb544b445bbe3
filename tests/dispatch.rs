use mini_httpd::handler::{
    after_get_lookup, after_index_lookup, after_post_lookup, after_read, after_script, start, Next,
};
use mini_httpd::path::{candidate_path, contains_dotdot_segment, path_is_under, Entry, EntryKind};
use mini_httpd::response::Response;
use mini_httpd::reader::{head_complete, parse_decimal, parse_response};
use mini_httpd::script::ScriptOutcome;

const ROOT: &[u8] = b"/srv/www";

fn status_of(n: &Next) -> Option<u16> {
    match n {
        Next::Respond(r) => Some(r.status),
        _ => None,
    }
}

fn file(p: &[u8]) -> Option<Entry> {
    Some(Entry { canonical: p.to_vec(), kind: EntryKind::RegularFile })
}

fn dir(p: &[u8]) -> Option<Entry> {
    Some(Entry { canonical: p.to_vec(), kind: EntryKind::Directory })
}

fn respond(n: Next) -> Response {
    match n {
        Next::Respond(r) => r,
        _ => panic!("expected a response"),
    }
}

#[test]
fn dotdot_segments_are_forbidden() {
    assert!(contains_dotdot_segment(b"/../etc/passwd"));
    assert!(contains_dotdot_segment(b"/a/.."));
    assert!(contains_dotdot_segment(b"/a/../a/b"));
    assert!(!contains_dotdot_segment(b"/a..b/c"));
    assert!(!contains_dotdot_segment(b"/.../x"));
    assert_eq!(candidate_path(ROOT, b"/a/../a/b"), None);
    assert_eq!(candidate_path(ROOT, b"/docs/a.txt"), Some(b"/srv/www/docs/a.txt".to_vec()));
    assert_eq!(candidate_path(ROOT, b"/"), Some(b"/srv/www/".to_vec()));
    assert_eq!(candidate_path(b"/", b"/x"), Some(b"/x".to_vec()));
    assert_eq!(candidate_path(ROOT, b"x"), None);
    assert_eq!(status_of(&start(ROOT, b"GET /a/../b HTTP/1.1\r\n\r\n")), Some(403));
}

#[test]
fn containment_is_by_component() {
    assert!(path_is_under(b"/srv/www", b"/srv/www"));
    assert!(path_is_under(b"/srv/www", b"/srv/www/a"));
    assert!(!path_is_under(b"/srv/www", b"/srv/wwwx/a"));
    assert!(!path_is_under(b"/srv/www", b"/srv"));
    assert!(path_is_under(b"/", b"/etc"));
    assert_eq!(status_of(&after_get_lookup(ROOT, file(b"/etc/passwd"))), Some(403));
}

#[test]
fn file_get_reads_with_type_and_length() {
    let n = after_get_lookup(ROOT, file(b"/srv/www/css/site.css"));
    let (path, ct) = match n {
        Next::ReadFile { path, content_type } => (path, content_type),
        _ => panic!("expected a read"),
    };
    assert_eq!(path, b"/srv/www/css/site.css".to_vec());
    assert_eq!(ct, b"text/css; charset=utf-8".to_vec());
    let r = respond(after_read(ct, Some(b"body{}\n".to_vec())));
    assert_eq!(r.status, 200);
    let wire = r.to_bytes();
    assert_eq!(
        wire,
        b"HTTP/1.1 200 OK\r\nContent-Type: text/css; charset=utf-8\r\nContent-Length: 7\r\nConnection: close\r\n\r\nbody{}\n".to_vec()
    );
}

#[test]
fn read_failure_is_500() {
    let r = respond(after_read(b"image/png".to_vec(), None));
    assert_eq!(r.status, 500);
    assert!(r.body.is_empty());
}

#[test]
fn directory_without_index_is_403() {
    let n = after_get_lookup(ROOT, dir(b"/srv/www/docs"));
    let idx = match n {
        Next::InspectIndex(p) => p,
        _ => panic!("expected an index lookup"),
    };
    assert_eq!(idx, b"/srv/www/docs/index.html".to_vec());
    assert_eq!(status_of(&after_index_lookup(ROOT, None)), Some(403));
    assert_eq!(status_of(&after_index_lookup(ROOT, dir(b"/srv/www/docs/index.html"))), Some(403));
}

#[test]
fn directory_index_is_served_like_the_file() {
    let via_dir = after_index_lookup(ROOT, file(b"/srv/www/docs/index.html"));
    let direct = after_get_lookup(ROOT, file(b"/srv/www/docs/index.html"));
    match (via_dir, direct) {
        (Next::ReadFile { path: p1, content_type: c1 }, Next::ReadFile { path: p2, content_type: c2 }) => {
            assert_eq!(p1, p2);
            assert_eq!(c1, c2);
            assert_eq!(c1, b"text/html; charset=utf-8".to_vec());
        }
        _ => panic!("expected reads"),
    }
}

#[test]
fn post_outside_scripts_is_403() {
    assert_eq!(status_of(&start(ROOT, b"POST /index.html HTTP/1.1\r\n\r\n")), Some(403));
    assert_eq!(status_of(&start(ROOT, b"POST /scriptsx/a HTTP/1.1\r\n\r\n")), Some(403));
    assert_eq!(status_of(&start(ROOT, b"POST /scripts HTTP/1.1\r\n\r\n")), Some(403));
    assert_eq!(status_of(&start(ROOT, b"POST /scripts/../index.html HTTP/1.1\r\n\r\n")), Some(403));
}

#[test]
fn other_methods_and_bad_lines_are_405() {
    assert_eq!(status_of(&start(ROOT, b"DELETE / HTTP/1.1\r\n\r\n")), Some(405));
    assert_eq!(status_of(&start(ROOT, b"get / HTTP/1.1\r\n\r\n")), Some(405));
    assert_eq!(status_of(&start(ROOT, b"garbage\r\n\r\n")), Some(405));
    let r = respond(start(ROOT, b"PUT /x HTTP/1.1\r\n"));
    assert!(r.body.is_empty());
}

#[test]
fn post_symlink_escaping_scripts_is_403() {
    let n = start(ROOT, b"POST /scripts/link HTTP/1.1\r\n\r\n");
    let req = match n {
        Next::InspectForPost { path, request } => {
            assert_eq!(path, b"/srv/www/scripts/link".to_vec());
            request
        }
        _ => panic!("expected a lookup"),
    };
    assert_eq!(status_of(&after_post_lookup(ROOT, req, file(b"/srv/www/index.html"))), Some(403));
}

#[test]
fn post_missing_script_is_404() {
    let n = start(ROOT, b"POST /scripts/nope HTTP/1.1\r\n\r\n");
    let req = match n {
        Next::InspectForPost { request, .. } => request,
        _ => panic!("expected a lookup"),
    };
    assert_eq!(status_of(&after_post_lookup(ROOT, req, None)), Some(404));
}

#[test]
fn script_outcomes_map_to_status_and_body() {
    let ok = respond(after_script(ScriptOutcome::Exited {
        success: true,
        stdout: vec![0, 159, 146, 150],
        stderr: b"warn".to_vec(),
    }));
    assert_eq!(ok.status, 200);
    assert_eq!(ok.body, vec![0, 159, 146, 150]);
    assert_eq!(ok.content_type, b"text/plain".to_vec());
    let bad = respond(after_script(ScriptOutcome::Exited {
        success: false,
        stdout: b"out".to_vec(),
        stderr: b"boom\n".to_vec(),
    }));
    assert_eq!(bad.status, 500);
    assert_eq!(bad.body, b"boom\n".to_vec());
    let failed = respond(after_script(ScriptOutcome::SpawnFailed));
    assert_eq!(failed.status, 500);
    assert!(failed.body.is_empty());
}

#[test]
fn scenario_root_with_index_and_echo_script() {
    // GET / serves index.html.
    let n = start(ROOT, b"GET / HTTP/1.1\r\nHost: x\r\n\r\n");
    let p = match n {
        Next::InspectForGet(p) => p,
        _ => panic!("expected a lookup"),
    };
    assert_eq!(p, b"/srv/www/".to_vec());
    let n = after_get_lookup(ROOT, dir(b"/srv/www"));
    let idx = match n {
        Next::InspectIndex(p) => p,
        _ => panic!("expected an index lookup"),
    };
    let n = after_index_lookup(ROOT, file(&idx));
    let ct = match n {
        Next::ReadFile { content_type, .. } => content_type,
        _ => panic!("expected a read"),
    };
    let r = respond(after_read(ct, Some(b"<h1>hi</h1>\n".to_vec())));
    assert_eq!(r.status, 200);
    assert_eq!(r.body, b"<h1>hi</h1>\n".to_vec());
    assert_eq!(r.content_type, b"text/html; charset=utf-8".to_vec());

    // POST /scripts/echo runs the script with HTTP_X_TOKEN.
    let n = start(ROOT, b"POST /scripts/echo HTTP/1.1\r\nX-Token: abc123\r\n\r\n");
    let (p, req) = match n {
        Next::InspectForPost { path, request } => (path, request),
        _ => panic!("expected a lookup"),
    };
    let n = after_post_lookup(ROOT, req, file(&p));
    let inv = match n {
        Next::Run(inv) => inv,
        _ => panic!("expected a run"),
    };
    assert_eq!(inv.path, b"/srv/www/scripts/echo".to_vec());
    let token = inv.env.iter().find(|e| e.name == b"HTTP_X_TOKEN".to_vec()).unwrap();
    let r = respond(after_script(ScriptOutcome::Exited {
        success: true,
        stdout: token.value.clone(),
        stderr: Vec::new(),
    }));
    assert_eq!(r.status, 200);
    assert!(r.body.windows(6).any(|w| w == b"abc123"));

    // Traversal, a missing file, and POST outside scripts.
    assert_eq!(status_of(&start(ROOT, b"GET /../etc/passwd HTTP/1.1\r\n\r\n")), Some(403));
    let n = start(ROOT, b"GET /missing.txt HTTP/1.1\r\n\r\n");
    assert!(matches!(n, Next::InspectForGet(_)));
    assert_eq!(status_of(&after_get_lookup(ROOT, None)), Some(404));
    assert_eq!(status_of(&start(ROOT, b"POST /index.html HTTP/1.1\r\n\r\n")), Some(403));
}

#[test]
fn response_wire_form_reads_back() {
    let r = Response { status: 404, content_type: b"text/plain".to_vec(), body: Vec::new() };
    let head = parse_response(&r.to_bytes()).unwrap();
    assert_eq!(head.status, 404);
    assert_eq!(head.content_type, b"text/plain".to_vec());
    assert_eq!(head.body_len, 0);
    let body: Vec<u8> = (0..=255u8).collect();
    let r = Response { status: 200, content_type: b"image/png".to_vec(), body: body.clone() };
    let wire = r.to_bytes();
    assert!(wire.windows(20).any(|w| w == b"Content-Length: 256\r"));
    let head = parse_response(&wire).unwrap();
    assert_eq!((head.status, head.content_type, head.body_len), (200, b"image/png".to_vec(), 256));
}

#[test]
fn malformed_responses_do_not_read_back() {
    assert!(parse_response(b"HTTP/1.1 200 OK\r\nContent-Type: a\r\nContent-Length: 3\r\n\r\nab").is_none());
    assert!(parse_response(b"HTTP/1.0 200 OK\r\nContent-Type: a\r\nContent-Length: 0\r\n\r\n").is_none());
    assert!(parse_response(b"HTTP/1.1 200 OK\r\nContent-Length: 0\r\n\r\n").is_none());
    assert!(parse_response(b"HTTP/1.1 2x0 OK\r\nContent-Type: a\r\nContent-Length: 0\r\n\r\n").is_none());
    assert!(parse_response(b"HTTP/1.1 200 OK\r\nContent-Type: a\r\nContent-Length: 0\r\n").is_none());
    assert_eq!(parse_decimal(b"0042"), Some(42));
    assert_eq!(parse_decimal(b""), None);
    assert_eq!(parse_decimal(b"4a"), None);
    assert_eq!(parse_decimal(b"99999999999999999999999"), None);
}

#[test]
fn head_is_complete_after_an_empty_line() {
    assert!(!head_complete(b""));
    assert!(!head_complete(b"GET / HTTP/1.1\r\nHost: x\r\n"));
    assert!(head_complete(b"GET / HTTP/1.1\r\nHost: x\r\n\r\n"));
    assert!(head_complete(b"GET / HTTP/1.1\n\n"));
}
