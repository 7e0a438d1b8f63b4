//! The requests that the dashboard answers.

use snerd::http::{answer, response_text, route_request, route_text, Response, Route};
use snerd::progress::ProgressRing;
use snerd::time::Timestamp;

fn now() -> Timestamp {
    Timestamp { secs: 1_700_000_000, nanos: 0 }
}

fn reply(route: Route, page: Option<&str>) -> Response {
    let logs = vec![vec!["{\"taskId\":\"a\"}".to_string()]];
    answer(route, &logs, &ProgressRing::new(), page.map(|p| p.to_string()), now())
}

#[test]
fn requests_are_told_apart() {
    let get = |path: &str| route_request(format!("GET {} HTTP/1.1\r\nHost: x\r\n\r\n", path).as_bytes());
    assert_eq!(get("/api/stats"), Route::Stats);
    assert_eq!(get("/api/tasks?limit=5"), Route::Tasks);
    assert_eq!(get("/api/progress?"), Route::Progress);
    assert_eq!(get("/"), Route::Page);
    assert_eq!(get("/?a=b"), Route::Page);
    assert_eq!(get("/api/stats/"), Route::Unknown);
    assert_eq!(get("?x"), Route::Unknown);
    assert_eq!(route_request(b"POST /api/stats HTTP/1.1\r\n\r\n"), Route::NotAllowed);
    assert_eq!(route_request(b"get / HTTP/1.1\r\n\r\n"), Route::NotAllowed);
    assert_eq!(route_request(b""), Route::NotAllowed);
    assert_eq!(route_request(b"GET"), Route::Page);
    assert_eq!(route_request(b"GET\n/api/stats"), Route::Page);
    assert_eq!(route_text("  GET \t /api/stats\r\nX"), Route::Stats);
}

#[test]
fn bytes_that_are_no_text_are_read_all_the_same() {
    assert_eq!(route_request(b"GET /\xff HTTP/1.1\r\n\r\n"), Route::Unknown);
    assert_eq!(route_request(b"\xff\xfe"), Route::NotAllowed);
    assert_eq!(route_request(b"GET /api/stats \xc3\x28\r\n"), Route::Stats);
    assert_eq!(route_request("GET /\u{e9}".as_bytes()), Route::Unknown);
}

#[test]
fn answers_to_all_requests() {
    let r = reply(Route::NotAllowed, None);
    assert_eq!((r.status, r.content_type), ("405 Method Not Allowed", "text/plain"));
    assert_eq!(r.body, "Method Not Allowed");
    let r = reply(Route::Stats, None);
    assert_eq!((r.status, r.content_type), ("200 OK", "application/json"));
    assert_eq!(r.body, "{\"enqueued\":1,\"processed\":0,\"failed\":0}");
    let r = reply(Route::Tasks, None);
    assert_eq!((r.status, r.content_type), ("200 OK", "application/json"));
    assert!(r.body.starts_with("[{\"cronExpression\":null,\"id\":\"a\","));
    let r = reply(Route::Progress, None);
    assert_eq!((r.status, r.content_type), ("200 OK", "application/json"));
    assert_eq!(r.body, "[]");
    let r = reply(Route::Page, Some("<html>"));
    assert_eq!((r.status, r.content_type), ("200 OK", "text/html"));
    assert_eq!(r.body, "<html>");
    let r = reply(Route::Page, None);
    assert_eq!((r.status, r.content_type), ("404 Not Found", "text/plain"));
    assert_eq!(
        r.body,
        "Dashboard UI not found: place the dashboard bundle at ./static/index.html"
    );
    let r = reply(Route::Unknown, Some("<html>"));
    assert_eq!((r.status, r.content_type), ("404 Not Found", "text/plain"));
    assert_eq!(r.body, "Not Found");
}

#[test]
fn the_length_is_counted_in_bytes() {
    let r = Response {
        status: "200 OK",
        content_type: "text/html",
        body: "h\u{e9}llo \u{1f980}".to_string(),
    };
    assert_eq!(
        response_text(&r),
        "HTTP/1.1 200 OK\r\nContent-Type: text/html\r\nAccess-Control-Allow-Origin: *\r\n\
         Content-Length: 11\r\nConnection: close\r\n\r\nh\u{e9}llo \u{1f980}"
    );
}
