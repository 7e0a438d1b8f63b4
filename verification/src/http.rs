//! The requests that the dashboard answers.

use vstd::prelude::*;
use vstd::string::*;

use crate::dashboard::{stats_body_multiple, tasks_body_multiple_at};
use crate::progress::{progress_body, ProgressRing};
use crate::text::{chars_of, decimal_text, find_space, same_text};
use crate::time::Timestamp;

verus! {

/// The text that `String::from_utf8_lossy` reads out of bytes.
pub uninterp spec fn lossy_text(bytes: Seq<u8>) -> Seq<char>;

/// Calls `String::from_utf8_lossy`. Claimed: the text depends on the bytes alone, and where
/// they are UTF-8 it is the text that they stand for.
#[verifier::external_body]
fn read_lossy(bytes: &[u8]) -> (r: String)
    ensures
        r@ == lossy_text(bytes@),
        vstd::utf8::valid_utf8(bytes@) ==> r@ == vstd::utf8::decode_utf8(bytes@),
{
    String::from_utf8_lossy(bytes).into_owned()
}

/// The first place at or after `from` with the character `c`; the length of the text where
/// there is none.
pub open spec fn place_of(s: Seq<char>, from: int, c: char) -> int
    decreases s.len() - from,
{
    if from >= s.len() {
        s.len() as int
    } else if s[from] == c {
        from
    } else {
        place_of(s, from + 1, c)
    }
}

/// The text up to the first `c`.
pub open spec fn up_to(s: Seq<char>, c: char) -> Seq<char> {
    s.take(place_of(s, 0, c))
}

/// The word that begins at or after `from`, where words are parted by white space; no text
/// where there is none.
pub open spec fn word_from(s: Seq<char>, from: int) -> Seq<char> {
    let start = crate::text::space_from(s, from, false);
    s.subrange(start, crate::text::space_from(s, start, true))
}

/// Where the word that begins at or after `from` ends.
pub open spec fn word_end(s: Seq<char>, from: int) -> int {
    crate::text::space_from(s, crate::text::space_from(s, from, false), true)
}

/// The method of a request: the first word of its first line.
pub open spec fn method_of(request: Seq<char>) -> Seq<char> {
    word_from(up_to(request, '\n'), 0)
}

/// The path that a request asks for: the second word of its first line, up to a question
/// mark; where there is no second word, the root.
pub open spec fn path_of(request: Seq<char>) -> Seq<char> {
    let line = up_to(request, '\n');
    let target = word_from(line, word_end(line, 0));
    if target.len() == 0 {
        "/"@
    } else {
        up_to(target, '?')
    }
}

/// What a request asks for.
#[derive(Clone, Copy, Debug, PartialEq, Eq, Structural)]
pub enum Route {
    /// Something else than reading.
    NotAllowed,
    Stats,
    Tasks,
    Progress,
    /// The page itself.
    Page,
    /// Something that is not there.
    Unknown,
}

/// What a request with this method for this path asks for.
pub open spec fn route_to(method: Seq<char>, path: Seq<char>) -> Route {
    if method != "GET"@ {
        Route::NotAllowed
    } else if path == "/api/stats"@ {
        Route::Stats
    } else if path == "/api/tasks"@ {
        Route::Tasks
    } else if path == "/api/progress"@ {
        Route::Progress
    } else if path == "/"@ {
        Route::Page
    } else {
        Route::Unknown
    }
}

/// Cuts a text off at the first `c`.
fn cut_at(s: &str, c: char) -> (r: &str)
    ensures
        r@ == up_to(s@, c),
{
    let chars = chars_of(s);
    let mut i: usize = 0;
    while i < chars.len() && chars[i] != c
        invariant
            i <= chars@.len(),
            chars@ == s@,
            place_of(s@, 0, c) == place_of(s@, i as int, c),
        decreases chars@.len() - i,
    {
        i = i + 1;
    }
    let r = s.substring_char(0, i);
    assert(r@ =~= up_to(s@, c));
    r
}

/// Reads off what a request asks for.
pub fn route_text(request: &str) -> (r: Route)
    ensures
        r == route_to(method_of(request@), path_of(request@)),
{
    let line = cut_at(request, '\n');
    let chars = chars_of(line);
    let start: usize = find_space(&chars, 0, false);
    let end: usize = find_space(&chars, start, true);
    let method = line.substring_char(start, end);
    let next: usize = find_space(&chars, end, false);
    let stop: usize = find_space(&chars, next, true);
    let target = line.substring_char(next, stop);
    if !same_text(method, "GET") {
        return Route::NotAllowed;
    }
    let path = if next == stop {
        "/"
    } else {
        cut_at(target, '?')
    };
    if same_text(path, "/api/stats") {
        Route::Stats
    } else if same_text(path, "/api/tasks") {
        Route::Tasks
    } else if same_text(path, "/api/progress") {
        Route::Progress
    } else if same_text(path, "/") {
        Route::Page
    } else {
        Route::Unknown
    }
}

/// Reads off the bytes of a request what it asks for.
pub fn route_request(bytes: &[u8]) -> (r: Route)
    ensures
        r == route_to(method_of(lossy_text(bytes@)), path_of(lossy_text(bytes@))),
        vstd::utf8::valid_utf8(bytes@) ==> r == route_to(
            method_of(vstd::utf8::decode_utf8(bytes@)),
            path_of(vstd::utf8::decode_utf8(bytes@)),
        ),
{
    let request: String = read_lossy(bytes);
    route_text(request.as_str())
}

/// An answer.
#[derive(Debug)]
pub struct Response {
    pub status: &'static str,
    pub content_type: &'static str,
    pub body: String,
}

/// What an answer holds.
#[verifier::ext_equal]
pub struct ResponseView {
    pub status: Seq<char>,
    pub content_type: Seq<char>,
    pub body: Seq<char>,
}

impl View for Response {
    type V = ResponseView;

    open spec fn view(&self) -> ResponseView {
        ResponseView {
            status: self.status@,
            content_type: self.content_type@,
            body: self.body@,
        }
    }
}

/// The answer to a request, where the page is there or not.
pub open spec fn answer_to(
    route: Route,
    lines: Seq<Option<Seq<(Seq<char>, crate::json::ValueView)>>>,
    events: Seq<crate::progress::EventView>,
    page: Option<Seq<char>>,
    now: Timestamp,
) -> ResponseView {
    match route {
        Route::NotAllowed => ResponseView {
            status: "405 Method Not Allowed"@,
            content_type: "text/plain"@,
            body: "Method Not Allowed"@,
        },
        Route::Stats => ResponseView {
            status: "200 OK"@,
            content_type: "application/json"@,
            body: crate::dashboard::stats_shown(lines),
        },
        Route::Tasks => ResponseView {
            status: "200 OK"@,
            content_type: "application/json"@,
            body: crate::dashboard::tasks_json(crate::dashboard::latest_records(lines), now),
        },
        Route::Progress => ResponseView {
            status: "200 OK"@,
            content_type: "application/json"@,
            body: crate::progress::progress_json(events),
        },
        Route::Page => match page {
            Some(html) => ResponseView {
                status: "200 OK"@,
                content_type: "text/html"@,
                body: html,
            },
            None => ResponseView {
                status: "404 Not Found"@,
                content_type: "text/plain"@,
                body: "Dashboard UI not found: place the dashboard bundle at ./static/index.html"@,
            },
        },
        Route::Unknown => ResponseView {
            status: "404 Not Found"@,
            content_type: "text/plain"@,
            body: "Not Found"@,
        },
    }
}

/// Answers a request from the lines of the logs, the progress and the page, where it is there.
pub fn answer(
    route: Route,
    logs: &Vec<Vec<String>>,
    ring: &ProgressRing,
    page: Option<String>,
    now: Timestamp,
) -> (r: Response)
    requires
        ring.well_formed(),
    ensures
        r@ == answer_to(
            route,
            crate::dashboard::lines_in(logs@),
            ring@,
            crate::task::opt_text(page),
            now,
        ),
{
    match route {
        Route::NotAllowed => Response {
            status: "405 Method Not Allowed",
            content_type: "text/plain",
            body: "Method Not Allowed".to_string(),
        },
        Route::Stats => Response {
            status: "200 OK",
            content_type: "application/json",
            body: stats_body_multiple(logs),
        },
        Route::Tasks => Response {
            status: "200 OK",
            content_type: "application/json",
            body: tasks_body_multiple_at(logs, now),
        },
        Route::Progress => Response {
            status: "200 OK",
            content_type: "application/json",
            body: progress_body(ring),
        },
        Route::Page => match page {
            Some(html) => Response { status: "200 OK", content_type: "text/html", body: html },
            None => Response {
                status: "404 Not Found",
                content_type: "text/plain",
                body: "Dashboard UI not found: place the dashboard bundle at ./static/index.html".to_string(),
            },
        },
        Route::Unknown => Response {
            status: "404 Not Found",
            content_type: "text/plain",
            body: "Not Found".to_string(),
        },
    }
}

/// An answer as it goes over the wire.
pub open spec fn wire_text(r: ResponseView) -> Seq<char> {
    "HTTP/1.1 "@ + r.status + "\r\nContent-Type: "@ + r.content_type
        + "\r\nAccess-Control-Allow-Origin: *\r\nContent-Length: "@ + crate::text::decimal(
        vstd::utf8::encode_utf8(r.body).len(),
    ) + "\r\nConnection: close\r\n\r\n"@ + r.body
}

/// Writes an answer out. The length that it states is that of the body in bytes.
pub fn response_text(r: &Response) -> (out: String)
    ensures
        out@ == wire_text(r@),
{
    let mut out: String = "HTTP/1.1 ".to_string();
    out.append(r.status);
    out.append("\r\nContent-Type: ");
    out.append(r.content_type);
    out.append("\r\nAccess-Control-Allow-Origin: *\r\nContent-Length: ");
    let n: usize = r.body.as_str().as_bytes().len();
    out.append(decimal_text(n as u64).as_str());
    out.append("\r\nConnection: close\r\n\r\n");
    out.append(r.body.as_str());
    out
}

/// Whatever is asked for, only a reading request is answered with data: any other method gets
/// the answer that it is not allowed, whatever the path.
pub proof fn law_only_reading_is_answered(
    method: Seq<char>,
    path: Seq<char>,
    lines: Seq<Option<Seq<(Seq<char>, crate::json::ValueView)>>>,
    events: Seq<crate::progress::EventView>,
    page: Option<Seq<char>>,
    now: Timestamp,
)
    ensures
        method != "GET"@ <==> answer_to(route_to(method, path), lines, events, page, now).status
            == "405 Method Not Allowed"@,
{
    reveal_strlit("405 Method Not Allowed");
    reveal_strlit("200 OK");
    reveal_strlit("404 Not Found");
    assert("405 Method Not Allowed"@.len() == 22);
    assert("200 OK"@.len() == 6);
    assert("404 Not Found"@.len() == 13);
}

/// Where a character stands first.
proof fn lemma_place_of(s: Seq<char>, from: int, c: char, k: int)
    requires
        0 <= from <= k <= s.len(),
        forall|i: int| from <= i < k ==> #[trigger] s[i] != c,
        k < s.len() ==> s[k] == c,
    ensures
        place_of(s, from, c) == k,
    decreases k - from,
{
    if from < k {
        assert(s[from] != c);
        lemma_place_of(s, from + 1, c, k);
    }
}

/// Where white space, or anything else, stands first.
proof fn lemma_space_place(s: Seq<char>, from: int, want: bool, k: int)
    requires
        0 <= from <= k <= s.len(),
        forall|i: int| from <= i < k ==> crate::text::is_space(#[trigger] s[i]) != want,
        k < s.len() ==> crate::text::is_space(s[k]) == want,
    ensures
        crate::text::space_from(s, from, want) == k,
    decreases k - from,
{
    if from < k {
        assert(crate::text::is_space(s[from]) != want);
        lemma_space_place(s, from + 1, want, k);
    }
}

/// A text that is cut at a character is what stands before the first such character, and all of
/// it where there is none.
pub proof fn law_cut_keeps_what_stands_before(front: Seq<char>, c: char, rest: Seq<char>)
    requires
        forall|i: int| 0 <= i < front.len() ==> #[trigger] front[i] != c,
    ensures
        up_to(front, c) == front,
        up_to(front + seq![c] + rest, c) == front,
{
    let s = front + seq![c] + rest;
    assert forall|i: int| 0 <= i < front.len() implies #[trigger] s[i] != c by {
        assert(s[i] == front[i]);
    }
    lemma_place_of(s, 0, c, front.len() as int);
    lemma_place_of(front, 0, c, front.len() as int);
    assert(s.take(front.len() as int) =~= front);
    assert(front.take(front.len() as int) =~= front);
}

/// A request begins with its method and, after white space, what it asks for: the path is that up
/// to a question mark. White space before the method, and what follows, another word, another
/// line or nothing, does not matter.
pub proof fn law_request_names_method_and_path(
    lead: Seq<char>,
    method: Seq<char>,
    gap: Seq<char>,
    target: Seq<char>,
    rest: Seq<char>,
)
    requires
        method.len() > 0,
        gap.len() > 0,
        target.len() > 0,
        forall|i: int|
            0 <= i < lead.len() ==> crate::text::is_space(#[trigger] lead[i]) && lead[i] != '\n',
        forall|i: int| 0 <= i < method.len() ==> !crate::text::is_space(#[trigger] method[i]),
        forall|i: int|
            0 <= i < gap.len() ==> crate::text::is_space(#[trigger] gap[i]) && gap[i] != '\n',
        forall|i: int| 0 <= i < target.len() ==> !crate::text::is_space(#[trigger] target[i]),
        rest.len() > 0 ==> crate::text::is_space(rest[0]),
    ensures
        method_of(lead + method + gap + target + rest) == method,
        path_of(lead + method + gap + target + rest) == up_to(target, '?'),
{
    let request = lead + method + gap + target + rest;
    let a = lead.len() as int;
    let b = a + method.len();
    let c = b + gap.len();
    let d = c + target.len();
    assert(crate::text::is_space('\n'));
    let k = place_of(request, d, '\n');
    lemma_place_bounds(request, d, '\n');
    assert forall|i: int| 0 <= i < k implies #[trigger] request[i] != '\n' by {
        if i < a {
            assert(request[i] == lead[i]);
        } else if i < b {
            assert(request[i] == method[i - a]);
        } else if i < c {
            assert(request[i] == gap[i - b]);
        } else if i < d {
            assert(request[i] == target[i - c]);
        }
    }
    lemma_place_of(request, 0, '\n', k);
    let line = up_to(request, '\n');
    assert(line == request.take(k));
    assert forall|i: int| 0 <= i < a implies crate::text::is_space(#[trigger] line[i]) by {
        assert(line[i] == lead[i]);
    }
    assert forall|i: int| a <= i < b implies !crate::text::is_space(#[trigger] line[i]) by {
        assert(line[i] == method[i - a]);
    }
    assert forall|i: int| b <= i < c implies crate::text::is_space(#[trigger] line[i]) by {
        assert(line[i] == gap[i - b]);
    }
    assert forall|i: int| c <= i < d implies !crate::text::is_space(#[trigger] line[i]) by {
        assert(line[i] == target[i - c]);
    }
    if d < k {
        assert(line[d] == rest[0]);
    }
    lemma_space_place(line, 0, false, a);
    lemma_space_place(line, a, true, b);
    lemma_space_place(line, b, false, c);
    lemma_space_place(line, c, true, d);
    assert(line.subrange(a, b) =~= method);
    assert(line.subrange(c, d) =~= target);
}

/// What `place_of` finds.
proof fn lemma_place_bounds(s: Seq<char>, from: int, c: char)
    requires
        0 <= from <= s.len(),
    ensures
        from <= place_of(s, from, c) <= s.len(),
        place_of(s, from, c) < s.len() ==> s[place_of(s, from, c)] == c,
        forall|i: int| from <= i < place_of(s, from, c) ==> #[trigger] s[i] != c,
    decreases s.len() - from,
{
    if from < s.len() && s[from] != c {
        lemma_place_bounds(s, from + 1, c);
    }
}

/// A request that names no path asks for the root.
pub proof fn law_request_without_a_path_asks_for_the_root(method: Seq<char>, rest: Seq<char>)
    requires
        method.len() > 0,
        forall|i: int| 0 <= i < method.len() ==> !crate::text::is_space(#[trigger] method[i]),
        rest.len() > 0 ==> rest[0] == '\n',
    ensures
        method_of(method + rest) == method,
        path_of(method + rest) == "/"@,
{
    let request = method + rest;
    let a = method.len() as int;
    assert(crate::text::is_space('\n'));
    assert forall|i: int| 0 <= i < a implies #[trigger] request[i] != '\n' by {
        assert(request[i] == method[i]);
        assert(!crate::text::is_space(method[i]));
    }
    if rest.len() > 0 {
        assert(request[a] == rest[0]);
    }
    lemma_place_of(request, 0, '\n', a);
    let line = up_to(request, '\n');
    assert(line =~= method);
    lemma_space_place(line, 0, false, 0);
    lemma_space_place(line, 0, true, a);
    lemma_space_place(line, a, false, a);
    lemma_space_place(line, a, true, a);
    assert(line.subrange(0, a) =~= method);
}

/// Each path has what it stands for, for readers alone.
pub proof fn law_paths_lead_where_they_say(method: Seq<char>, path: Seq<char>)
    ensures
        route_to(method, path) == Route::NotAllowed <==> method != "GET"@,
        route_to("GET"@, "/api/stats"@) == Route::Stats,
        route_to("GET"@, "/api/tasks"@) == Route::Tasks,
        route_to("GET"@, "/api/progress"@) == Route::Progress,
        route_to("GET"@, "/"@) == Route::Page,
        path != "/api/stats"@ && path != "/api/tasks"@ && path != "/api/progress"@ && path != "/"@
            ==> route_to("GET"@, path) == Route::Unknown,
{
    reveal_strlit("/api/stats");
    reveal_strlit("/api/tasks");
    reveal_strlit("/api/progress");
    reveal_strlit("/");
    assert("/api/stats"@.len() == 10 && "/api/tasks"@.len() == 10);
    assert("/api/progress"@.len() == 13 && "/"@.len() == 1);
    assert("/api/stats"@[5] == 's' && "/api/tasks"@[5] == 't');
}

/// Data is answered as JSON from what is on record, the page as it is, and what is not there with
/// a text that says so.
pub proof fn law_answers_hold_what_was_asked_for(
    lines: Seq<Option<Seq<(Seq<char>, crate::json::ValueView)>>>,
    events: Seq<crate::progress::EventView>,
    page: Option<Seq<char>>,
    html: Seq<char>,
    now: Timestamp,
    r: Route,
)
    ensures
        answer_to(Route::Stats, lines, events, page, now).body == crate::dashboard::stats_shown(
            lines,
        ),
        answer_to(Route::Tasks, lines, events, page, now).body == crate::dashboard::tasks_json(
            crate::dashboard::latest_records(lines),
            now,
        ),
        answer_to(Route::Progress, lines, events, page, now).body
            == crate::progress::progress_json(events),
        answer_to(Route::Page, lines, events, Some(html), now).body == html,
        answer_to(Route::Page, lines, events, Some(html), now).content_type == "text/html"@,
        answer_to(Route::Page, lines, events, Some(html), now).status == "200 OK"@,
        answer_to(Route::Page, lines, events, None, now).status == "404 Not Found"@,
        answer_to(Route::Page, lines, events, None, now).content_type == "text/plain"@,
        answer_to(Route::Page, lines, events, None, now).body
            == "Dashboard UI not found: place the dashboard bundle at ./static/index.html"@,
        r == Route::Stats || r == Route::Tasks || r == Route::Progress ==> answer_to(
            r,
            lines,
            events,
            page,
            now,
        ).status == "200 OK"@ && answer_to(r, lines, events, page, now).content_type
            == "application/json"@,
        answer_to(Route::Unknown, lines, events, page, now) == (ResponseView {
            status: "404 Not Found"@,
            content_type: "text/plain"@,
            body: "Not Found"@,
        }),
        answer_to(Route::NotAllowed, lines, events, page, now) == (ResponseView {
            status: "405 Method Not Allowed"@,
            content_type: "text/plain"@,
            body: "Method Not Allowed"@,
        }),
{
}

/// An answer goes out with its status and its type, with the length of its body in bytes, and
/// with the body after an empty line.
pub proof fn law_answer_goes_out_with_its_length(r: ResponseView)
    ensures
        wire_text(r) == "HTTP/1.1 "@ + r.status + "\r\nContent-Type: "@ + r.content_type
            + "\r\nAccess-Control-Allow-Origin: *\r\nContent-Length: "@ + crate::text::decimal(
            vstd::utf8::encode_utf8(r.body).len(),
        ) + "\r\nConnection: close\r\n\r\n"@ + r.body,
        wire_text(r).skip(wire_text(r).len() - r.body.len()) == r.body,
{
    let head = "HTTP/1.1 "@ + r.status + "\r\nContent-Type: "@ + r.content_type
        + "\r\nAccess-Control-Allow-Origin: *\r\nContent-Length: "@ + crate::text::decimal(
        vstd::utf8::encode_utf8(r.body).len(),
    ) + "\r\nConnection: close\r\n\r\n"@;
    assert(wire_text(r) == head + r.body);
    assert((head + r.body).skip(head.len() as int) =~= r.body);
}

/// What an answer is said to hold is what its fields hold.
pub proof fn law_answer_is_what_its_fields_hold(r: Response)
    ensures
        r@.status == r.status@,
        r@.content_type == r.content_type@,
        r@.body == r.body@,
{
}

} // verus!
