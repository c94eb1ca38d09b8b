use workpool::http::{build_response, handle_message};

const ROOT_BODY: &str = "<html><body><h1>Hovedside</h1><p>Velkommen!</p><a href=\"/page1\">Page 1</a><br><a href=\"/page2\">Page 2</a></body></html>";
const PAGE1_BODY: &str = "<html><body><h1>Side 1</h1><p>Dette er page1</p></body></html>";
const PAGE2_BODY: &str = "<html><body><h1>Side 2</h1><p>Dette er page2</p></body></html>";
const MISSING_BODY: &str = "<html><body><h1>404</h1><p>Siden finnes ikke</p></body></html>";

fn expected(status: &str, body: &str) -> String {
    format!(
        "{}\r\nContent-Type: text/html; charset=utf-8\r\nContent-Length: {}\r\n\r\n{}",
        status,
        body.len(),
        body
    )
}

#[test]
fn empty_message_closes() {
    assert_eq!(handle_message(""), None);
}

#[test]
fn short_request_line_closes() {
    assert_eq!(handle_message("GET /\r\n"), None);
    assert_eq!(handle_message("GET\r\n"), None);
    assert_eq!(handle_message("\r\n"), None);
    assert_eq!(handle_message("   \r\n"), None);
}

#[test]
fn exit_line_closes() {
    assert_eq!(handle_message("exit\r\n"), None);
    assert_eq!(handle_message("exit"), None);
}

#[test]
fn root_page_is_served() {
    let got = handle_message("GET / HTTP/1.1\r\nHost: localhost\r\n\r\n").unwrap();
    assert_eq!(got, expected("HTTP/1.1 200 OK", ROOT_BODY));
}

#[test]
fn named_pages_are_served() {
    let got1 = handle_message("GET /page1 HTTP/1.1\r\n").unwrap();
    assert_eq!(got1, expected("HTTP/1.1 200 OK", PAGE1_BODY));
    let got2 = handle_message("GET /page2 HTTP/1.1\r\n").unwrap();
    assert_eq!(got2, expected("HTTP/1.1 200 OK", PAGE2_BODY));
}

#[test]
fn unknown_path_gets_not_found() {
    let got = handle_message("GET /missing HTTP/1.1\r\n").unwrap();
    assert_eq!(got, expected("HTTP/1.1 404 Not Found", MISSING_BODY));
}

#[test]
fn only_the_first_line_matters() {
    let got = handle_message("GET /page1 HTTP/1.1\r\nGET /page2 HTTP/1.1\r\n").unwrap();
    assert_eq!(got, expected("HTTP/1.1 200 OK", PAGE1_BODY));
}

#[test]
fn extra_whitespace_is_ignored() {
    let got = handle_message("  GET \t /page2   HTTP/1.1  \r\n").unwrap();
    assert_eq!(got, expected("HTTP/1.1 200 OK", PAGE2_BODY));
}

#[test]
fn line_without_line_feed_is_still_a_line() {
    let got = handle_message("GET / HTTP/1.1").unwrap();
    assert_eq!(got, expected("HTTP/1.1 200 OK", ROOT_BODY));
}

#[test]
fn exit_with_three_words_is_a_path_request() {
    let got = handle_message("exit now please\r\n").unwrap();
    assert_eq!(got, expected("HTTP/1.1 404 Not Found", MISSING_BODY));
}

#[test]
fn build_response_counts_bytes() {
    let got = build_response("HTTP/1.1 200 OK", "abc");
    assert_eq!(
        got,
        "HTTP/1.1 200 OK\r\nContent-Type: text/html; charset=utf-8\r\nContent-Length: 3\r\n\r\nabc"
    );
    let empty = build_response("HTTP/1.1 200 OK", "");
    assert_eq!(
        empty,
        "HTTP/1.1 200 OK\r\nContent-Type: text/html; charset=utf-8\r\nContent-Length: 0\r\n\r\n"
    );
}
