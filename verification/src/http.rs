//! The request/response rules of the small page server: take the first
//! line of what a client sent, split it into whitespace-separated words,
//! and either close the connection or answer with one of three fixed
//! pages (or a not-found page) behind a minimal response header. Reading
//! from and writing to the socket happen outside the library; this module
//! decides, for one received message, what goes back.

use vstd::prelude::*;
use vstd::string::*;
use vstd::utf8::encode_utf8;

verus! {

/// The whitespace that separates the words of a request line.
pub open spec fn is_ws(c: char) -> bool {
    c == ' ' || c == '\t' || c == '\n' || c == '\r' || c == '\u{B}' || c == '\u{C}'
}

/// The position of the first line feed at or after `i`, or the end.
pub open spec fn line_break(s: Seq<char>, i: int) -> int
    decreases s.len() - i,
{
    if i < 0 || i >= s.len() {
        i
    } else if s[i] == '\n' {
        i
    } else {
        line_break(s, i + 1)
    }
}

/// The first line of a message: everything before the first line feed,
/// less one carriage return directly in front of that line feed.
pub open spec fn spec_first_line(s: Seq<char>) -> Seq<char> {
    let e = line_break(s, 0);
    if e < s.len() && e > 0 && s[e - 1] == '\r' {
        s.subrange(0, e - 1)
    } else {
        s.subrange(0, e)
    }
}

/// The end of the run of non-whitespace starting at `i`.
pub open spec fn tok_end(s: Seq<char>, i: int) -> int
    decreases s.len() - i,
{
    if i < 0 || i >= s.len() {
        i
    } else if is_ws(s[i]) {
        i
    } else {
        tok_end(s, i + 1)
    }
}

proof fn lemma_tok_end_bounds(s: Seq<char>, i: int)
    requires
        0 <= i <= s.len(),
    ensures
        i <= tok_end(s, i) <= s.len(),
    decreases s.len() - i,
{
    if i < s.len() && !is_ws(s[i]) {
        lemma_tok_end_bounds(s, i + 1);
    }
}

/// The whitespace-separated words of `s` from position `i` on.
pub open spec fn tokens_from(s: Seq<char>, i: int) -> Seq<Seq<char>>
    decreases s.len() - i,
        via tokens_from_decreases
{
    if i < 0 || i >= s.len() {
        Seq::empty()
    } else if is_ws(s[i]) {
        tokens_from(s, i + 1)
    } else {
        seq![s.subrange(i, tok_end(s, i))] + tokens_from(s, tok_end(s, i))
    }
}

#[via_fn]
proof fn tokens_from_decreases(s: Seq<char>, i: int) {
    if 0 <= i < s.len() && !is_ws(s[i]) {
        lemma_tok_end_bounds(s, i + 1);
    }
}

/// The whitespace-separated words of a request line, in order.
pub open spec fn tokens(s: Seq<char>) -> Seq<Seq<char>> {
    tokens_from(s, 0)
}

/// The body served for a path: one of three fixed pages, or the
/// not-found page for anything else.
pub open spec fn page_body(path: Seq<char>) -> Seq<char> {
    if path == "/"@ {
        "<html><body><h1>Hovedside</h1><p>Velkommen!</p><a href=\"/page1\">Page 1</a><br><a href=\"/page2\">Page 2</a></body></html>"@
    } else if path == "/page1"@ {
        "<html><body><h1>Side 1</h1><p>Dette er page1</p></body></html>"@
    } else if path == "/page2"@ {
        "<html><body><h1>Side 2</h1><p>Dette er page2</p></body></html>"@
    } else {
        "<html><body><h1>404</h1><p>Siden finnes ikke</p></body></html>"@
    }
}

/// The status line for a path: OK for the three known pages, not found
/// for the rest.
pub open spec fn status_of(path: Seq<char>) -> Seq<char> {
    if path == "/"@ || path == "/page1"@ || path == "/page2"@ {
        "HTTP/1.1 200 OK"@
    } else {
        "HTTP/1.1 404 Not Found"@
    }
}

/// The decimal digit for a value below ten.
pub open spec fn digit_char(d: int) -> char {
    if d == 0 {
        '0'
    } else if d == 1 {
        '1'
    } else if d == 2 {
        '2'
    } else if d == 3 {
        '3'
    } else if d == 4 {
        '4'
    } else if d == 5 {
        '5'
    } else if d == 6 {
        '6'
    } else if d == 7 {
        '7'
    } else if d == 8 {
        '8'
    } else {
        '9'
    }
}

/// The decimal digits of a positive number, most significant first.
pub open spec fn digits_of(n: int) -> Seq<char>
    decreases n,
{
    if n <= 0 {
        Seq::empty()
    } else {
        digits_of(n / 10).push(digit_char(n % 10))
    }
}

/// A number written in decimal, as a caller would read it.
pub open spec fn dec_of(n: int) -> Seq<char> {
    if n == 0 {
        seq!['0']
    } else {
        digits_of(n)
    }
}

/// The full response for a status line and a body whose byte length is
/// `body_len`: the header names the content type and the byte length,
/// then a blank line, then the body.
pub open spec fn response_text(status: Seq<char>, body: Seq<char>, body_len: int) -> Seq<char> {
    status + "\r\nContent-Type: text/html; charset=utf-8\r\nContent-Length: "@ + dec_of(body_len)
        + "\r\n\r\n"@ + body
}

/// What goes back for one received message: nothing (close the
/// connection) for an empty message, a request line of fewer than three
/// words, or the exit word; otherwise the page the second word names.
pub open spec fn response_of(msg: Seq<char>) -> Option<Seq<char>> {
    if msg.len() == 0 {
        None
    } else {
        let line = spec_first_line(msg);
        let ts = tokens(line);
        if ts.len() < 3 {
            None
        } else if line == "exit"@ {
            None
        } else {
            Some(
                response_text(
                    status_of(ts[1]),
                    page_body(ts[1]),
                    (encode_utf8(page_body(ts[1])).len() as usize) as int,
                ),
            )
        }
    }
}

/// One decimal digit as text.
fn digit_str(d: usize) -> (r: &'static str)
    requires
        d < 10,
    ensures
        r@ =~= seq![digit_char(d as int)],
{
    proof {
        reveal_strlit("0");
        reveal_strlit("1");
        reveal_strlit("2");
        reveal_strlit("3");
        reveal_strlit("4");
        reveal_strlit("5");
        reveal_strlit("6");
        reveal_strlit("7");
        reveal_strlit("8");
        reveal_strlit("9");
    }
    if d == 0 {
        "0"
    } else if d == 1 {
        "1"
    } else if d == 2 {
        "2"
    } else if d == 3 {
        "3"
    } else if d == 4 {
        "4"
    } else if d == 5 {
        "5"
    } else if d == 6 {
        "6"
    } else if d == 7 {
        "7"
    } else if d == 8 {
        "8"
    } else {
        "9"
    }
}

/// Writes the digits of a positive number onto `out`.
fn append_digits(out: &mut String, n: usize)
    requires
        n > 0,
    ensures
        final(out)@ == old(out)@ + digits_of(n as int),
    decreases n,
{
    if n >= 10 {
        append_digits(out, n / 10);
    }
    let d = n % 10;
    out.append(digit_str(d));
    proof {
        if n < 10 {
            assert(digits_of((n as int) / 10) =~= Seq::<char>::empty());
            assert(digits_of(n as int) =~= Seq::<char>::empty().push(digit_char(n as int % 10)));
        }
        assert(final(out)@ =~= old(out)@ + digits_of(n as int));
    }
}

/// Writes a number in decimal onto `out`.
fn append_decimal(out: &mut String, n: usize)
    ensures
        final(out)@ == old(out)@ + dec_of(n as int),
{
    if n == 0 {
        proof {
            reveal_strlit("0");
        }
        out.append("0");
        proof {
            assert(final(out)@ =~= old(out)@ + dec_of(0));
        }
    } else {
        append_digits(out, n);
    }
}

/// Puts together the response for a chosen status line and body.
pub fn build_response(status: &str, body: &str) -> (r: String)
    ensures
        r@ == response_text(status@, body@, (encode_utf8(body@).len() as usize) as int),
{
    let mut r = String::from_str(status);
    r.append("\r\nContent-Type: text/html; charset=utf-8\r\nContent-Length: ");
    append_decimal(&mut r, body.len());
    r.append("\r\n\r\n");
    r.append(body);
    proof {
        assert(r@ =~= response_text(status@, body@, (encode_utf8(body@).len() as usize) as int));
    }
    r
}

/// Whether a character separates words.
fn is_ws_char(c: char) -> (r: bool)
    ensures
        r == is_ws(c),
{
    c == ' ' || c == '\t' || c == '\n' || c == '\r' || c == '\u{B}' || c == '\u{C}'
}

/// Character-for-character equality of two pieces of text.
fn str_eq(a: &str, b: &str) -> (r: bool)
    ensures
        r == (a@ == b@),
{
    let na = a.unicode_len();
    let nb = b.unicode_len();
    if na != nb {
        proof {
            if a@ == b@ {
                assert(a@.len() == b@.len());
            }
        }
        return false;
    }
    let mut k: usize = 0;
    while k < na
        invariant
            k <= na,
            na == a@.len(),
            nb == b@.len(),
            na == nb,
            forall|t: int| 0 <= t < k ==> a@[t] == b@[t],
        decreases na - k,
    {
        if a.get_char(k) != b.get_char(k) {
            return false;
        }
        k = k + 1;
    }
    proof {
        assert(a@ =~= b@);
    }
    true
}

/// The first line of a message, as `lines` would hand it out.
fn first_line<'a>(msg: &'a str) -> (line: &'a str)
    ensures
        line@ == spec_first_line(msg@),
{
    let n = msg.unicode_len();
    let mut e: usize = 0;
    loop
        invariant
            e <= n,
            n == msg@.len(),
            line_break(msg@, 0) == line_break(msg@, e as int),
        ensures
            e <= n,
            n == msg@.len(),
            line_break(msg@, 0) == e as int,
        decreases n - e,
    {
        if e >= n {
            break ;
        }
        if msg.get_char(e) == '\n' {
            break ;
        }
        e = e + 1;
    }
    let cut: usize = if e < n && e > 0 {
        if msg.get_char(e - 1) == '\r' {
            e - 1
        } else {
            e
        }
    } else {
        e
    };
    msg.substring_char(0, cut)
}

/// Finds the bounds of the second word of a line that has at least three
/// words; reports the lack where the line has fewer.
fn second_token(line: &str) -> (r: Option<(usize, usize)>)
    ensures
        r is Some <==> tokens(line@).len() >= 3,
        r matches Some(be) ==> be.0 <= be.1 <= line@.len() && line@.subrange(
            be.0 as int,
            be.1 as int,
        ) == tokens(line@)[1],
{
    let n = line.unicode_len();
    let mut i: usize = 0;
    let mut count: usize = 0;
    let mut b1: usize = 0;
    let mut e1: usize = 0;
    let ghost mut found: Seq<Seq<char>> = Seq::empty();
    proof {
        assert(found + tokens_from(line@, 0) =~= tokens_from(line@, 0));
    }
    loop
        invariant
            i <= n,
            n == line@.len(),
            count == found.len(),
            count <= 3,
            tokens(line@) == found + tokens_from(line@, i as int),
            count >= 2 ==> b1 <= e1 <= n && found[1] == line@.subrange(b1 as int, e1 as int),
        ensures
            count <= 3,
            count == 3 ==> tokens(line@).len() >= 3 && b1 <= e1 <= n && tokens(line@)[1]
                == line@.subrange(b1 as int, e1 as int),
            count < 3 ==> tokens(line@).len() < 3,
        decreases n - i + (4 - count),
    {
        if count >= 3 {
            proof {
                assert(tokens(line@).len() >= 3);
                assert(tokens(line@)[1] == found[1]);
            }
            break ;
        }
        if i >= n {
            proof {
                assert(tokens_from(line@, i as int) =~= Seq::<Seq<char>>::empty());
                assert(tokens(line@) =~= found);
            }
            break ;
        }
        let c = line.get_char(i);
        if is_ws_char(c) {
            proof {
                assert(tokens_from(line@, i as int) == tokens_from(line@, i + 1));
            }
            i = i + 1;
        } else {
            let start = i;
            proof {
                assert(tok_end(line@, start as int) == tok_end(line@, start + 1));
            }
            let mut j = i + 1;
            loop
                invariant
                    start < j <= n,
                    n == line@.len(),
                    tok_end(line@, start as int) == tok_end(line@, j as int),
                ensures
                    start < j <= n,
                    tok_end(line@, start as int) == j as int,
                decreases n - j,
            {
                if j >= n {
                    break ;
                }
                if is_ws_char(line.get_char(j)) {
                    break ;
                }
                proof {
                    assert(tok_end(line@, j as int) == tok_end(line@, j + 1));
                }
                j = j + 1;
            }
            let ghost tok = line@.subrange(start as int, j as int);
            proof {
                assert(tokens_from(line@, start as int) == seq![tok] + tokens_from(
                    line@,
                    j as int,
                ));
                let found0 = found;
                found = found.push(tok);
                assert(found0 + (seq![tok] + tokens_from(line@, j as int)) =~= found
                    + tokens_from(line@, j as int));
            }
            if count == 1 {
                b1 = start;
                e1 = j;
            }
            count = count + 1;
            i = j;
        }
    }
    if count == 3 {
        Some((b1, e1))
    } else {
        None
    }
}

/// The answer to one received message: the response to write back, or
/// nothing when the connection is to be closed. A message answers with a
/// page exactly when its first line has at least three words and is not
/// the exit word; the page and the status are chosen by the second word.
pub fn handle_message(msg: &str) -> (r: Option<String>)
    ensures
        r is Some <==> response_of(msg@) is Some,
        r matches Some(resp) ==> response_of(msg@) matches Some(text) && resp@ == text,
{
    if msg.unicode_len() == 0 {
        return None;
    }
    let line = first_line(msg);
    match second_token(line) {
        None => None,
        Some((b, e)) => {
            if str_eq(line, "exit") {
                return None;
            }
            let path = line.substring_char(b, e);
            proof {
                assert(path@ == tokens(line@)[1]);
            }
            let status: &str;
            let body: &str;
            if str_eq(path, "/") {
                status = "HTTP/1.1 200 OK";
                body =
                "<html><body><h1>Hovedside</h1><p>Velkommen!</p><a href=\"/page1\">Page 1</a><br><a href=\"/page2\">Page 2</a></body></html>";
            } else if str_eq(path, "/page1") {
                status = "HTTP/1.1 200 OK";
                body = "<html><body><h1>Side 1</h1><p>Dette er page1</p></body></html>";
            } else if str_eq(path, "/page2") {
                status = "HTTP/1.1 200 OK";
                body = "<html><body><h1>Side 2</h1><p>Dette er page2</p></body></html>";
            } else {
                status = "HTTP/1.1 404 Not Found";
                body = "<html><body><h1>404</h1><p>Siden finnes ikke</p></body></html>";
            }
            proof {
                assert(body@ == page_body(path@));
                assert(status@ == status_of(path@));
            }
            let resp = build_response(status, body);
            Some(resp)
        },
    }
}

} // verus!
