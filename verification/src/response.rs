//! The response: a status line, the length of the body, a blank line, the
//! body.

use crate::path_guard::{is_within, resolve};
use vstd::prelude::*;
use vstd::utf8::is_ascii_chars;

verus! {

/// The two outcomes of serving a file.
#[derive(Clone, Copy, Debug, PartialEq, Eq)]
pub enum Status {
    Success,
    NotFound,
}

/// The status line of a response, without line break.
pub open spec fn status_line(status: Status) -> Seq<char> {
    match status {
        Status::Success => "HTTP/1.1 200 OK"@,
        Status::NotFound => "HTTP/1.1 404 NOT FOUND"@,
    }
}

/// The decimal digit of a number below ten.
pub open spec fn digit(d: nat) -> char {
    if d == 0 {
        '0'
    } else if d == 1 {
        '1'
    } else if d == 2 {
        '2'
    } else if d == 3 {
        '3'
    } else if d == 4 {
        '4'
    } else if d == 5 {
        '5'
    } else if d == 6 {
        '6'
    } else if d == 7 {
        '7'
    } else if d == 8 {
        '8'
    } else {
        '9'
    }
}

/// The decimal numeral of `n`, without leading zeros.
pub open spec fn decimal(n: nat) -> Seq<char>
    decreases n,
{
    if n < 10 {
        seq![digit(n)]
    } else {
        decimal(n / 10).push(digit(n % 10))
    }
}

/// Everything of a response that precedes the body, for a body of `length`
/// bytes.
pub open spec fn response_head(status: Status, length: nat) -> Seq<char> {
    status_line(status) + "\r\nContent-Length: "@ + decimal(length) + "\r\n\r\n"@
}

/// The bytes of a text of ASCII characters.
pub open spec fn ascii_bytes(text: Seq<char>) -> Seq<u8> {
    Seq::new(text.len(), |i: int| text[i] as u8)
}

/// The bytes of a response: the head, then the body unchanged.
pub open spec fn response_bytes(status: Status, body: Seq<u8>) -> Seq<u8> {
    ascii_bytes(response_head(status, body.len())) + body
}

/// A decimal numeral holds ASCII characters only.
pub proof fn lemma_decimal_is_ascii(n: nat)
    ensures
        is_ascii_chars(decimal(n)),
        decimal(n).len() >= 1,
    decreases n,
{
    if n >= 10 {
        lemma_decimal_is_ascii(n / 10);
    }
}

/// The head of a response holds ASCII characters only.
pub proof fn lemma_head_is_ascii(status: Status, length: nat)
    ensures
        is_ascii_chars(response_head(status, length)),
{
    reveal_strlit("HTTP/1.1 200 OK");
    reveal_strlit("HTTP/1.1 404 NOT FOUND");
    reveal_strlit("\r\nContent-Length: ");
    reveal_strlit("\r\n\r\n");
    lemma_decimal_is_ascii(length);
    assert(is_ascii_chars(status_line(status)));
    assert(is_ascii_chars("\r\nContent-Length: "@));
    assert(is_ascii_chars("\r\n\r\n"@));
}

impl Status {
    /// The status line, without line break.
    pub fn line(self) -> (line: &'static str)
        ensures
            line@ == status_line(self),
    {
        match self {
            Status::Success => "HTTP/1.1 200 OK",
            Status::NotFound => "HTTP/1.1 404 NOT FOUND",
        }
    }
}

/// The numeral of one digit.
fn digit_text(d: usize) -> (text: &'static str)
    requires
        d < 10,
    ensures
        text@ == seq![digit(d as nat)],
{
    proof {
        reveal_strlit("0");
        reveal_strlit("1");
        reveal_strlit("2");
        reveal_strlit("3");
        reveal_strlit("4");
        reveal_strlit("5");
        reveal_strlit("6");
        reveal_strlit("7");
        reveal_strlit("8");
        reveal_strlit("9");
    }
    let text = if d == 0 {
        "0"
    } else if d == 1 {
        "1"
    } else if d == 2 {
        "2"
    } else if d == 3 {
        "3"
    } else if d == 4 {
        "4"
    } else if d == 5 {
        "5"
    } else if d == 6 {
        "6"
    } else if d == 7 {
        "7"
    } else if d == 8 {
        "8"
    } else {
        "9"
    };
    assert(text@ =~= seq![digit(d as nat)]);
    text
}

/// The decimal numeral of `n`.
pub fn decimal_text(n: usize) -> (text: String)
    ensures
        text@ == decimal(n as nat),
{
    let mut text = digit_text(n % 10).to_owned();
    let mut rest: usize = n / 10;
    while rest > 0
        invariant
            decimal(n as nat) == if rest == 0 {
                text@
            } else {
                decimal(rest as nat) + text@
            },
        decreases rest,
    {
        let mut longer = digit_text(rest % 10).to_owned();
        longer.append(text.as_str());
        proof {
            let d = seq![digit((rest % 10) as nat)];
            if rest >= 10 {
                assert(decimal((rest / 10) as nat).push(digit((rest % 10) as nat)) + text@
                    =~= decimal((rest / 10) as nat) + (d + text@));
            }
        }
        text = longer;
        rest = rest / 10;
    }
    text
}

/// The file served with status 404, relative to the document root.
pub const NOT_FOUND_PAGE: &'static str = "404.html";

/// The file that holds the body of a response.
#[derive(Debug, PartialEq, Eq)]
pub enum BodySource {
    /// The resolved file that the request named.
    Resolved(String),
    /// The page [`NOT_FOUND_PAGE`] of the document root.
    NotFoundPage,
}

/// Chooses status and body for a request whose file resolved to `resolved`
/// (`None` when it does not exist): 200 and that file if it lies within the
/// document root, 404 and the not-found page in every other case.
pub fn select_content(canonical_root: &str, resolved: Option<String>) -> (chosen: (
    Status,
    BodySource,
))
    ensures
        match chosen.1 {
            BodySource::Resolved(path) => {
                &&& chosen.0 == Status::Success
                &&& resolved == Some(path)
                &&& is_within(canonical_root@, path@)
            },
            BodySource::NotFoundPage => {
                &&& chosen.0 == Status::NotFound
                &&& !(resolved matches Some(path) && is_within(canonical_root@, path@))
            },
        },
{
    match resolve(canonical_root, resolved) {
        Ok(path) => (Status::Success, BodySource::Resolved(path)),
        Err(_) => (Status::NotFound, BodySource::NotFoundPage),
    }
}

/// Frames a response: status line, `Content-Length` with the exact number of
/// bytes of the body, a blank line, and the body byte for byte.
pub fn build_response(status: Status, body: &[u8]) -> (response: Vec<u8>)
    ensures
        response@ == response_bytes(status, body@),
{
    let mut head = String::new();
    head.append(status.line());
    head.append("\r\nContent-Length: ");
    head.append(decimal_text(body.len()).as_str());
    head.append("\r\n\r\n");
    assert(head@ =~= response_head(status, body@.len()));
    let text = head.as_str();
    let mut response = text.as_bytes_vec();
    proof {
        lemma_head_is_ascii(status, body@.len());
        vstd::string::is_ascii_spec_bytes(text);
        assert(response@ =~= ascii_bytes(text@));
    }
    response.extend_from_slice(body);
    response
}

} // verus!
