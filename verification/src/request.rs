//! The request line: `METHOD SP PATH SP VERSION`.

use crate::segments::{split, split_text};
use vstd::prelude::*;

verus! {

/// The separator of the parts of a request line.
pub const SPACE: char = ' ';

/// The three parts of a request line. Method and version are carried along
/// and never checked.
#[derive(Debug)]
pub struct RequestLine {
    pub method: String,
    pub path: String,
    pub version: String,
}

/// Cuts a request line at its spaces. The line is well formed exactly when
/// that gives three parts; nothing else is asked of them.
pub fn parse_request_line(line: &str) -> (parsed: Option<RequestLine>)
    ensures
        match parsed {
            Some(request) => split(line@, SPACE) == seq![
                request.method@,
                request.path@,
                request.version@,
            ],
            None => split(line@, SPACE).len() != 3,
        },
{
    let mut parts = split_text(line, SPACE);
    if parts.len() != 3 {
        return None;
    }
    let ghost all = parts@;
    let version = parts.pop().unwrap();
    let path = parts.pop().unwrap();
    let method = parts.pop().unwrap();
    assert(split(line@, SPACE) =~= seq![method@, path@, version@]) by {
        assert(method == all[0] && path == all[1] && version == all[2]);
    }
    Some(RequestLine { method, path, version })
}

} // verus!
