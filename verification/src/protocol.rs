//! The request handler and response framing: one parsed request line becomes
//! one store operation, a status and a body, and a response is framed as a
//! status line, a content-length header, a blank line and the body.

use vstd::prelude::*;

use crate::store::{
    delete_entries, map_of_entries, put_entries, Entry, KvStore,
};
use crate::text::{spec_split, spec_tokens, split_on, str_eq, tokens_of};

verus! {

/// The status tag of a handled request.
#[derive(Clone, Copy, PartialEq, Eq, Structural, Debug)]
pub enum Status {
    Success,
    BadRequest,
}

impl Status {
    /// The wire status line for this status.
    pub open spec fn spec_status_line(self) -> Seq<char> {
        match self {
            Status::Success => "HTTP/1.1 200 OK"@,
            Status::BadRequest => "HTTP/1.1 400 BAD REQUEST"@,
        }
    }

    /// The wire status line for this status.
    pub fn status_line(&self) -> (r: &'static str)
        ensures
            r@ == self.spec_status_line(),
    {
        match self {
            Status::Success => "HTTP/1.1 200 OK",
            Status::BadRequest => "HTTP/1.1 400 BAD REQUEST",
        }
    }
}

/// The outcome of one handled request: a status tag and a body.
pub struct HttpResponse {
    pub status: Status,
    pub body: String,
}

/// One line of the "list everything" body.
pub open spec fn entry_line(e: (Seq<char>, Seq<char>)) -> Seq<char> {
    e.0 + ": "@ + e.1
}

/// The "list everything" body: one `key: value` line per entry, in entry
/// order, joined by newlines.
pub open spec fn spec_list_body(s: Seq<(Seq<char>, Seq<char>)>) -> Seq<char>
    decreases s.len(),
{
    if s.len() == 0 {
        Seq::empty()
    } else if s.len() == 1 {
        entry_line(s[0])
    } else {
        spec_list_body(s.drop_last()) + "\n"@ + entry_line(s.last())
    }
}

/// Renders the listing body for the given entries.
pub fn list_body(entries: &Vec<Entry>) -> (r: String)
    ensures
        r@ == spec_list_body(entries.deep_view()),
{
    let ghost s = entries.deep_view();
    let mut out = String::new();
    let mut i: usize = 0;
    while i < entries.len()
        invariant
            i <= entries.len(),
            s == entries.deep_view(),
            s.len() == entries.len(),
            out@ == spec_list_body(s.take(i as int)),
        decreases entries.len() - i,
    {
        proof {
            assert(s[i as int] == (entries[i as int].key@, entries[i as int].value@));
        }
        if i > 0 {
            out.append("\n");
        }
        out.append(entries[i].key.as_str());
        out.append(": ");
        out.append(entries[i].value.as_str());
        proof {
            assert(s.take(i as int + 1).drop_last() =~= s.take(i as int));
            assert(s.take(i as int + 1).last() == s[i as int]);
            assert(out@ =~= spec_list_body(s.take(i as int + 1)));
        }
        i = i + 1;
    }
    proof {
        assert(s.take(entries.len() as int) =~= s);
    }
    out
}

/// What handling a request does: given the method, the path and the entries,
/// the status, the body and the entries afterwards.
///
/// `GET /` lists everything; `GET /<key>` and `DELETE /<key>` look the key
/// up; `PUT`/`POST` `/<key>/<value>` upserts when the payload splits into
/// exactly two non-empty segments. An empty payload and an unrecognized
/// method are client errors, and so is an absent key on `GET` or `DELETE`.
pub open spec fn spec_handle(
    method: Seq<char>,
    path: Seq<char>,
    s: Seq<(Seq<char>, Seq<char>)>,
) -> (Status, Seq<char>, Seq<(Seq<char>, Seq<char>)>) {
    if method == "GET"@ {
        if path.len() == 0 {
            (Status::BadRequest, "Bad request"@, s)
        } else {
            let key = path.subrange(1, path.len() as int);
            if key.len() == 0 {
                (Status::Success, spec_list_body(s), s)
            } else if map_of_entries(s).contains_key(key) {
                (Status::Success, map_of_entries(s)[key], s)
            } else {
                (Status::BadRequest, "Key not found"@, s)
            }
        }
    } else if method == "DELETE"@ {
        if path.len() == 0 {
            (Status::BadRequest, "Bad request"@, s)
        } else {
            let key = path.subrange(1, path.len() as int);
            if map_of_entries(s).contains_key(key) {
                (Status::Success, "Key "@ + key + " removed from store"@, delete_entries(s, key))
            } else {
                (Status::BadRequest, "Key not found"@, s)
            }
        }
    } else if method == "PUT"@ || method == "POST"@ {
        let parts = spec_split(path, '/');
        if parts.len() == 3 && parts[1].len() > 0 && parts[2].len() > 0 {
            (Status::Success, Seq::empty(), put_entries(s, parts[1], parts[2]))
        } else {
            (Status::BadRequest, "Two params required for POST request"@, s)
        }
    } else {
        (Status::BadRequest, "Method not allowed"@, s)
    }
}

/// Handles one parsed request against the store: performs the one store
/// operation the method implies and produces the status and body.
pub fn handle_request(method: &str, path: &str, store: &mut KvStore) -> (r: HttpResponse)
    requires
        old(store).wf(),
    ensures
        final(store).wf(),
        ({
            let (st, body, s2) = spec_handle(method@, path@, old(store).entries());
            r.status == st && r.body@ == body && final(store).entries() == s2
        }),
{
    if str_eq(method, "GET") {
        let n = path.unicode_len();
        if n == 0 {
            HttpResponse { status: Status::BadRequest, body: "Bad request".to_owned() }
        } else if n == 1 {
            let snap = store.snapshot_all();
            let body = list_body(&snap);
            proof {
                assert(path@.subrange(1, path@.len() as int).len() == 0);
            }
            HttpResponse { status: Status::Success, body }
        } else {
            let key = path.substring_char(1, n);
            match store.get(key) {
                Some(v) => HttpResponse { status: Status::Success, body: v },
                None => HttpResponse {
                    status: Status::BadRequest,
                    body: "Key not found".to_owned(),
                },
            }
        }
    } else if str_eq(method, "DELETE") {
        let n = path.unicode_len();
        if n == 0 {
            HttpResponse { status: Status::BadRequest, body: "Bad request".to_owned() }
        } else {
            let key = path.substring_char(1, n);
            proof {
                crate::store::lemma_delete_entries(store.entries(), key@);
            }
            if store.delete(key) {
                let mut body = "Key ".to_owned();
                body.append(key);
                body.append(" removed from store");
                HttpResponse { status: Status::Success, body }
            } else {
                HttpResponse {
                    status: Status::BadRequest,
                    body: "Key not found".to_owned(),
                }
            }
        }
    } else if str_eq(method, "PUT") || str_eq(method, "POST") {
        let parts = split_on(path, '/');
        if parts.len() == 3 && !parts[1].as_str().is_empty() && !parts[2].as_str().is_empty() {
            store.put(parts[1].clone(), parts[2].clone());
            HttpResponse { status: Status::Success, body: String::new() }
        } else {
            HttpResponse {
                status: Status::BadRequest,
                body: "Two params required for POST request".to_owned(),
            }
        }
    } else {
        HttpResponse { status: Status::BadRequest, body: "Method not allowed".to_owned() }
    }
}

/// The method, path and version of a request line: its first three
/// whitespace-separated tokens, if it has that many. Runs of whitespace
/// count once, so no token is ever empty.
pub open spec fn spec_parse_request(s: Seq<char>) -> Option<(Seq<char>, Seq<char>, Seq<char>)> {
    let toks = spec_tokens(s);
    if toks.len() >= 3 {
        Some((toks[0], toks[1], toks[2]))
    } else {
        None
    }
}

/// Parses a request line into method, path and version; a line with fewer
/// than three whitespace-separated tokens is malformed.
pub fn parse_request(request: &str) -> (r: Option<(String, String, String)>)
    ensures
        match r {
            Some(t) => spec_parse_request(request@) == Some((t.0@, t.1@, t.2@)),
            None => spec_parse_request(request@) is None,
        },
{
    let toks = tokens_of(request);
    if toks.len() >= 3 {
        Some((toks[0].clone(), toks[1].clone(), toks[2].clone()))
    } else {
        None
    }
}

/// The character for one decimal digit.
pub open spec fn digit_char(d: nat) -> char {
    if d == 0 {
        '0'
    } else if d == 1 {
        '1'
    } else if d == 2 {
        '2'
    } else if d == 3 {
        '3'
    } else if d == 4 {
        '4'
    } else if d == 5 {
        '5'
    } else if d == 6 {
        '6'
    } else if d == 7 {
        '7'
    } else if d == 8 {
        '8'
    } else {
        '9'
    }
}

/// The decimal rendering of `n`, most significant digit first.
pub open spec fn spec_digits(n: nat) -> Seq<char>
    decreases n,
{
    if n < 10 {
        seq![digit_char(n)]
    } else {
        spec_digits(n / 10).push(digit_char(n % 10))
    }
}

/// The one-character string for a decimal digit.
fn digit_str(d: usize) -> (r: &'static str)
    requires
        d < 10,
    ensures
        r@ == seq![digit_char(d as nat)],
{
    if d == 0 {
        proof {
            reveal_strlit("0");
            assert("0"@ =~= seq![digit_char(0)]);
        }
        "0"
    } else if d == 1 {
        proof {
            reveal_strlit("1");
            assert("1"@ =~= seq![digit_char(1)]);
        }
        "1"
    } else if d == 2 {
        proof {
            reveal_strlit("2");
            assert("2"@ =~= seq![digit_char(2)]);
        }
        "2"
    } else if d == 3 {
        proof {
            reveal_strlit("3");
            assert("3"@ =~= seq![digit_char(3)]);
        }
        "3"
    } else if d == 4 {
        proof {
            reveal_strlit("4");
            assert("4"@ =~= seq![digit_char(4)]);
        }
        "4"
    } else if d == 5 {
        proof {
            reveal_strlit("5");
            assert("5"@ =~= seq![digit_char(5)]);
        }
        "5"
    } else if d == 6 {
        proof {
            reveal_strlit("6");
            assert("6"@ =~= seq![digit_char(6)]);
        }
        "6"
    } else if d == 7 {
        proof {
            reveal_strlit("7");
            assert("7"@ =~= seq![digit_char(7)]);
        }
        "7"
    } else if d == 8 {
        proof {
            reveal_strlit("8");
            assert("8"@ =~= seq![digit_char(8)]);
        }
        "8"
    } else {
        proof {
            reveal_strlit("9");
            assert("9"@ =~= seq![digit_char(9)]);
        }
        "9"
    }
}

/// Renders `n` in decimal.
pub fn usize_to_string(n: usize) -> (r: String)
    ensures
        r@ == spec_digits(n as nat),
    decreases n,
{
    if n < 10 {
        digit_str(n).to_owned()
    } else {
        let mut s = usize_to_string(n / 10);
        s.append(digit_str(n % 10));
        proof {
            assert(s@ =~= spec_digits(n as nat));
        }
        s
    }
}

/// The full wire response for a handled request: the status line, a
/// content-length header holding the byte length of the body, a blank line,
/// and the body.
pub open spec fn spec_response(status: Status, body: Seq<char>) -> Seq<char> {
    status.spec_status_line() + "\r\nContent-Length: "@ + spec_digits(spec_body_len(body))
        + "\r\n\r\n"@ + body
}

/// The UTF-8 byte count of a body, as `str::len` reports it.
pub open spec fn spec_body_len(body: Seq<char>) -> nat {
    (vstd::utf8::encode_utf8(body).len() as usize) as nat
}

/// Frames a response for the wire.
pub fn format_response(resp: &HttpResponse) -> (r: String)
    ensures
        r@ == spec_response(resp.status, resp.body@),
{
    let mut out = resp.status.status_line().to_owned();
    out.append("\r\nContent-Length: ");
    let len_str = usize_to_string(resp.body.as_str().len());
    out.append(len_str.as_str());
    out.append("\r\n\r\n");
    out.append(resp.body.as_str());
    proof {
        assert(out@ =~= spec_response(resp.status, resp.body@));
    }
    out
}

} // verus!
