//! Request classification and response formatting for the one supported
//! route. A request is the route exactly when its first line — the bytes
//! before the first CR LF, or the whole request when none occurs — is
//! exactly the fixed request line `GET / HTTP/1.1`; everything else,
//! malformed input included, is answered with the not-found page. A response
//! is the status line, a blank line, and the body.
use vstd::prelude::*;
use vstd::string::*;

verus! {

/// The bytes of the fixed request line `GET / HTTP/1.1`.
pub open spec fn route_bytes() -> Seq<u8> {
    seq![
        71u8,
        69u8,
        84u8,
        32u8,
        47u8,
        32u8,
        72u8,
        84u8,
        84u8,
        80u8,
        47u8,
        49u8,
        46u8,
        49u8,
    ]
}

/// The request's first line: the bytes before the first CR LF pair, or the
/// whole request when none occurs.
pub open spec fn first_line_spec(buffer: Seq<u8>) -> Seq<u8>
    decreases buffer.len(),
{
    if buffer.len() < 2 {
        buffer
    } else if buffer[0] == 13 && buffer[1] == 10 {
        Seq::<u8>::empty()
    } else {
        seq![buffer[0]] + first_line_spec(buffer.drop_first())
    }
}

/// Whether the request's first line is exactly the route's request line.
pub open spec fn is_root_request_spec(buffer: Seq<u8>) -> bool {
    first_line_spec(buffer) == route_bytes()
}

/// The first line reaches from the front of the request to `e`, when no
/// CR LF pair starts before `e` and one starts at `e` unless `e` is the end.
proof fn lemma_first_line_up_to(buffer: Seq<u8>, e: int)
    requires
        0 <= e <= buffer.len(),
        forall|k: int|
            0 <= k < e ==> !(k + 1 < buffer.len() && #[trigger] buffer[k] == 13 && buffer[k + 1]
                == 10),
        e < buffer.len() ==> e + 1 < buffer.len() && buffer[e] == 13 && buffer[e + 1] == 10,
    ensures
        first_line_spec(buffer) == buffer.subrange(0, e),
    decreases buffer.len(),
{
    if buffer.len() < 2 {
        assert(e == buffer.len());
        assert(buffer.subrange(0, e) =~= buffer);
    } else if buffer[0] == 13 && buffer[1] == 10 {
        assert(e == 0);
        assert(buffer.subrange(0, 0) =~= Seq::<u8>::empty());
    } else {
        assert(e >= 1);
        let rest = buffer.drop_first();
        assert(forall|i: int| 0 <= i < rest.len() ==> rest[i] == buffer[i + 1]);
        lemma_first_line_up_to(rest, e - 1);
        assert(seq![buffer[0]] + rest.subrange(0, e - 1) =~= buffer.subrange(0, e));
    }
}

/// The route's request line, as the bytes a client sends.
pub fn route_line() -> (r: Vec<u8>)
    ensures
        r@ == route_bytes(),
{
    let mut r: Vec<u8> = Vec::new();
    r.push(71u8);
    r.push(69u8);
    r.push(84u8);
    r.push(32u8);
    r.push(47u8);
    r.push(32u8);
    r.push(72u8);
    r.push(84u8);
    r.push(84u8);
    r.push(80u8);
    r.push(47u8);
    r.push(49u8);
    r.push(46u8);
    r.push(49u8);
    proof {
        assert(r@ =~= route_bytes());
    }
    r
}

/// Decides whether the request asks for the one supported route: its first
/// line must be exactly the route's request line.
pub fn is_root_request(buffer: &[u8]) -> (r: bool)
    ensures
        r == is_root_request_spec(buffer@),
{
    let n = buffer.len();
    // find where the first line ends: at the first CR LF pair, or at the end
    let mut end: usize = 0;
    while n - end > 1 && !(buffer[end] == 13 && buffer[end + 1] == 10)
        invariant
            n == buffer@.len(),
            end <= n,
            forall|k: int|
                0 <= k < end ==> !(k + 1 < buffer@.len() && #[trigger] buffer@[k] == 13
                    && buffer@[k + 1] == 10),
        decreases n - end,
    {
        end = end + 1;
    }
    let line_end = if n - end > 1 {
        end
    } else {
        n
    };
    proof {
        lemma_first_line_up_to(buffer@, line_end as int);
    }
    let route = route_line();
    if line_end != route.len() {
        proof {
            assert(first_line_spec(buffer@).len() != route_bytes().len());
        }
        return false;
    }
    let mut i: usize = 0;
    while i < line_end
        invariant
            route@ == route_bytes(),
            line_end == route@.len(),
            line_end <= buffer@.len(),
            i <= line_end,
            first_line_spec(buffer@) == buffer@.subrange(0, line_end as int),
            forall|k: int| 0 <= k < i ==> buffer@[k] == route@[k],
        decreases line_end - i,
    {
        if buffer[i] != route[i] {
            proof {
                assert(first_line_spec(buffer@)[i as int] != route_bytes()[i as int]);
            }
            return false;
        }
        i = i + 1;
    }
    proof {
        assert(first_line_spec(buffer@) =~= route_bytes());
    }
    true
}

/// The characters a response carries: the status line, the blank line, and
/// the body.
pub open spec fn response_spec(status: Seq<char>, body: Seq<char>) -> Seq<char> {
    status + "\r\n\r\n"@ + body
}

pub open spec fn ok_status() -> Seq<char> {
    "HTTP/1.1 200 OK"@
}

pub open spec fn not_found_status() -> Seq<char> {
    "HTTP/1.1 404 NOT FOUND"@
}

/// Formats one response: the status line, a blank line, and the body.
pub fn build_response(status: &str, body: &str) -> (r: String)
    ensures
        r@ == response_spec(status@, body@),
{
    let mut r = String::from_str(status);
    r.append("\r\n\r\n");
    r.append(body);
    proof {
        assert(r@ =~= response_spec(status@, body@));
    }
    r
}

/// Answers one request: the supported route gets the rendered page under the
/// success status line; anything else gets the not-found body under the
/// not-found status line.
pub fn handle_request(buffer: &[u8], rendered: &str, not_found: &str) -> (r: String)
    ensures
        is_root_request_spec(buffer@) ==> r@ == response_spec(ok_status(), rendered@),
        !is_root_request_spec(buffer@) ==> r@ == response_spec(not_found_status(), not_found@),
{
    if is_root_request(buffer) {
        build_response("HTTP/1.1 200 OK", rendered)
    } else {
        build_response("HTTP/1.1 404 NOT FOUND", not_found)
    }
}

} // verus!
