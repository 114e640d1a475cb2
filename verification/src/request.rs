//! The request parser.
//!
//! A framed byte buffer is parsed into a structured request: the first
//! line must split into exactly three whitespace-separated tokens whose
//! method is GET or POST up to case; the following lines, up to the first
//! blank line, are `key ":" value` headers; one line after the blank
//! line, if present, is the body placeholder. Anything else is rejected
//! as a bad request, and no partial request is ever exposed.

use vstd::prelude::*;

use crate::ascii;
use crate::ascii::{spec_lower, eq_ignore_case, CR, LF, SP, HTAB, VTAB, FF, COLON};
use crate::errors::LibError;
use crate::headers::{
    spec_find_header, lemma_find_header, lemma_find_header_at, content_length_lower,
    content_length_key,
};
use crate::status;
use crate::status::HttpStatus;

verus! {

/// A parsed request.
#[derive(Debug)]
pub struct Request {
    pub method: Vec<u8>,
    pub req_path: Vec<u8>,
    pub http_ver: Vec<u8>,
    pub header: Vec<RequestData>,
    pub content: Vec<u8>,
}

/// One request header: key and value.
#[derive(Debug)]
pub struct RequestData {
    pub key: Vec<u8>,
    pub value: Vec<u8>,
}

/// The request headers as a sequence of (key, value) byte sequences.
pub open spec fn req_headers_model(h: Seq<RequestData>) -> Seq<(Seq<u8>, Seq<u8>)> {
    h.map_values(|hd: RequestData| (hd.key@, hd.value@))
}

/// A sequence of byte vectors, seen as a sequence of byte sequences.
pub open spec fn bytes_model(v: Seq<Vec<u8>>) -> Seq<Seq<u8>> {
    v.map_values(|x: Vec<u8>| x@)
}

/// ASCII whitespace.
pub open spec fn is_ws(b: u8) -> bool {
    b == SP || b == HTAB || b == CR || b == LF || b == VTAB || b == FF
}

fn is_ws_byte(b: u8) -> (r: bool)
    ensures
        r == is_ws(b),
{
    b == SP || b == HTAB || b == CR || b == LF || b == VTAB || b == FF
}

/// Index of the first occurrence of `b` in `s`, or the length of `s`.
pub open spec fn spec_find_byte(s: Seq<u8>, b: u8) -> int
    decreases s.len(),
{
    if s.len() == 0 {
        0
    } else if s[0] == b {
        0
    } else {
        1 + spec_find_byte(s.skip(1), b)
    }
}

/// Index of the first whitespace byte in `s`, or the length of `s`.
pub open spec fn spec_find_ws(s: Seq<u8>) -> int
    decreases s.len(),
{
    if s.len() == 0 {
        0
    } else if is_ws(s[0]) {
        0
    } else {
        1 + spec_find_ws(s.skip(1))
    }
}

pub proof fn lemma_find_byte_at(s: Seq<u8>, b: u8, p: int)
    requires
        0 <= p <= s.len(),
        forall|j: int| 0 <= j < p ==> s[j] != b,
        p == s.len() || s[p] == b,
    ensures
        spec_find_byte(s, b) == p,
    decreases s.len(),
{
    if s.len() == 0 {
    } else if s[0] == b {
        assert(p == 0);
    } else {
        let ss = s.skip(1);
        assert(forall|j: int| 0 <= j < p - 1 ==> ss[j] == s[j + 1]);
        assert(p >= 1);
        if p < s.len() {
            assert(ss[p - 1] == s[p]);
        }
        lemma_find_byte_at(ss, b, p - 1);
    }
}

proof fn lemma_find_ws_at(s: Seq<u8>, p: int)
    requires
        0 <= p <= s.len(),
        forall|j: int| 0 <= j < p ==> !is_ws(#[trigger] s[j]),
        p == s.len() || is_ws(s[p]),
    ensures
        spec_find_ws(s) == p,
    decreases s.len(),
{
    if s.len() == 0 {
    } else if is_ws(s[0]) {
        assert(p == 0);
    } else {
        let ss = s.skip(1);
        assert(forall|j: int| 0 <= j < p - 1 ==> ss[j] == s[j + 1]);
        assert(p >= 1);
        if p < s.len() {
            assert(ss[p - 1] == s[p]);
        }
        lemma_find_ws_at(ss, p - 1);
    }
}

/// A line as split on LF, with a trailing CR removed.
pub open spec fn strip_cr(s: Seq<u8>) -> Seq<u8> {
    if s.len() > 0 && s.last() == CR {
        s.drop_last()
    } else {
        s
    }
}

/// The lines of `s`: segments split at LF, each with a trailing CR
/// removed; a final segment without a line ending is kept as it stands.
pub open spec fn spec_lines(s: Seq<u8>) -> Seq<Seq<u8>>
    decreases s.len(),
{
    if s.len() == 0 {
        Seq::<Seq<u8>>::empty()
    } else {
        let i = spec_find_byte(s, LF);
        if 0 <= i < s.len() {
            seq![strip_cr(s.take(i))] + spec_lines(s.skip(i + 1))
        } else {
            seq![s]
        }
    }
}

/// The whitespace-separated tokens of `s`, in order, each non-empty.
pub open spec fn spec_tokens(s: Seq<u8>) -> Seq<Seq<u8>>
    decreases s.len(),
{
    if s.len() == 0 {
        Seq::<Seq<u8>>::empty()
    } else if is_ws(s[0]) {
        spec_tokens(s.skip(1))
    } else {
        let i = spec_find_ws(s);
        if 1 <= i <= s.len() {
            seq![s.take(i)] + spec_tokens(s.skip(i))
        } else {
            seq![s]
        }
    }
}

/// `s` without leading whitespace.
pub open spec fn spec_trim_start(s: Seq<u8>) -> Seq<u8>
    decreases s.len(),
{
    if s.len() > 0 && is_ws(s[0]) {
        spec_trim_start(s.skip(1))
    } else {
        s
    }
}

/// `s` without trailing whitespace.
pub open spec fn spec_trim_end(s: Seq<u8>) -> Seq<u8>
    decreases s.len(),
{
    if s.len() > 0 && is_ws(s.last()) {
        spec_trim_end(s.drop_last())
    } else {
        s
    }
}

/// `s` without surrounding whitespace.
pub open spec fn spec_trim(s: Seq<u8>) -> Seq<u8> {
    spec_trim_end(spec_trim_start(s))
}

/// A header line parsed into key and value: the key is everything before
/// the first colon and the value everything after it, trimmed; a line
/// without a colon gives an empty key and the whole line as value.
pub open spec fn spec_parse_header_line(line: Seq<u8>) -> (Seq<u8>, Seq<u8>) {
    let i = spec_find_byte(line, COLON);
    if i < line.len() {
        (line.take(i), spec_trim(line.skip(i + 1)))
    } else {
        (Seq::<u8>::empty(), line)
    }
}

/// The header entries among `ls`: one per line before the first blank
/// line.
pub open spec fn spec_header_entries(ls: Seq<Seq<u8>>) -> Seq<(Seq<u8>, Seq<u8>)>
    decreases ls.len(),
{
    if ls.len() == 0 {
        Seq::<(Seq<u8>, Seq<u8>)>::empty()
    } else if ls[0].len() == 0 {
        Seq::<(Seq<u8>, Seq<u8>)>::empty()
    } else {
        seq![spec_parse_header_line(ls[0])] + spec_header_entries(ls.skip(1))
    }
}

/// The body placeholder among `ls`: the line right after the first blank
/// line, if both exist.
pub open spec fn spec_body(ls: Seq<Seq<u8>>) -> Seq<u8>
    decreases ls.len(),
{
    if ls.len() == 0 {
        Seq::<u8>::empty()
    } else if ls[0].len() == 0 {
        if ls.len() >= 2 {
            ls[1]
        } else {
            Seq::<u8>::empty()
        }
    } else {
        spec_body(ls.skip(1))
    }
}

/// The bytes `get`.
pub open spec fn spec_get() -> Seq<u8> {
    seq![103u8, 101u8, 116u8]
}

/// The bytes `post`.
pub open spec fn spec_post() -> Seq<u8> {
    seq![112u8, 111u8, 115u8, 116u8]
}

/// The method token is GET or POST, up to ASCII case.
pub open spec fn spec_method_supported(tok: Seq<u8>) -> bool {
    spec_lower(tok) == spec_get() || spec_lower(tok) == spec_post()
}

/// A parseable request: the buffer is non-empty, its first line has
/// exactly three whitespace-separated tokens, and the method token is a
/// supported method.
pub open spec fn spec_valid_request(s: Seq<u8>) -> bool {
    let ls = spec_lines(s);
    &&& ls.len() > 0
    &&& spec_tokens(ls[0]).len() == 3
    &&& spec_method_supported(spec_tokens(ls[0])[0])
}

/// Splits a buffer into its lines.
#[verifier::loop_isolation(false)]
pub fn split_lines(v: &[u8]) -> (r: Vec<Vec<u8>>)
    ensures
        bytes_model(r@) == spec_lines(v@),
{
    let mut lines: Vec<Vec<u8>> = Vec::new();
    let mut start: usize = 0;
    let mut i: usize = 0;
    proof {
        assert(v@.skip(0) =~= v@);
        assert(bytes_model(lines@) + spec_lines(v@) =~= spec_lines(v@));
    }
    while i < v.len()
        invariant
            start <= i <= v.len(),
            spec_lines(v@) == bytes_model(lines@) + spec_lines(v@.skip(start as int)),
            forall|t: int| start <= t < i ==> v@[t] != LF,
        decreases v.len() - i,
    {
        if v[i] == LF {
            let ghost ss = v@.skip(start as int);
            proof {
                assert(forall|j: int| 0 <= j < i - start ==> ss[j] == v@[start + j]);
                assert(ss[i - start as int] == v@[i as int]);
                lemma_find_byte_at(ss, LF, i - start as int);
            }
            let line: Vec<u8> = if i > start && v[i - 1] == CR {
                vstd::slice::slice_to_vec(vstd::slice::slice_subrange(v, start, i - 1))
            } else {
                vstd::slice::slice_to_vec(vstd::slice::slice_subrange(v, start, i))
            };
            proof {
                assert(ss.take(i - start as int) =~= v@.subrange(start as int, i as int));
                assert(line@ =~= strip_cr(ss.take(i - start as int)));
                assert(ss.skip(i - start + 1 as int) =~= v@.skip(i + 1 as int));
            }
            let ghost pre = lines@;
            lines.push(line);
            proof {
                assert(bytes_model(lines@) =~= bytes_model(pre).push(line@));
                assert(bytes_model(pre) + spec_lines(ss) =~= bytes_model(lines@) + spec_lines(
                    v@.skip(i + 1 as int),
                ));
            }
            start = i + 1;
        }
        i = i + 1;
    }
    if start < v.len() {
        let ghost ss = v@.skip(start as int);
        proof {
            assert(forall|j: int| 0 <= j < ss.len() ==> ss[j] == v@[start + j]);
            lemma_find_byte_at(ss, LF, ss.len() as int);
        }
        let line = vstd::slice::slice_to_vec(vstd::slice::slice_subrange(v, start, v.len()));
        proof {
            assert(line@ =~= ss);
        }
        let ghost pre = lines@;
        lines.push(line);
        proof {
            assert(bytes_model(lines@) =~= bytes_model(pre).push(line@));
            assert(bytes_model(pre) + spec_lines(ss) =~= bytes_model(lines@));
        }
    } else {
        proof {
            assert(v@.skip(start as int) =~= Seq::<u8>::empty());
            assert(bytes_model(lines@) + spec_lines(v@.skip(start as int)) =~= bytes_model(
                lines@,
            ));
        }
    }
    lines
}

/// Splits a line into its whitespace-separated tokens.
#[verifier::loop_isolation(false)]
pub fn split_tokens(line: &[u8]) -> (r: Vec<Vec<u8>>)
    ensures
        bytes_model(r@) == spec_tokens(line@),
{
    let mut toks: Vec<Vec<u8>> = Vec::new();
    let mut i: usize = 0;
    proof {
        assert(line@.skip(0) =~= line@);
        assert(bytes_model(toks@) + spec_tokens(line@) =~= spec_tokens(line@));
    }
    while i < line.len()
        invariant
            i <= line.len(),
            spec_tokens(line@) == bytes_model(toks@) + spec_tokens(line@.skip(i as int)),
        decreases line.len() - i,
    {
        if is_ws_byte(line[i]) {
            proof {
                assert(line@.skip(i as int)[0] == line@[i as int]);
                assert(line@.skip(i as int).skip(1) =~= line@.skip(i + 1 as int));
            }
            i = i + 1;
        } else {
            let mut j = i + 1;
            while j < line.len() && !is_ws_byte(line[j])
                invariant
                    i < j <= line.len(),
                    forall|t: int| i <= t < j ==> !is_ws(#[trigger] line@[t]),
                decreases line.len() - j,
            {
                j = j + 1;
            }
            let tok = vstd::slice::slice_to_vec(vstd::slice::slice_subrange(line, i, j));
            let ghost ss = line@.skip(i as int);
            proof {
                assert(forall|t: int| 0 <= t < j - i ==> ss[t] == line@[i + t]);
                if j < line.len() {
                    assert(ss[j - i as int] == line@[j as int]);
                }
                lemma_find_ws_at(ss, j - i as int);
                assert(ss.take(j - i as int) =~= line@.subrange(i as int, j as int));
                assert(ss.skip(j - i as int) =~= line@.skip(j as int));
            }
            let ghost pre = toks@;
            toks.push(tok);
            proof {
                assert(bytes_model(toks@) =~= bytes_model(pre).push(tok@));
                assert(bytes_model(pre) + spec_tokens(ss) =~= bytes_model(toks@) + spec_tokens(
                    line@.skip(j as int),
                ));
            }
            i = j;
        }
    }
    proof {
        assert(line@.skip(line@.len() as int) =~= Seq::<u8>::empty());
    }
    toks
}

/// Copies `v` without surrounding whitespace.
#[verifier::loop_isolation(false)]
pub fn trim_bytes(v: &[u8]) -> (r: Vec<u8>)
    ensures
        r@ == spec_trim(v@),
{
    let mut a: usize = 0;
    proof {
        assert(v@.skip(0) =~= v@);
    }
    while a < v.len() && is_ws_byte(v[a])
        invariant
            a <= v.len(),
            spec_trim_start(v@) == spec_trim_start(v@.skip(a as int)),
        decreases v.len() - a,
    {
        proof {
            assert(v@.skip(a as int)[0] == v@[a as int]);
            assert(v@.skip(a as int).skip(1) =~= v@.skip(a + 1 as int));
        }
        a = a + 1;
    }
    proof {
        if a < v.len() {
            assert(v@.skip(a as int)[0] == v@[a as int]);
        } else {
            assert(v@.skip(a as int) =~= Seq::<u8>::empty());
        }
        assert(spec_trim_start(v@) == v@.skip(a as int));
    }
    let mut b: usize = v.len();
    while b > a && is_ws_byte(v[b - 1])
        invariant
            a <= b <= v.len(),
            spec_trim_end(v@.skip(a as int)) == spec_trim_end(v@.subrange(a as int, b as int)),
        decreases b,
    {
        proof {
            let t = v@.subrange(a as int, b as int);
            assert(t.last() == v@[b - 1]);
            assert(t.drop_last() =~= v@.subrange(a as int, b - 1));
        }
        b = b - 1;
    }
    proof {
        assert(v@.skip(a as int) =~= v@.subrange(a as int, v@.len() as int));
        let t = v@.subrange(a as int, b as int);
        if b > a {
            assert(t.last() == v@[b - 1]);
        }
        assert(spec_trim_end(t) == t);
    }
    let r = vstd::slice::slice_to_vec(vstd::slice::slice_subrange(v, a, b));
    proof {
        assert(r@ =~= spec_trim(v@));
    }
    r
}

/// Parses one header line into key and value.
#[verifier::loop_isolation(false)]
pub fn parse_header_line(line: &[u8]) -> (r: RequestData)
    ensures
        r.key@ == spec_parse_header_line(line@).0,
        r.value@ == spec_parse_header_line(line@).1,
{
    let mut i: usize = 0;
    while i < line.len() && line[i] != COLON
        invariant
            i <= line.len(),
            forall|j: int| 0 <= j < i ==> line@[j] != COLON,
        decreases line.len() - i,
    {
        i = i + 1;
    }
    proof {
        lemma_find_byte_at(line@, COLON, i as int);
    }
    if i < line.len() {
        let key = vstd::slice::slice_to_vec(vstd::slice::slice_subrange(line, 0, i));
        let value = trim_bytes(vstd::slice::slice_subrange(line, i + 1, line.len()));
        proof {
            assert(key@ =~= line@.take(i as int));
            assert(line@.subrange(i + 1 as int, line@.len() as int) =~= line@.skip(i + 1 as int));
        }
        RequestData { key, value }
    } else {
        let value = vstd::slice::slice_to_vec(line);
        RequestData { key: Vec::new(), value }
    }
}

impl Request {
    /// Parses a framed buffer, or rejects it as a bad request.
    ///
    /// Parsing succeeds exactly on parseable buffers: non-empty, first
    /// line of exactly three tokens, supported method. The parsed request
    /// carries the lower-cased method, the raw target path, the version
    /// token, the header entries up to the first blank line, and the body
    /// placeholder after it.
    #[verifier::loop_isolation(false)]
    pub fn new(raw_req: &[u8]) -> (r: Result<Request, HttpStatus>)
        ensures
            r is Ok <==> spec_valid_request(raw_req@),
            r is Ok ==> ({
                let req = r->Ok_0;
                let ls = spec_lines(raw_req@);
                let toks = spec_tokens(ls[0]);
                &&& req.method@ == spec_lower(toks[0])
                &&& req.req_path@ == toks[1]
                &&& req.http_ver@ == toks[2]
                &&& req_headers_model(req.header@) == spec_header_entries(ls.skip(1))
                &&& req.content@ == spec_body(ls.skip(1))
            }),
            r is Err ==> r->Err_0.0 == 400 && r->Err_0.1@ == "Bad Request"@,
    {
        let lines = split_lines(raw_req);
        let ghost ls = spec_lines(raw_req@);
        if lines.len() == 0 {
            return Err(status::bad_request());
        }
        let toks = split_tokens(lines[0].as_slice());
        let ghost ts = spec_tokens(ls[0]);
        proof {
            assert(bytes_model(lines@)[0] == lines@[0]@);
            assert(bytes_model(toks@) == ts);
        }
        if toks.len() != 3 {
            return Err(status::bad_request());
        }
        let method = ascii::to_lower_vec(toks[0].as_slice());
        proof {
            assert(bytes_model(toks@)[0] == toks@[0]@);
        }
        let get = method_get_bytes();
        let post = method_post_bytes();
        if !(ascii::bytes_eq(method.as_slice(), get.as_slice()) || ascii::bytes_eq(
            method.as_slice(),
            post.as_slice(),
        )) {
            return Err(status::bad_request());
        }
        let ghost rest = ls.skip(1);
        let mut header: Vec<RequestData> = Vec::new();
        let mut li: usize = 1;
        proof {
            assert(rest.skip(0) =~= rest);
            assert(req_headers_model(header@) + spec_header_entries(rest) =~= spec_header_entries(
                rest,
            ));
        }
        while li < lines.len() && lines[li].len() > 0
            invariant
                1 <= li <= lines.len(),
                spec_header_entries(rest) == req_headers_model(header@) + spec_header_entries(
                    rest.skip(li - 1),
                ),
                spec_body(rest) == spec_body(rest.skip(li - 1)),
            decreases lines.len() - li,
        {
            let hd = parse_header_line(lines[li].as_slice());
            let ghost pre = header@;
            header.push(hd);
            proof {
                let tail = rest.skip(li - 1);
                assert(tail[0] == bytes_model(lines@)[li as int]);
                assert(tail[0] == lines@[li as int]@);
                assert(tail[0].len() > 0);
                assert(tail.skip(1) =~= rest.skip(li as int));
                assert(req_headers_model(header@) =~= req_headers_model(pre).push(
                    (hd.key@, hd.value@),
                ));
                assert(req_headers_model(pre) + spec_header_entries(tail) =~= req_headers_model(
                    header@,
                ) + spec_header_entries(rest.skip(li as int)));
            }
            li = li + 1;
        }
        proof {
            let tail = rest.skip(li - 1);
            if li < lines.len() {
                assert(tail[0] == lines@[li as int]@);
                assert(tail[0].len() == 0);
            } else {
                assert(tail =~= Seq::<Seq<u8>>::empty());
            }
            assert(spec_header_entries(tail) =~= Seq::<(Seq<u8>, Seq<u8>)>::empty());
            assert(req_headers_model(header@) + spec_header_entries(tail) =~= req_headers_model(
                header@,
            ));
        }
        let content: Vec<u8> = if li < lines.len() && li + 1 < lines.len() {
            proof {
                let tail = rest.skip(li - 1);
                assert(tail[1] == bytes_model(lines@)[li + 1 as int]);
            }
            vstd::slice::slice_to_vec(lines[li + 1].as_slice())
        } else {
            Vec::new()
        };
        proof {
            let tail = rest.skip(li - 1);
            if li >= lines.len() {
                assert(tail =~= Seq::<Seq<u8>>::empty());
            } else if li + 1 >= lines.len() {
                assert(tail.len() == 1);
            }
        }
        Ok(
            Request {
                method,
                req_path: vstd::slice::slice_to_vec(toks[1].as_slice()),
                http_ver: vstd::slice::slice_to_vec(toks[2].as_slice()),
                header,
                content,
            },
        )
    }

    /// Looks a header up by key, comparing keys up to ASCII case, and
    /// returns the first match's value.
    #[verifier::loop_isolation(false)]
    pub fn get_header(&self, key: &[u8]) -> (r: Result<Vec<u8>, LibError>)
        ensures
            ({
                let f = spec_find_header(req_headers_model(self.header@), key@);
                &&& (r is Ok <==> f != -1)
                &&& r is Ok ==> r->Ok_0@ == req_headers_model(self.header@)[f].1
                &&& r is Err ==> r->Err_0 == LibError::FieldNotFound
            }),
    {
        let ghost m = req_headers_model(self.header@);
        proof {
            lemma_find_header(m, key@);
        }
        let n = self.header.len();
        let mut i: usize = 0;
        while i < n
            invariant
                i <= n,
                forall|j: int| 0 <= j < i ==> !eq_ignore_case(#[trigger] m[j].0, key@),
            decreases n - i,
        {
            if ascii::bytes_eq_ignore_case(key, self.header[i].key.as_slice()) {
                proof {
                    assert(m[i as int].0 == self.header@[i as int].key@);
                    lemma_find_header_at(m, key@, i as int);
                }
                return Ok(vstd::slice::slice_to_vec(self.header[i].value.as_slice()));
            }
            proof {
                assert(m[i as int].0 == self.header@[i as int].key@);
            }
            i = i + 1;
        }
        proof {
            assert(spec_find_header(m, key@) == -1) by {
                if spec_find_header(m, key@) != -1 {
                    assert(eq_ignore_case(m[spec_find_header(m, key@)].0, key@));
                }
            }
        }
        Err(LibError::FieldNotFound)
    }

    /// The declared body length: the value of the `Content-Length`
    /// header parsed as a decimal number, when the header is there and
    /// its value is one.
    pub fn content_length(&self) -> (r: Option<u64>)
        ensures
            ({
                let m = req_headers_model(self.header@);
                let f = spec_find_header(m, content_length_lower());
                &&& f == -1 ==> r is None
                &&& f != -1 ==> r == ascii::spec_parse_u64(m[f].1)
            }),
    {
        let key = content_length_key();
        match self.get_header(key.as_slice()) {
            Ok(v) => ascii::dec_parse_u64(v.as_slice()),
            Err(_) => None,
        }
    }

    /// Whether a buffer is a parseable request: non-empty, first line of
    /// exactly three whitespace-separated tokens, method GET or POST up
    /// to case.
    pub fn is_valid_http_request(req: &[u8]) -> (r: bool)
        ensures
            r == spec_valid_request(req@),
    {
        let lines = split_lines(req);
        if lines.len() == 0 {
            return false;
        }
        let toks = split_tokens(lines[0].as_slice());
        proof {
            assert(bytes_model(lines@)[0] == lines@[0]@);
        }
        if toks.len() != 3 {
            return false;
        }
        let method = ascii::to_lower_vec(toks[0].as_slice());
        proof {
            assert(bytes_model(toks@)[0] == toks@[0]@);
        }
        let get = method_get_bytes();
        let post = method_post_bytes();
        ascii::bytes_eq(method.as_slice(), get.as_slice()) || ascii::bytes_eq(
            method.as_slice(),
            post.as_slice(),
        )
    }
}

/// The bytes `get`.
pub fn method_get_bytes() -> (r: Vec<u8>)
    ensures
        r@ == spec_get(),
{
    let mut r: Vec<u8> = Vec::new();
    r.push(103);
    r.push(101);
    r.push(116);
    proof {
        assert(r@ =~= spec_get());
    }
    r
}

/// The bytes `post`.
pub fn method_post_bytes() -> (r: Vec<u8>)
    ensures
        r@ == spec_post(),
{
    let mut r: Vec<u8> = Vec::new();
    r.push(112);
    r.push(111);
    r.push(115);
    r.push(116);
    proof {
        assert(r@ =~= spec_post());
    }
    r
}

} // verus!
