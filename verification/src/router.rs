//! The path resolver and router.
//!
//! A request path, joined onto the document root with the query stripped,
//! resolves to one of five outcomes: forbidden when it starts with a
//! configured forbidden prefix, a redirect or a served index for a
//! directory, a served file, or not found. The filesystem facts the
//! decision needs — whether the target is a directory, whether its index
//! file opens, whether the target opens as a file — are supplied by the
//! caller; the decision itself, and the status line and headers each
//! outcome carries, are pure functions of those plain values.

use vstd::prelude::*;

use crate::ascii;
use crate::ascii::spec_starts_with;
use crate::request::{spec_find_byte, lemma_find_byte_at, bytes_model};
use crate::headers::{spec_find_header, is_content_length_key};
use crate::response::{Response, headers_model};
use crate::utils::{SLASH, BSLASH};

verus! {

/// ASCII question mark, the query separator.
pub const QMARK: u8 = 63;

/// What a request path resolves to.
#[derive(Clone, Copy, Debug, PartialEq, Eq, Structural)]
pub enum RouteOutcome {
    /// The target falls under a forbidden prefix: status 403 with the
    /// configured error page.
    Forbidden,
    /// The target is a directory with an index file, requested without a
    /// trailing slash: status 301 to the path with the slash appended.
    DirectoryRedirect,
    /// The target is a directory with an index file, requested with a
    /// trailing slash: status 200 with the index file.
    DirectoryServed,
    /// The target opens as a file: status 200 with it.
    FileServed,
    /// Nothing readable resolves: status 404 with the configured error
    /// page.
    NotFound,
}

/// The request target before its query component.
pub open spec fn spec_real_path(p: Seq<u8>) -> Seq<u8> {
    p.take(spec_find_byte(p, QMARK))
}

/// The unaliased target: document root plus the query-stripped path.
pub open spec fn spec_unalias(req_path: Seq<u8>, home_dir: Seq<u8>) -> Seq<u8> {
    home_dir + spec_real_path(req_path)
}

/// The query-stripped request path ends with a slash.
pub open spec fn spec_trailing_slash(p: Seq<u8>) -> bool {
    let r = spec_real_path(p);
    r.len() > 0 && r.last() == SLASH
}

/// `path` starts with one of the configured forbidden prefixes.
pub open spec fn spec_forbidden(path: Seq<u8>, prefixes: Seq<Seq<u8>>) -> bool {
    exists|i: int| 0 <= i < prefixes.len() && spec_starts_with(path, #[trigger] prefixes[i])
}

/// The routing decision from the resolved facts: a forbidden target is
/// forbidden whatever the filesystem holds; a directory serves its index
/// (redirecting first when the trailing slash is missing) or falls
/// through to not found; anything else serves as a file or is not found.
pub open spec fn spec_route(
    forbidden: bool,
    is_dir: bool,
    index_opens: bool,
    file_opens: bool,
    trailing_slash: bool,
) -> RouteOutcome {
    if forbidden {
        RouteOutcome::Forbidden
    } else if is_dir {
        if index_opens {
            if !trailing_slash {
                RouteOutcome::DirectoryRedirect
            } else {
                RouteOutcome::DirectoryServed
            }
        } else {
            RouteOutcome::NotFound
        }
    } else if file_opens {
        RouteOutcome::FileServed
    } else {
        RouteOutcome::NotFound
    }
}

/// The routing decision for a request path against a document root,
/// forbidden prefixes and the filesystem facts about the target.
pub open spec fn spec_decide_route(
    req_path: Seq<u8>,
    home_dir: Seq<u8>,
    prefixes: Seq<Seq<u8>>,
    is_dir: bool,
    index_opens: bool,
    file_opens: bool,
) -> RouteOutcome {
    spec_route(
        spec_forbidden(spec_unalias(req_path, home_dir), prefixes),
        is_dir,
        index_opens,
        file_opens,
        spec_trailing_slash(req_path),
    )
}

/// Copies the request target up to its query component.
#[verifier::loop_isolation(false)]
pub fn strip_query(p: &[u8]) -> (r: Vec<u8>)
    ensures
        r@ == spec_real_path(p@),
{
    let mut i: usize = 0;
    while i < p.len() && p[i] != QMARK
        invariant
            i <= p.len(),
            forall|j: int| 0 <= j < i ==> p@[j] != QMARK,
        decreases p.len() - i,
    {
        i = i + 1;
    }
    proof {
        lemma_find_byte_at(p@, QMARK, i as int);
    }
    let r = vstd::slice::slice_to_vec(vstd::slice::slice_subrange(p, 0, i));
    proof {
        assert(r@ =~= spec_real_path(p@));
    }
    r
}

/// Splits a buffer at every occurrence of `sep`, keeping empty segments.
#[verifier::loop_isolation(false)]
pub fn split_on_byte(v: &[u8], sep: u8) -> (r: Vec<Vec<u8>>)
    ensures
        bytes_model(r@) == spec_split_on(v@, sep),
{
    let mut segs: Vec<Vec<u8>> = Vec::new();
    let mut start: usize = 0;
    let mut i: usize = 0;
    proof {
        assert(v@.skip(0) =~= v@);
        assert(bytes_model(segs@) + spec_split_on(v@, sep) =~= spec_split_on(v@, sep));
    }
    while i < v.len()
        invariant
            start <= i <= v.len(),
            spec_split_on(v@, sep) == bytes_model(segs@) + spec_split_on(
                v@.skip(start as int),
                sep,
            ),
            forall|t: int| start <= t < i ==> v@[t] != sep,
        decreases v.len() - i,
    {
        if v[i] == sep {
            let ghost ss = v@.skip(start as int);
            proof {
                assert(forall|j: int| 0 <= j < i - start ==> ss[j] == v@[start + j]);
                assert(ss[i - start as int] == v@[i as int]);
                lemma_find_byte_at(ss, sep, i - start as int);
            }
            let seg = vstd::slice::slice_to_vec(vstd::slice::slice_subrange(v, start, i));
            proof {
                assert(seg@ =~= ss.take(i - start as int));
                assert(ss.skip(i - start + 1 as int) =~= v@.skip(i + 1 as int));
            }
            let ghost pre = segs@;
            segs.push(seg);
            proof {
                assert(bytes_model(segs@) =~= bytes_model(pre).push(seg@));
                assert(bytes_model(pre) + spec_split_on(ss, sep) =~= bytes_model(segs@)
                    + spec_split_on(v@.skip(i + 1 as int), sep));
            }
            start = i + 1;
        }
        i = i + 1;
    }
    let ghost ss = v@.skip(start as int);
    proof {
        assert(forall|j: int| 0 <= j < ss.len() ==> ss[j] == v@[start + j]);
        lemma_find_byte_at(ss, sep, ss.len() as int);
    }
    let seg = vstd::slice::slice_to_vec(vstd::slice::slice_subrange(v, start, v.len()));
    proof {
        assert(seg@ =~= ss);
        assert(seg@.take(spec_find_byte(ss, sep)) =~= ss);
    }
    let ghost pre = segs@;
    segs.push(seg);
    proof {
        assert(bytes_model(segs@) =~= bytes_model(pre).push(seg@));
        assert(bytes_model(pre) + spec_split_on(ss, sep) =~= bytes_model(segs@));
    }
    segs
}

/// The segments of `s` split at every `sep`, empty segments kept.
pub open spec fn spec_split_on(s: Seq<u8>, sep: u8) -> Seq<Seq<u8>>
    decreases s.len(),
{
    let i = spec_find_byte(s, sep);
    if 0 <= i < s.len() {
        seq![s.take(i)] + spec_split_on(s.skip(i + 1), sep)
    } else {
        seq![s]
    }
}

/// Whether `path` starts with one of the configured forbidden prefixes.
#[verifier::loop_isolation(false)]
pub fn is_forbidden(path: &[u8], prefixes: &Vec<Vec<u8>>) -> (r: bool)
    ensures
        r == spec_forbidden(path@, bytes_model(prefixes@)),
{
    let n = prefixes.len();
    let mut i: usize = 0;
    while i < n
        invariant
            i <= n,
            forall|j: int|
                0 <= j < i ==> !spec_starts_with(path@, #[trigger] bytes_model(prefixes@)[j]),
        decreases n - i,
    {
        if ascii::starts_with(path, prefixes[i].as_slice()) {
            proof {
                assert(bytes_model(prefixes@)[i as int] == prefixes@[i as int]@);
            }
            return true;
        }
        proof {
            assert(bytes_model(prefixes@)[i as int] == prefixes@[i as int]@);
        }
        i = i + 1;
    }
    false
}

/// The path of a directory's index file: the directory path, a host
/// separator unless one is already there, and the index filename.
pub open spec fn spec_index_path(dir: Seq<u8>, index_file: Seq<u8>) -> Seq<u8> {
    if dir.len() > 0 && dir.last() == BSLASH {
        dir + index_file
    } else {
        dir + seq![BSLASH] + index_file
    }
}

/// Joins a directory path and the default index filename.
pub fn index_path(dir: &[u8], index_file: &[u8]) -> (r: Vec<u8>)
    ensures
        r@ == spec_index_path(dir@, index_file@),
{
    let mut r: Vec<u8> = Vec::new();
    ascii::append_bytes(&mut r, dir);
    if !(dir.len() > 0 && dir[dir.len() - 1] == BSLASH) {
        r.push(BSLASH);
    }
    ascii::append_bytes(&mut r, index_file);
    proof {
        assert(r@ =~= spec_index_path(dir@, index_file@));
    }
    r
}

/// Decides the routing outcome for a request path.
pub fn decide_route(
    req_path: &[u8],
    home_dir: &[u8],
    forbidden_prefixes: &Vec<Vec<u8>>,
    is_dir: bool,
    index_opens: bool,
    file_opens: bool,
) -> (r: RouteOutcome)
    ensures
        r == spec_decide_route(
            req_path@,
            home_dir@,
            bytes_model(forbidden_prefixes@),
            is_dir,
            index_opens,
            file_opens,
        ),
{
    let real_path = strip_query(req_path);
    let mut unalias: Vec<u8> = Vec::new();
    ascii::append_bytes(&mut unalias, home_dir);
    ascii::append_bytes(&mut unalias, real_path.as_slice());
    let forbidden = is_forbidden(unalias.as_slice(), forbidden_prefixes);
    let trailing = real_path.len() > 0 && real_path[real_path.len() - 1] == SLASH;
    if forbidden {
        RouteOutcome::Forbidden
    } else if is_dir {
        if index_opens {
            if !trailing {
                RouteOutcome::DirectoryRedirect
            } else {
                RouteOutcome::DirectoryServed
            }
        } else {
            RouteOutcome::NotFound
        }
    } else if file_opens {
        RouteOutcome::FileServed
    } else {
        RouteOutcome::NotFound
    }
}

/// The bytes `1.1`.
pub open spec fn http_ver_11() -> Seq<u8> {
    seq![49u8, 46u8, 49u8]
}

/// The bytes `Server`.
pub open spec fn server_key() -> Seq<u8> {
    seq![83u8, 101u8, 114u8, 118u8, 101u8, 114u8]
}

/// The bytes `Aden 0.1`, the fixed server identification.
pub open spec fn server_value() -> Seq<u8> {
    seq![65u8, 100u8, 101u8, 110u8, 32u8, 48u8, 46u8, 49u8]
}

/// The bytes `Content-Type`.
pub open spec fn content_type_key() -> Seq<u8> {
    seq![67u8, 111u8, 110u8, 116u8, 101u8, 110u8, 116u8, 45u8, 84u8, 121u8, 112u8, 101u8]
}

/// The bytes `text/html`, the content type of the error pages.
pub open spec fn text_html() -> Seq<u8> {
    seq![116u8, 101u8, 120u8, 116u8, 47u8, 104u8, 116u8, 109u8, 108u8]
}

/// The bytes `Location`.
pub open spec fn location_key() -> Seq<u8> {
    seq![76u8, 111u8, 99u8, 97u8, 116u8, 105u8, 111u8, 110u8]
}

/// The bytes `OK`.
pub open spec fn msg_ok() -> Seq<u8> {
    seq![79u8, 75u8]
}

/// The bytes `Moved Permanently`.
pub open spec fn msg_moved_permanently() -> Seq<u8> {
    seq![77u8, 111u8, 118u8, 101u8, 100u8, 32u8, 80u8, 101u8, 114u8, 109u8, 97u8, 110u8, 101u8, 110u8, 116u8, 108u8, 121u8]
}

/// The bytes `Forbidden`.
pub open spec fn msg_forbidden() -> Seq<u8> {
    seq![70u8, 111u8, 114u8, 98u8, 105u8, 100u8, 100u8, 101u8, 110u8]
}

/// The bytes `Not Found`.
pub open spec fn msg_not_found() -> Seq<u8> {
    seq![78u8, 111u8, 116u8, 32u8, 70u8, 111u8, 117u8, 110u8, 100u8]
}

fn http_ver_11_bytes() -> (r: Vec<u8>)
    ensures
        r@ == http_ver_11(),
{
    let mut r: Vec<u8> = Vec::new();
    r.push(49);
    r.push(46);
    r.push(49);
    proof {
        assert(r@ =~= http_ver_11());
    }
    r
}

fn server_key_bytes() -> (r: Vec<u8>)
    ensures
        r@ == server_key(),
{
    let mut r: Vec<u8> = Vec::new();
    r.push(83);
    r.push(101);
    r.push(114);
    r.push(118);
    r.push(101);
    r.push(114);
    proof {
        assert(r@ =~= server_key());
    }
    r
}

fn server_value_bytes() -> (r: Vec<u8>)
    ensures
        r@ == server_value(),
{
    let mut r: Vec<u8> = Vec::new();
    r.push(65);
    r.push(100);
    r.push(101);
    r.push(110);
    r.push(32);
    r.push(48);
    r.push(46);
    r.push(49);
    proof {
        assert(r@ =~= server_value());
    }
    r
}

fn content_type_key_bytes() -> (r: Vec<u8>)
    ensures
        r@ == content_type_key(),
{
    let mut r: Vec<u8> = Vec::new();
    r.push(67);
    r.push(111);
    r.push(110);
    r.push(116);
    r.push(101);
    r.push(110);
    r.push(116);
    r.push(45);
    r.push(84);
    r.push(121);
    r.push(112);
    r.push(101);
    proof {
        assert(r@ =~= content_type_key());
    }
    r
}

fn text_html_bytes() -> (r: Vec<u8>)
    ensures
        r@ == text_html(),
{
    let mut r: Vec<u8> = Vec::new();
    r.push(116);
    r.push(101);
    r.push(120);
    r.push(116);
    r.push(47);
    r.push(104);
    r.push(116);
    r.push(109);
    r.push(108);
    proof {
        assert(r@ =~= text_html());
    }
    r
}

fn location_key_bytes() -> (r: Vec<u8>)
    ensures
        r@ == location_key(),
{
    let mut r: Vec<u8> = Vec::new();
    r.push(76);
    r.push(111);
    r.push(99);
    r.push(97);
    r.push(116);
    r.push(105);
    r.push(111);
    r.push(110);
    proof {
        assert(r@ =~= location_key());
    }
    r
}

fn msg_ok_bytes() -> (r: Vec<u8>)
    ensures
        r@ == msg_ok(),
{
    let mut r: Vec<u8> = Vec::new();
    r.push(79);
    r.push(75);
    proof {
        assert(r@ =~= msg_ok());
    }
    r
}

fn msg_moved_permanently_bytes() -> (r: Vec<u8>)
    ensures
        r@ == msg_moved_permanently(),
{
    let mut r: Vec<u8> = Vec::new();
    r.push(77);
    r.push(111);
    r.push(118);
    r.push(101);
    r.push(100);
    r.push(32);
    r.push(80);
    r.push(101);
    r.push(114);
    r.push(109);
    r.push(97);
    r.push(110);
    r.push(101);
    r.push(110);
    r.push(116);
    r.push(108);
    r.push(121);
    proof {
        assert(r@ =~= msg_moved_permanently());
    }
    r
}

fn msg_forbidden_bytes() -> (r: Vec<u8>)
    ensures
        r@ == msg_forbidden(),
{
    let mut r: Vec<u8> = Vec::new();
    r.push(70);
    r.push(111);
    r.push(114);
    r.push(98);
    r.push(105);
    r.push(100);
    r.push(100);
    r.push(101);
    r.push(110);
    proof {
        assert(r@ =~= msg_forbidden());
    }
    r
}

fn msg_not_found_bytes() -> (r: Vec<u8>)
    ensures
        r@ == msg_not_found(),
{
    let mut r: Vec<u8> = Vec::new();
    r.push(78);
    r.push(111);
    r.push(116);
    r.push(32);
    r.push(70);
    r.push(111);
    r.push(117);
    r.push(110);
    r.push(100);
    proof {
        assert(r@ =~= msg_not_found());
    }
    r
}

/// The bytes `/403.html`.
pub open spec fn forbidden_page() -> Seq<u8> {
    seq![47u8, 52u8, 48u8, 51u8, 46u8, 104u8, 116u8, 109u8, 108u8]
}

/// The bytes `/404.html`.
pub open spec fn not_found_page() -> Seq<u8> {
    seq![47u8, 52u8, 48u8, 52u8, 46u8, 104u8, 116u8, 109u8, 108u8]
}

/// The wire path of the error page an outcome is served with: `403.html`
/// under the error root for a forbidden target, `404.html` for a missing
/// one, nothing for the outcomes served from the target itself.
pub open spec fn spec_error_page_path(err_root: Seq<u8>, o: RouteOutcome) -> Option<Seq<u8>> {
    match o {
        RouteOutcome::Forbidden => Some(err_root + forbidden_page()),
        RouteOutcome::NotFound => Some(err_root + not_found_page()),
        _ => None,
    }
}

/// Joins the error root and the error page an outcome calls for.
pub fn error_page_path(err_root: &[u8], outcome: RouteOutcome) -> (r: Option<Vec<u8>>)
    ensures
        ({
            let s = spec_error_page_path(err_root@, outcome);
            &&& (r is Some <==> s is Some)
            &&& r is Some ==> r->0@ == s->0
        }),
{
    match outcome {
        RouteOutcome::Forbidden => {
            let mut p: Vec<u8> = Vec::new();
            ascii::append_bytes(&mut p, err_root);
            p.push(47);
            p.push(52);
            p.push(48);
            p.push(51);
            p.push(46);
            p.push(104);
            p.push(116);
            p.push(109);
            p.push(108);
            proof {
                assert(p@ =~= err_root@ + forbidden_page());
            }
            Some(p)
        },
        RouteOutcome::NotFound => {
            let mut p: Vec<u8> = Vec::new();
            ascii::append_bytes(&mut p, err_root);
            p.push(47);
            p.push(52);
            p.push(48);
            p.push(52);
            p.push(46);
            p.push(104);
            p.push(116);
            p.push(109);
            p.push(108);
            proof {
                assert(p@ =~= err_root@ + not_found_page());
            }
            Some(p)
        },
        _ => None,
    }
}

/// The status code of an outcome.
pub open spec fn spec_outcome_status(o: RouteOutcome) -> u16 {
    match o {
        RouteOutcome::Forbidden => 403,
        RouteOutcome::DirectoryRedirect => 301,
        RouteOutcome::DirectoryServed => 200,
        RouteOutcome::FileServed => 200,
        RouteOutcome::NotFound => 404,
    }
}

/// The reason phrase of an outcome.
pub open spec fn spec_outcome_msg(o: RouteOutcome) -> Seq<u8> {
    match o {
        RouteOutcome::Forbidden => msg_forbidden(),
        RouteOutcome::DirectoryRedirect => msg_moved_permanently(),
        RouteOutcome::DirectoryServed => msg_ok(),
        RouteOutcome::FileServed => msg_ok(),
        RouteOutcome::NotFound => msg_not_found(),
    }
}

/// The headers of an outcome: a `Location` of the request path with a
/// slash appended for a redirect; the server identification; the looked
/// up content type for anything served, `text/html` for the error pages.
pub open spec fn spec_outcome_headers(o: RouteOutcome, req_path: Seq<u8>, ct: Seq<u8>) -> Seq<
    (Seq<u8>, Seq<u8>),
> {
    match o {
        RouteOutcome::Forbidden => seq![
            (server_key(), server_value()),
            (content_type_key(), text_html()),
        ],
        RouteOutcome::DirectoryRedirect => seq![
            (location_key(), req_path + seq![SLASH]),
            (server_key(), server_value()),
            (content_type_key(), ct),
        ],
        RouteOutcome::DirectoryServed => seq![
            (server_key(), server_value()),
            (content_type_key(), ct),
        ],
        RouteOutcome::FileServed => seq![(server_key(), server_value()), (content_type_key(), ct)],
        RouteOutcome::NotFound => seq![
            (server_key(), server_value()),
            (content_type_key(), text_html()),
        ],
    }
}

proof fn lemma_wire_keys()
    ensures
        !is_content_length_key(server_key()),
        !is_content_length_key(content_type_key()),
        !is_content_length_key(location_key()),
        !crate::ascii::eq_ignore_case(server_key(), content_type_key()),
        !crate::ascii::eq_ignore_case(content_type_key(), server_key()),
        !crate::ascii::eq_ignore_case(location_key(), server_key()),
        !crate::ascii::eq_ignore_case(location_key(), content_type_key()),
{
    assert(crate::ascii::spec_lower(server_key()).len() == 6);
    assert(crate::ascii::spec_lower(content_type_key()).len() == 12);
    assert(crate::ascii::spec_lower(location_key()).len() == 8);
    assert(crate::ascii::spec_lower(crate::headers::content_length_lower()).len() == 14);
}

fn add_server_and_type(res: &mut Response, content_type: &[u8])
    requires
        forall|j: int|
            0 <= j < headers_model(old(res).header@).len() ==> !crate::ascii::eq_ignore_case(
                (#[trigger] headers_model(old(res).header@)[j]).0,
                server_key(),
            ) && !crate::ascii::eq_ignore_case(
                headers_model(old(res).header@)[j].0,
                content_type_key(),
            ),
    ensures
        crate::response::eq_except_header(*final(res), *old(res)),
        headers_model(final(res).header@) == headers_model(old(res).header@) + seq![
            (server_key(), server_value()),
            (content_type_key(), content_type@),
        ],
{
    let ghost m0 = headers_model(old(res).header@);
    let sk = server_key_bytes();
    let sv = server_value_bytes();
    proof {
        lemma_wire_keys();
        crate::headers::lemma_find_header(m0, server_key());
        if spec_find_header(m0, server_key()) != -1 {
            assert(crate::ascii::eq_ignore_case(
                m0[spec_find_header(m0, server_key())].0,
                server_key(),
            ));
        }
        assert(spec_find_header(m0, server_key()) == -1);
        assert(!is_content_length_key(server_key()));
    }
    res.add_header(sk.as_slice(), sv.as_slice());
    let ghost m1 = headers_model(res.header@);
    proof {
        assert(m1 == m0.push((server_key(), server_value())));
    }
    let ck = content_type_key_bytes();
    proof {
        crate::headers::lemma_find_header(m1, content_type_key());
        if spec_find_header(m1, content_type_key()) != -1 {
            let f = spec_find_header(m1, content_type_key());
            assert(crate::ascii::eq_ignore_case(m1[f].0, content_type_key()));
            if f < m0.len() {
                assert(m1[f] == m0[f]);
            } else {
                assert(m1[f].0 == server_key());
            }
        }
        assert(spec_find_header(m1, content_type_key()) == -1);
        assert(!is_content_length_key(content_type_key()));
    }
    res.add_header(ck.as_slice(), content_type);
    proof {
        assert(headers_model(res.header@) =~= m0 + seq![
            (server_key(), server_value()),
            (content_type_key(), content_type@),
        ]);
    }
}

/// Fills the status line and headers of a response for an outcome: HTTP
/// version 1.1, the outcome's status code and reason phrase, and the
/// outcome's headers. The content source is bound separately.
pub fn apply_route_outcome(
    res: &mut Response,
    outcome: RouteOutcome,
    req_path: &[u8],
    content_type: &[u8],
)
    requires
        old(res).header@.len() == 0,
    ensures
        final(res).http_ver@ == http_ver_11(),
        final(res).status_code == spec_outcome_status(outcome),
        final(res).status_msg@ == spec_outcome_msg(outcome),
        headers_model(final(res).header@) == spec_outcome_headers(
            outcome,
            req_path@,
            content_type@,
        ),
        final(res).content@ == old(res).content@,
        final(res).content_length == old(res).content_length,
        final(res).read_buffer_size == old(res).read_buffer_size,
        final(res).bytes_read == old(res).bytes_read,
        final(res).is_ready == old(res).is_ready,
{
    proof {
        assert(headers_model(res.header@) =~= Seq::<(Seq<u8>, Seq<u8>)>::empty());
    }
    let ver = http_ver_11_bytes();
    match outcome {
        RouteOutcome::Forbidden => {
            let msg = msg_forbidden_bytes();
            res.set_response_text(Some(ver.as_slice()), Some(403), Some(msg.as_slice()));
            let th = text_html_bytes();
            add_server_and_type(res, th.as_slice());
            proof {
                assert(headers_model(res.header@) =~= spec_outcome_headers(
                    outcome,
                    req_path@,
                    content_type@,
                ));
            }
        },
        RouteOutcome::DirectoryRedirect => {
            let msg = msg_moved_permanently_bytes();
            res.set_response_text(Some(ver.as_slice()), Some(301), Some(msg.as_slice()));
            let lk = location_key_bytes();
            let mut loc: Vec<u8> = Vec::new();
            ascii::append_bytes(&mut loc, req_path);
            loc.push(SLASH);
            proof {
                lemma_wire_keys();
                assert(loc@ =~= req_path@ + seq![SLASH]);
                let m0 = headers_model(res.header@);
                crate::headers::lemma_find_header(m0, location_key());
                if spec_find_header(m0, location_key()) != -1 {
                    assert(crate::ascii::eq_ignore_case(
                        m0[spec_find_header(m0, location_key())].0,
                        location_key(),
                    ));
                }
                assert(spec_find_header(m0, location_key()) == -1);
                assert(!is_content_length_key(location_key()));
            }
            res.add_header(lk.as_slice(), loc.as_slice());
            add_server_and_type(res, content_type);
            proof {
                assert(headers_model(res.header@) =~= spec_outcome_headers(
                    outcome,
                    req_path@,
                    content_type@,
                ));
            }
        },
        RouteOutcome::DirectoryServed => {
            let msg = msg_ok_bytes();
            res.set_response_text(Some(ver.as_slice()), Some(200), Some(msg.as_slice()));
            add_server_and_type(res, content_type);
            proof {
                assert(headers_model(res.header@) =~= spec_outcome_headers(
                    outcome,
                    req_path@,
                    content_type@,
                ));
            }
        },
        RouteOutcome::FileServed => {
            let msg = msg_ok_bytes();
            res.set_response_text(Some(ver.as_slice()), Some(200), Some(msg.as_slice()));
            add_server_and_type(res, content_type);
            proof {
                assert(headers_model(res.header@) =~= spec_outcome_headers(
                    outcome,
                    req_path@,
                    content_type@,
                ));
            }
        },
        RouteOutcome::NotFound => {
            let msg = msg_not_found_bytes();
            res.set_response_text(Some(ver.as_slice()), Some(404), Some(msg.as_slice()));
            let th = text_html_bytes();
            add_server_and_type(res, th.as_slice());
            proof {
                assert(headers_model(res.header@) =~= spec_outcome_headers(
                    outcome,
                    req_path@,
                    content_type@,
                ));
            }
        },
    }
}

/// A target under a configured forbidden prefix is forbidden whatever
/// the filesystem holds of it.
pub proof fn lemma_forbidden_prefix_wins(
    req_path: Seq<u8>,
    home_dir: Seq<u8>,
    prefixes: Seq<Seq<u8>>,
    is_dir: bool,
    index_opens: bool,
    file_opens: bool,
)
    requires
        spec_forbidden(spec_unalias(req_path, home_dir), prefixes),
    ensures
        spec_decide_route(req_path, home_dir, prefixes, is_dir, index_opens, file_opens)
            == RouteOutcome::Forbidden,
{
}

/// A directory holding its index file redirects when the request path
/// lacks the trailing slash and serves the index when it has it.
pub proof fn lemma_directory_index_redirect(
    req_path: Seq<u8>,
    home_dir: Seq<u8>,
    prefixes: Seq<Seq<u8>>,
)
    requires
        !spec_forbidden(spec_unalias(req_path, home_dir), prefixes),
    ensures
        !spec_trailing_slash(req_path) ==> spec_decide_route(
            req_path,
            home_dir,
            prefixes,
            true,
            true,
            false,
        ) == RouteOutcome::DirectoryRedirect,
        spec_trailing_slash(req_path) ==> spec_decide_route(
            req_path,
            home_dir,
            prefixes,
            true,
            true,
            false,
        ) == RouteOutcome::DirectoryServed,
{
}

/// A target that is neither a readable file nor a directory with an
/// index, and is not forbidden, is not found.
pub proof fn lemma_missing_resource(
    req_path: Seq<u8>,
    home_dir: Seq<u8>,
    prefixes: Seq<Seq<u8>>,
    is_dir: bool,
)
    requires
        !spec_forbidden(spec_unalias(req_path, home_dir), prefixes),
    ensures
        spec_decide_route(req_path, home_dir, prefixes, is_dir, false, false)
            == RouteOutcome::NotFound,
{
}

} // verus!
