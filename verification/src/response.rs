//! The response builder and streamer.
//!
//! A [`Response`] accumulates status line and headers, holds an in-memory
//! content source, and is drained in bounded chunks: [`build_header`]
//! serializes the head (status line, headers, a computed `Content-Length`,
//! a blank line) once the readiness invariant holds, and [`build_content`]
//! emits the next chunk, never larger than the buffer floor, until no
//! bytes remain. Content that lives in a file is drained outside the
//! library with the same chunk arithmetic, [`effective_buffer_size`] and
//! [`next_chunk_size`].
//!
//! [`build_header`]: Response::build_header
//! [`build_content`]: Response::build_content

use vstd::prelude::*;

use crate::ascii::{eq_ignore_case, spec_dec_digits, CR, LF, SP, COLON};
use crate::headers::{spec_find_header, lemma_find_header, lemma_find_header_at, count_matching, lemma_count_push, lemma_count_update, lemma_count_zero, lemma_count_equiv_key, lemma_count_at_least_one, content_length_lower, is_content_length_key, content_length_key};
use crate::ascii;
use crate::errors::LibError;

verus! {

/// One response header: key and value.
pub struct HeaderData {
    pub key: Vec<u8>,
    pub value: Vec<u8>,
}

/// A response being assembled and drained.
///
/// `content` is the in-memory content source; `content_length` is the
/// exact byte count of the content source; `bytes_read` counts the bytes
/// already emitted by [`build_content`](Response::build_content).
pub struct Response {
    pub http_ver: Vec<u8>,
    pub status_code: u16,
    pub status_msg: Vec<u8>,
    pub header: Vec<HeaderData>,
    pub content: Vec<u8>,
    pub content_length: u64,
    pub read_buffer_size: u64,
    pub bytes_read: u64,
    pub is_ready: bool,
}

/// The headers as a sequence of (key, value) byte sequences.
pub open spec fn headers_model(h: Seq<HeaderData>) -> Seq<(Seq<u8>, Seq<u8>)> {
    h.map_values(|hd: HeaderData| (hd.key@, hd.value@))
}

/// The headers after `add_header(k, v)`: a no-op for the reserved
/// `Content-Length` key; otherwise the first case-insensitive match of
/// `k` keeps its stored key and takes the value `v`, and when no key
/// matches, (`k`, `v`) is appended.
pub open spec fn spec_add_header(m: Seq<(Seq<u8>, Seq<u8>)>, k: Seq<u8>, v: Seq<u8>) -> Seq<
    (Seq<u8>, Seq<u8>),
> {
    if is_content_length_key(k) {
        m
    } else {
        let f = spec_find_header(m, k);
        if f == -1 {
            m.push((k, v))
        } else {
            m.update(f, (m[f].0, v))
        }
    }
}

/// The headers after `remove_header(k)`: the first case-insensitive
/// match of `k` is removed; absent a match nothing changes.
pub open spec fn spec_remove_header(m: Seq<(Seq<u8>, Seq<u8>)>, k: Seq<u8>) -> Seq<
    (Seq<u8>, Seq<u8>),
> {
    let f = spec_find_header(m, k);
    if f == -1 {
        m
    } else {
        m.remove(f)
    }
}

/// `a` and `b` agree on every field but the header list.
pub open spec fn eq_except_header(a: Response, b: Response) -> bool {
    &&& a.http_ver@ == b.http_ver@
    &&& a.status_code == b.status_code
    &&& a.status_msg@ == b.status_msg@
    &&& a.content@ == b.content@
    &&& a.content_length == b.content_length
    &&& a.read_buffer_size == b.read_buffer_size
    &&& a.bytes_read == b.bytes_read
    &&& a.is_ready == b.is_ready
}

impl Response {
    /// The in-memory content source is consistent: the declared length is
    /// the length of the buffer and the drain has not run past its end.
    pub open spec fn content_bound(&self) -> bool {
        &&& self.content_length == self.content@.len()
        &&& self.bytes_read <= self.content_length
    }

    /// Readiness: version, status code, status message, at least one
    /// header and a known non-zero content length are all set.
    pub open spec fn spec_ready_fields(&self) -> bool {
        &&& self.http_ver@.len() > 0
        &&& self.status_code != 0
        &&& self.status_msg@.len() > 0
        &&& self.header@.len() > 0
        &&& self.content_length > 0
    }

    /// An empty response: nothing set, nothing drained.
    pub fn new() -> (r: Response)
        ensures
            r.http_ver@ == Seq::<u8>::empty(),
            r.status_code == 0,
            r.status_msg@ == Seq::<u8>::empty(),
            r.header@ == Seq::<HeaderData>::empty(),
            r.content@ == Seq::<u8>::empty(),
            r.content_length == 0,
            r.read_buffer_size == 0,
            r.bytes_read == 0,
            !r.is_ready,
            r.content_bound(),
    {
        Response {
            http_ver: Vec::new(),
            status_code: 0,
            status_msg: Vec::new(),
            header: Vec::new(),
            content: Vec::new(),
            content_length: 0,
            read_buffer_size: 0,
            bytes_read: 0,
            is_ready: false,
        }
    }

    /// Sets or overwrites a header, last write wins on a key equal up to
    /// ASCII case; the computed `Content-Length` cannot be set this way.
    pub fn add_header(&mut self, k: &[u8], v: &[u8])
        ensures
            eq_except_header(*final(self), *old(self)),
            headers_model(final(self).header@) == spec_add_header(
                headers_model(old(self).header@),
                k@,
                v@,
            ),
    {
        let ghost m = headers_model(old(self).header@);
        proof {
            lemma_find_header(m, k@);
        }
        let cl = content_length_key();
        if ascii::bytes_eq_ignore_case(k, cl.as_slice()) {
            return ;
        }
        let n = self.header.len();
        let mut i: usize = 0;
        while i < n
            invariant
                i <= n,
                n == self.header@.len(),
                *self == *old(self),
                m == headers_model(self.header@),
                !is_content_length_key(k@),
                forall|j: int| 0 <= j < i ==> !eq_ignore_case(#[trigger] m[j].0, k@),
            decreases n - i,
        {
            if ascii::bytes_eq_ignore_case(self.header[i].key.as_slice(), k) {
                proof {
                    assert(m[i as int].0 == self.header@[i as int].key@);
                    lemma_find_header_at(m, k@, i as int);
                }
                let mut value: Vec<u8> = Vec::new();
                ascii::append_bytes(&mut value, v);
                let key = self.header.remove(i);
                self.header.insert(i, HeaderData { key: key.key, value });
                proof {
                    assert(headers_model(self.header@) =~= spec_add_header(m, k@, v@));
                }
                return ;
            }
            proof {
                assert(m[i as int].0 == self.header@[i as int].key@);
            }
            i = i + 1;
        }
        proof {
            assert(spec_find_header(m, k@) == -1) by {
                if spec_find_header(m, k@) != -1 {
                    assert(eq_ignore_case(m[spec_find_header(m, k@)].0, k@));
                }
            }
        }
        let mut key: Vec<u8> = Vec::new();
        ascii::append_bytes(&mut key, k);
        let mut value: Vec<u8> = Vec::new();
        ascii::append_bytes(&mut value, v);
        self.header.push(HeaderData { key, value });
        proof {
            assert(headers_model(self.header@) =~= spec_add_header(m, k@, v@));
        }
    }

    /// Removes the first header whose key equals `k` up to ASCII case;
    /// does nothing when none matches.
    pub fn remove_header(&mut self, k: &[u8])
        ensures
            eq_except_header(*final(self), *old(self)),
            headers_model(final(self).header@) == spec_remove_header(
                headers_model(old(self).header@),
                k@,
            ),
    {
        let ghost m = headers_model(old(self).header@);
        proof {
            lemma_find_header(m, k@);
        }
        let n = self.header.len();
        let mut i: usize = 0;
        while i < n
            invariant
                i <= n,
                n == self.header@.len(),
                *self == *old(self),
                m == headers_model(self.header@),
                forall|j: int| 0 <= j < i ==> !eq_ignore_case(#[trigger] m[j].0, k@),
            decreases n - i,
        {
            if ascii::bytes_eq_ignore_case(self.header[i].key.as_slice(), k) {
                proof {
                    assert(m[i as int].0 == self.header@[i as int].key@);
                    lemma_find_header_at(m, k@, i as int);
                }
                self.header.remove(i);
                proof {
                    assert(headers_model(self.header@) =~= spec_remove_header(m, k@));
                }
                return ;
            }
            proof {
                assert(m[i as int].0 == self.header@[i as int].key@);
            }
            i = i + 1;
        }
        proof {
            assert(spec_find_header(m, k@) == -1) by {
                if spec_find_header(m, k@) != -1 {
                    assert(eq_ignore_case(m[spec_find_header(m, k@)].0, k@));
                }
            }
        }
    }

    /// Sets whichever of version, status code and status message are given.
    pub fn set_response_text(&mut self, h: Option<&[u8]>, c: Option<u16>, m: Option<&[u8]>)
        ensures
            final(self).http_ver@ == if h is Some {
                h->0@
            } else {
                old(self).http_ver@
            },
            final(self).status_code == if c is Some {
                c->0
            } else {
                old(self).status_code
            },
            final(self).status_msg@ == if m is Some {
                m->0@
            } else {
                old(self).status_msg@
            },
            final(self).header@ == old(self).header@,
            final(self).content@ == old(self).content@,
            final(self).content_length == old(self).content_length,
            final(self).read_buffer_size == old(self).read_buffer_size,
            final(self).bytes_read == old(self).bytes_read,
            final(self).is_ready == old(self).is_ready,
    {
        if let Some(http_ver) = h {
            let mut ver: Vec<u8> = Vec::new();
            ascii::append_bytes(&mut ver, http_ver);
            self.http_ver = ver;
        }
        if let Some(status_code) = c {
            self.status_code = status_code;
        }
        if let Some(status_msg) = m {
            let mut msg: Vec<u8> = Vec::new();
            ascii::append_bytes(&mut msg, status_msg);
            self.status_msg = msg;
        }
    }

    /// Binds a non-empty in-memory buffer as the content source and
    /// records its exact length; an empty buffer changes nothing.
    pub fn add_content_from_string(&mut self, content: Vec<u8>)
        requires
            old(self).bytes_read == 0,
            content@.len() <= u64::MAX,
        ensures
            content@.len() > 0 ==> {
                &&& final(self).content@ == content@
                &&& final(self).content_length == content@.len()
            },
            content@.len() == 0 ==> {
                &&& final(self).content@ == old(self).content@
                &&& final(self).content_length == old(self).content_length
            },
            final(self).http_ver@ == old(self).http_ver@,
            final(self).status_code == old(self).status_code,
            final(self).status_msg@ == old(self).status_msg@,
            final(self).header@ == old(self).header@,
            final(self).read_buffer_size == old(self).read_buffer_size,
            final(self).bytes_read == 0,
            final(self).is_ready == old(self).is_ready,
            old(self).content_bound() ==> final(self).content_bound(),
    {
        if content.len() > 0 {
            self.content_length = content.len() as u64;
            self.content = content;
        }
    }

    /// Marks the response ready once the readiness fields are all set;
    /// readiness is sticky.
    pub fn check_ready(&mut self) -> (r: bool)
        ensures
            final(self).is_ready == (old(self).is_ready || old(self).spec_ready_fields()),
            r == final(self).is_ready,
            eq_except_ready(*final(self), *old(self)),
    {
        if !self.is_ready {
            if self.http_ver.len() > 0 && self.status_code != 0 && self.status_msg.len() > 0
                && self.header.len() > 0 && self.content_length > 0 {
                self.is_ready = true;
            }
        }
        self.is_ready
    }
}

/// `a` and `b` agree on every field but the readiness mark.
pub open spec fn eq_except_ready(a: Response, b: Response) -> bool {
    &&& a.http_ver@ == b.http_ver@
    &&& a.status_code == b.status_code
    &&& a.status_msg@ == b.status_msg@
    &&& a.header@ == b.header@
    &&& a.content@ == b.content@
    &&& a.content_length == b.content_length
    &&& a.read_buffer_size == b.read_buffer_size
    &&& a.bytes_read == b.bytes_read
}

/// The bytes `HTTP/`.
pub open spec fn http_prefix() -> Seq<u8> {
    seq![72u8, 84u8, 84u8, 80u8, 47u8]
}

/// The bytes CR LF.
pub open spec fn crlf() -> Seq<u8> {
    seq![CR, LF]
}

/// The bytes `: ` between a header key and its value.
pub open spec fn colon_sp() -> Seq<u8> {
    seq![COLON, SP]
}

/// The bytes `Content-Length: `.
pub open spec fn content_length_label() -> Seq<u8> {
    seq![67u8, 111u8, 110u8, 116u8, 101u8, 110u8, 116u8, 45u8, 76u8, 101u8, 110u8, 103u8, 116u8, 104u8, 58u8, 32u8]
}

/// One header line on the wire: `key: value` CR LF.
pub open spec fn header_entry_wire(e: (Seq<u8>, Seq<u8>)) -> Seq<u8> {
    e.0 + colon_sp() + e.1 + crlf()
}

/// All header lines on the wire, in order.
pub open spec fn headers_wire(m: Seq<(Seq<u8>, Seq<u8>)>) -> Seq<u8>
    decreases m.len(),
{
    if m.len() == 0 {
        Seq::<u8>::empty()
    } else {
        headers_wire(m.drop_last()) + header_entry_wire(m.last())
    }
}

proof fn lemma_headers_wire_push(m: Seq<(Seq<u8>, Seq<u8>)>, e: (Seq<u8>, Seq<u8>))
    ensures
        headers_wire(m.push(e)) == headers_wire(m) + header_entry_wire(e),
{
    assert(m.push(e).drop_last() =~= m);
    assert(m.push(e).last() == e);
}

/// The status line on the wire: `HTTP/<ver> <code> <msg>` CR LF.
pub open spec fn status_line_wire(r: Response) -> Seq<u8> {
    http_prefix() + r.http_ver@ + seq![SP] + spec_dec_digits(r.status_code as nat) + seq![SP]
        + r.status_msg@ + crlf()
}

/// The whole serialized head: status line, header lines, the computed
/// `Content-Length`, and a blank line.
pub open spec fn wire_header(r: Response) -> Seq<u8> {
    status_line_wire(r) + headers_wire(headers_model(r.header@)) + content_length_label()
        + spec_dec_digits(r.content_length as nat) + crlf() + crlf()
}

/// The buffer size actually used for a drain: bumped up to the floor of
/// five million bytes when configured below one million.
pub open spec fn spec_effective_buffer(b: u64) -> u64 {
    if b < 1_000_000 {
        5_000_000u64
    } else {
        b
    }
}

/// The size of the next chunk: the remaining bytes, capped by the buffer.
pub open spec fn spec_next_chunk(buffer: int, total: int, sent: int) -> int {
    if total - sent < buffer {
        total - sent
    } else {
        buffer
    }
}

/// The buffer size actually used for a drain.
pub fn effective_buffer_size(b: u64) -> (r: u64)
    ensures
        r == spec_effective_buffer(b),
{
    if b < 1_000_000 {
        5_000_000
    } else {
        b
    }
}

/// The size of the next chunk of a drain of `total` bytes, of which
/// `sent` are already out.
pub fn next_chunk_size(buffer: u64, total: u64, sent: u64) -> (r: u64)
    requires
        sent <= total,
    ensures
        r == spec_next_chunk(buffer as int, total as int, sent as int),
{
    if total - sent < buffer {
        total - sent
    } else {
        buffer
    }
}

impl Response {
    /// Serializes the head, or reports that the response is not ready.
    pub fn build_header(&mut self) -> (r: Result<Vec<u8>, LibError>)
        ensures
            final(self).is_ready == (old(self).is_ready || old(self).spec_ready_fields()),
            eq_except_ready(*final(self), *old(self)),
            r is Ok <==> final(self).is_ready,
            r is Ok ==> r->Ok_0@ == wire_header(*old(self)),
            r is Err ==> r->Err_0 == LibError::NotReady,
    {
        let ready = self.check_ready();
        if !ready {
            return Err(LibError::NotReady);
        }
        let mut res: Vec<u8> = Vec::new();
        res.push(72);
        res.push(84);
        res.push(84);
        res.push(80);
        res.push(47);
        proof {
            assert(res@ =~= http_prefix());
        }
        ascii::append_bytes(&mut res, self.http_ver.as_slice());
        res.push(SP);
        let code_digits = ascii::dec_u64_bytes(self.status_code as u64);
        ascii::append_bytes(&mut res, code_digits.as_slice());
        res.push(SP);
        ascii::append_bytes(&mut res, self.status_msg.as_slice());
        res.push(CR);
        res.push(LF);
        proof {
            assert(res@ =~= status_line_wire(*old(self)));
        }
        let ghost base = res@;
        let ghost m = headers_model(self.header@);
        let n = self.header.len();
        let mut i: usize = 0;
        while i < n
            invariant
                i <= n,
                n == self.header@.len(),
                self.header@ == old(self).header@,
                m == headers_model(self.header@),
                res@ == base + headers_wire(m.take(i as int)),
            decreases n - i,
        {
            let ghost res_before = res@;
            ascii::append_bytes(&mut res, self.header[i].key.as_slice());
            res.push(COLON);
            res.push(SP);
            ascii::append_bytes(&mut res, self.header[i].value.as_slice());
            res.push(CR);
            res.push(LF);
            proof {
                assert(m[i as int] == (self.header@[i as int].key@, self.header@[i as int].value@));
                assert(res@ =~= res_before + header_entry_wire(m[i as int]));
                assert(m.take(i + 1 as int) =~= m.take(i as int).push(m[i as int]));
                lemma_headers_wire_push(m.take(i as int), m[i as int]);
                assert(res@ =~= base + headers_wire(m.take(i + 1 as int)));
            }
            i = i + 1;
        }
        proof {
            assert(m.take(n as int) =~= m);
        }
        let label = content_length_label_bytes();
        ascii::append_bytes(&mut res, label.as_slice());
        let len_digits = ascii::dec_u64_bytes(self.content_length);
        ascii::append_bytes(&mut res, len_digits.as_slice());
        res.push(CR);
        res.push(LF);
        res.push(CR);
        res.push(LF);
        proof {
            assert(res@ =~= wire_header(*old(self)));
        }
        Ok(res)
    }

    /// Emits the next chunk of the content source and how many bytes
    /// remain after it; chunks never exceed the effective buffer size,
    /// and the drain is complete exactly when no bytes remain.
    pub fn build_content(&mut self) -> (r: (Vec<u8>, u64))
        requires
            old(self).content_bound(),
        ensures
            final(self).content_bound(),
            final(self).read_buffer_size == spec_effective_buffer(old(self).read_buffer_size),
            final(self).bytes_read == old(self).bytes_read + spec_next_chunk(
                spec_effective_buffer(old(self).read_buffer_size) as int,
                old(self).content_length as int,
                old(self).bytes_read as int,
            ),
            r.0@ == old(self).content@.subrange(
                old(self).bytes_read as int,
                final(self).bytes_read as int,
            ),
            r.0@.len() <= spec_effective_buffer(old(self).read_buffer_size),
            r.1 == old(self).content_length - final(self).bytes_read,
            (r.1 == 0) <==> (final(self).bytes_read == old(self).content_length),
            final(self).http_ver@ == old(self).http_ver@,
            final(self).status_code == old(self).status_code,
            final(self).status_msg@ == old(self).status_msg@,
            final(self).header@ == old(self).header@,
            final(self).content@ == old(self).content@,
            final(self).content_length == old(self).content_length,
            final(self).is_ready == old(self).is_ready,
    {
        if self.read_buffer_size < 1_000_000 {
            self.read_buffer_size = 5_000_000;
        }
        let remaining = self.content_length - self.bytes_read;
        let numbytes: u64 = if remaining < self.read_buffer_size {
            remaining
        } else {
            self.read_buffer_size
        };
        let content_len: usize = self.content.len();
        proof {
            assert(self.bytes_read + numbytes <= content_len);
        }
        let start: usize = self.bytes_read as usize;
        let end: usize = (self.bytes_read + numbytes) as usize;
        let chunk = vstd::slice::slice_to_vec(
            vstd::slice::slice_subrange(self.content.as_slice(), start, end),
        );
        self.bytes_read = self.bytes_read + numbytes;
        let rest = self.content_length - self.bytes_read;
        (chunk, rest)
    }

    /// The status code.
    pub fn get_status_code(&self) -> (r: u16)
        ensures
            r == self.status_code,
    {
        self.status_code
    }

    /// The exact byte count of the content source.
    pub fn get_content_length(&self) -> (r: u64)
        ensures
            r == self.content_length,
    {
        self.content_length
    }
}

/// Setting the computed `Content-Length` through `add_header` changes
/// nothing.
pub proof fn lemma_add_header_content_length_noop(
    m: Seq<(Seq<u8>, Seq<u8>)>,
    k: Seq<u8>,
    v: Seq<u8>,
)
    requires
        is_content_length_key(k),
    ensures
        spec_add_header(m, k, v) == m,
{
}

/// Adding a header twice under one key (equal up to ASCII case) with two
/// values leaves exactly one header under that key, and it holds the
/// second value; the second call adds no entry.
pub proof fn lemma_add_header_last_write_wins(
    m: Seq<(Seq<u8>, Seq<u8>)>,
    k1: Seq<u8>,
    k2: Seq<u8>,
    v1: Seq<u8>,
    v2: Seq<u8>,
)
    requires
        eq_ignore_case(k1, k2),
        !is_content_length_key(k1),
        count_matching(m, k1) <= 1,
    ensures
        ({
            let m1 = spec_add_header(m, k1, v1);
            let m2 = spec_add_header(m1, k2, v2);
            &&& count_matching(m2, k2) == 1
            &&& 0 <= spec_find_header(m2, k2) < m2.len()
            &&& m2[spec_find_header(m2, k2)].1 == v2
            &&& m2.len() == m1.len()
        }),
{
    assert(!is_content_length_key(k2));
    assert(forall|x: Seq<u8>| eq_ignore_case(x, k1) <==> eq_ignore_case(x, k2));
    let m1 = spec_add_header(m, k1, v1);
    lemma_find_header(m, k1);
    let f = spec_find_header(m, k1);
    if f == -1 {
        assert(m1 == m.push((k1, v1)));
        lemma_count_zero(m, k1);
        lemma_count_push(m, k1, (k1, v1));
        assert(count_matching(m1, k1) == 1);
        lemma_count_equiv_key(m1, k1, k2);
        assert forall|j: int| 0 <= j < m.len() implies !eq_ignore_case(
            #[trigger] m1[j].0,
            k2,
        ) by {
            assert(m1[j] == m[j]);
        }
        assert(m1[m.len() as int] == (k1, v1));
        lemma_find_header_at(m1, k2, m.len() as int);
        let m2 = spec_add_header(m1, k2, v2);
        assert(m2 == m1.update(m.len() as int, (k1, v2)));
        lemma_count_update(m1, k2, m.len() as int, (k1, v2));
        assert(count_matching(m2, k2) == 1);
        assert forall|j: int| 0 <= j < m.len() implies !eq_ignore_case(
            #[trigger] m2[j].0,
            k2,
        ) by {
            assert(m2[j] == m[j]);
        }
        lemma_find_header_at(m2, k2, m.len() as int);
        assert(m2[spec_find_header(m2, k2)].1 == v2);
    } else {
        assert(m1 == m.update(f, (m[f].0, v1)));
        lemma_count_at_least_one(m, k1, f);
        lemma_count_update(m, k1, f, (m[f].0, v1));
        assert(count_matching(m1, k1) == 1);
        lemma_count_equiv_key(m1, k1, k2);
        assert forall|j: int| 0 <= j < f implies !eq_ignore_case(#[trigger] m1[j].0, k2) by {
            assert(m1[j] == m[j]);
        }
        assert(m1[f].0 == m[f].0);
        lemma_find_header_at(m1, k2, f);
        let m2 = spec_add_header(m1, k2, v2);
        assert(m2 == m1.update(f, (m1[f].0, v2)));
        lemma_count_update(m1, k2, f, (m1[f].0, v2));
        assert(count_matching(m2, k2) == 1);
        assert forall|j: int| 0 <= j < f implies !eq_ignore_case(#[trigger] m2[j].0, k2) by {
            assert(m2[j] == m[j]);
        }
        lemma_find_header_at(m2, k2, f);
        assert(m2[spec_find_header(m2, k2)].1 == v2);
    }
}

/// Bytes emitted after `k` chunks of a drain of `total` bytes through a
/// buffer of `buffer` bytes.
pub open spec fn spec_sent_after(buffer: int, total: int, k: nat) -> int
    decreases k,
{
    if k == 0 {
        0
    } else {
        let p = spec_sent_after(buffer, total, (k - 1) as nat);
        p + spec_next_chunk(buffer, total, p)
    }
}

/// A drain neither overshoots nor stalls: what is emitted never passes
/// the total and reaches it after at most `total` chunks.
pub proof fn lemma_drain_progress(buffer: int, total: int, k: nat)
    requires
        buffer >= 1,
        total >= 0,
    ensures
        0 <= spec_sent_after(buffer, total, k) <= total,
        spec_sent_after(buffer, total, k) >= if k as int <= total {
            k as int
        } else {
            total
        },
    decreases k,
{
    if k > 0 {
        lemma_drain_progress(buffer, total, (k - 1) as nat);
    }
}

/// Large-file streaming: no chunk of a drain exceeds the buffer in use,
/// and the chunks of a complete drain sum to exactly the total.
pub proof fn lemma_streaming_bounded_and_exact(buffer: u64, total: u64, k: nat)
    requires
        buffer >= 1,
        k >= total,
    ensures
        forall|sent: int|
            0 <= sent <= total ==> 0 <= #[trigger] spec_next_chunk(
                buffer as int,
                total as int,
                sent,
            ) <= buffer,
        spec_sent_after(buffer as int, total as int, k) == total,
{
    lemma_drain_progress(buffer as int, total as int, k);
}

/// Round trip of head and content: the `Content-Length` digits embedded
/// in the serialized head denote exactly the number of content bytes
/// that a complete drain of the content source emits, for any content
/// size, under or over the buffer in use.
pub proof fn lemma_round_trip(r: Response, k: nat)
    requires
        r.content_bound(),
        k >= r.content_length,
    ensures
        ascii::spec_dec_value(spec_dec_digits(r.content_length as nat)) == r.content@.len(),
        spec_sent_after(
            spec_effective_buffer(r.read_buffer_size) as int,
            r.content_length as int,
            k,
        ) == r.content@.len(),
{
    ascii::lemma_dec_digits_value(r.content_length as nat);
    lemma_drain_progress(
        spec_effective_buffer(r.read_buffer_size) as int,
        r.content_length as int,
        k,
    );
}

/// The bytes `Content-Length: `.
pub fn content_length_label_bytes() -> (r: Vec<u8>)
    ensures
        r@ == content_length_label(),
{
    let mut r: Vec<u8> = Vec::new();
    r.push(67);
    r.push(111);
    r.push(110);
    r.push(116);
    r.push(101);
    r.push(110);
    r.push(116);
    r.push(45);
    r.push(76);
    r.push(101);
    r.push(110);
    r.push(103);
    r.push(116);
    r.push(104);
    r.push(58);
    r.push(32);
    proof {
        assert(r@ =~= content_length_label());
    }
    r
}

} // verus!
