use vstd::prelude::*;
use vstd::slice::slice_subrange;
use vstd::utf8::valid_utf8;
use crate::amf0::{decode_lossy, lossy_utf8};

verus! {

/// Relies on `std::str::from_utf8`: it succeeds exactly on valid UTF-8.
#[verifier::external_body]
fn is_utf8(b: &[u8]) -> (r: bool)
    ensures
        r == valid_utf8(b@),
{
    std::str::from_utf8(b).is_ok()
}

/// The request method.
#[derive(Debug, Clone, Copy, PartialEq, Eq, Structural)]
pub enum HttpRequestType {
    GET,
    POST,
}

/// Why a request could not be read.
#[derive(Debug, Clone, Copy, PartialEq, Eq, Structural)]
pub enum HttpError {
    NotUtf8,
    MissingFirstLine,
    MissingRequestType,
    UnknownRequestType,
    MissingPath,
    MissingVersion,
    VersionTooShort,
    InvalidVersion,
    InvalidNumber,
    MissingNumber,
}

/// A request line and its header fields. Field names are unique; a later
/// field replaces an earlier one of the same name.
pub struct HttpReq {
    pub req_type: HttpRequestType,
    pub path: String,
    pub major_version: u32,
    pub minor_version: u32,
    pub addition_param: Vec<(String, String)>,
    pub ori_data: String,
}

/// The value of an [`HttpReq`].
pub struct HttpReqView {
    pub req_type: HttpRequestType,
    pub path: Seq<char>,
    pub major_version: u32,
    pub minor_version: u32,
    pub addition_param: Map<Seq<char>, Seq<char>>,
    pub ori_data: Seq<char>,
}

/// The map that a list of (name, value) pairs stands for.
pub open spec fn params_view(es: Seq<(String, String)>) -> Map<Seq<char>, Seq<char>>
    decreases es.len(),
{
    if es.len() == 0 {
        Map::empty()
    } else {
        params_view(es.drop_last()).insert(es.last().0@, es.last().1@)
    }
}

impl View for HttpReq {
    type V = HttpReqView;

    open spec fn view(&self) -> HttpReqView {
        HttpReqView {
            req_type: self.req_type,
            path: self.path@,
            major_version: self.major_version,
            minor_version: self.minor_version,
            addition_param: params_view(self.addition_param@),
            ori_data: self.ori_data@,
        }
    }
}

/// ASCII whitespace: space, tab, line feed, form feed, carriage return.
pub open spec fn is_ws(b: u8) -> bool {
    b == 32 || b == 9 || b == 10 || b == 12 || b == 13
}

/// The first index from `i` on that holds `c`, or the length.
pub open spec fn find_byte(s: Seq<u8>, c: u8, i: int) -> int
    decreases s.len() - i,
{
    if i >= s.len() {
        s.len() as int
    } else if s[i] == c {
        i
    } else {
        find_byte(s, c, i + 1)
    }
}

/// The first index from `i` on whose byte is whitespace (`ws`) or is not
/// (`!ws`), or the length.
pub open spec fn scan_ws(s: Seq<u8>, i: int, ws: bool) -> int
    decreases s.len() - i,
{
    if i >= s.len() {
        s.len() as int
    } else if is_ws(s[i]) == ws {
        i
    } else {
        scan_ws(s, i + 1, ws)
    }
}

/// A line without its terminator: a carriage return before a line feed is
/// dropped with it.
pub open spec fn strip_cr(l: Seq<u8>, had_lf: bool) -> Seq<u8> {
    if had_lf && l.len() > 0 && l.last() == 13 {
        l.drop_last()
    } else {
        l
    }
}

/// The value of a run of decimal digits.
pub open spec fn digits_value(s: Seq<u8>) -> nat
    decreases s.len(),
{
    if s.len() == 0 {
        0
    } else {
        (digits_value(s.drop_last()) * 10 + (s.last() - 48)) as nat
    }
}

pub open spec fn all_digits(s: Seq<u8>) -> bool {
    forall|i: int| 0 <= i < s.len() ==> 48 <= #[trigger] s[i] <= 57
}

/// The digits of a decimal number: `s` without a leading `+`, where more follows.
pub open spec fn unsigned_digits(s: Seq<u8>) -> Seq<u8> {
    if s.len() > 1 && s[0] == 43 {
        s.subrange(1, s.len() as int)
    } else {
        s
    }
}

/// A decimal `u32`, with an optional leading `+`.
pub open spec fn spec_parse_u32(s: Seq<u8>) -> Option<u32> {
    let t = unsigned_digits(s);
    if t.len() == 0 || !all_digits(t) || digits_value(t) > u32::MAX {
        None
    } else {
        Some(digits_value(t) as u32)
    }
}

/// The header fields of the lines from `p` on, added to `m`, up to the first
/// empty line; a line without `:` is skipped.
pub open spec fn spec_headers(b: Seq<u8>, p: int, m: Map<Seq<char>, Seq<char>>) -> Map<
    Seq<char>,
    Seq<char>,
>
    decreases b.len() - p,
{
    if p < 0 || p >= b.len() {
        m
    } else {
        let e = find_byte(b, 10, p);
        if e < p {
            m
        } else {
            let l = strip_cr(b.subrange(p, e), e < b.len());
            if l.len() == 0 {
                m
            } else {
                let c = find_byte(l, 58, 0);
                let m2 = if c < l.len() {
                    m.insert(
                        lossy_utf8(l.subrange(0, c)),
                        lossy_utf8(l.subrange(c + 1, l.len() as int)),
                    )
                } else {
                    m
                };
                if e < b.len() {
                    spec_headers(b, e + 1, m2)
                } else {
                    m2
                }
            }
        }
    }
}

/// The version numbers after `HTTP/`: major and minor, separated by dots;
/// anything after the minor number is ignored.
pub open spec fn spec_version(nums: Seq<u8>) -> Result<(u32, u32), HttpError> {
    let d1 = find_byte(nums, 46, 0);
    match spec_parse_u32(nums.subrange(0, d1)) {
        None => Err(HttpError::InvalidNumber),
        Some(major) => {
            if d1 >= nums.len() {
                Err(HttpError::MissingNumber)
            } else {
                let d2 = find_byte(nums, 46, d1 + 1);
                match spec_parse_u32(nums.subrange(d1 + 1, d2)) {
                    None => Err(HttpError::InvalidNumber),
                    Some(minor) => Ok((major, minor)),
                }
            }
        },
    }
}

/// A request: valid UTF-8 whose first line holds the method (`GET` or
/// `POST`), the path and `HTTP/<major>.<minor>`, separated by whitespace,
/// followed by header lines.
pub open spec fn spec_http_req(b: Seq<u8>) -> Result<HttpReqView, HttpError> {
    if !valid_utf8(b) {
        Err(HttpError::NotUtf8)
    } else if b.len() == 0 {
        Err(HttpError::MissingFirstLine)
    } else {
        let e = find_byte(b, 10, 0);
        let line = strip_cr(b.subrange(0, e), e < b.len());
        let s0 = scan_ws(line, 0, false);
        let e0 = scan_ws(line, s0, true);
        let w0 = line.subrange(s0, e0);
        let s1 = scan_ws(line, e0, false);
        let e1 = scan_ws(line, s1, true);
        let s2 = scan_ws(line, e1, false);
        let e2 = scan_ws(line, s2, true);
        let v = line.subrange(s2, e2);
        if s0 >= line.len() {
            Err(HttpError::MissingRequestType)
        } else if w0 != seq![71u8, 69, 84] && w0 != seq![80u8, 79, 83, 84] {
            Err(HttpError::UnknownRequestType)
        } else if s1 >= line.len() {
            Err(HttpError::MissingPath)
        } else if s2 >= line.len() {
            Err(HttpError::MissingVersion)
        } else if v.len() < 5 {
            Err(HttpError::VersionTooShort)
        } else if v.subrange(0, 5) != seq![72u8, 84, 84, 80, 47] {
            Err(HttpError::InvalidVersion)
        } else {
            match spec_version(v.subrange(5, v.len() as int)) {
                Err(err) => Err(err),
                Ok((major, minor)) => Ok(
                    HttpReqView {
                        req_type: if w0.len() == 3 {
                            HttpRequestType::GET
                        } else {
                            HttpRequestType::POST
                        },
                        path: lossy_utf8(line.subrange(s1, e1)),
                        major_version: major,
                        minor_version: minor,
                        addition_param: spec_headers(b, e + 1, Map::empty()),
                        ori_data: lossy_utf8(b),
                    },
                ),
            }
        }
    }
}

/// Whether no two pairs of `es` have the same name.
pub open spec fn unique_names(es: Seq<(String, String)>) -> bool {
    forall|i: int, j: int| 0 <= i < j < es.len() ==> es[i].0@ != es[j].0@
}

proof fn lemma_params_view_update(es: Seq<(String, String)>, j: int, p: (String, String))
    requires
        unique_names(es),
        0 <= j < es.len(),
        es[j].0@ == p.0@,
    ensures
        params_view(es.update(j, p)) == params_view(es).insert(p.0@, p.1@),
    decreases es.len(),
{
    let n = es.len() - 1;
    let es2 = es.update(j, p);
    assert(es2.drop_last() =~= if j == n {
        es.drop_last()
    } else {
        es.drop_last().update(j, p)
    });
    if j == n {
        assert(params_view(es2) =~= params_view(es).insert(p.0@, p.1@));
    } else {
        assert(unique_names(es.drop_last()));
        lemma_params_view_update(es.drop_last(), j, p);
        assert(es[n].0@ != p.0@);
        assert(params_view(es2) =~= params_view(es).insert(p.0@, p.1@));
    }
}

/// Adds the field `(k, v)`, replacing the value of an equal name.
fn insert_param(es: &mut Vec<(String, String)>, k: String, v: String)
    requires
        unique_names(old(es)@),
    ensures
        unique_names(final(es)@),
        params_view(final(es)@) == params_view(old(es)@).insert(k@, v@),
{
    let n = es.len();
    let mut i: usize = 0;
    while i < n
        invariant
            i <= n == es@.len(),
            es@ == old(es)@,
            unique_names(es@),
            forall|q: int| 0 <= q < i ==> es@[q].0@ != k@,
        decreases n - i,
    {
        if es[i].0 == k {
            proof {
                lemma_params_view_update(es@, i as int, (k, v));
            }
            es[i] = (k, v);
            return;
        }
        i = i + 1;
    }
    proof {
        assert(es@.push((k, v)).drop_last() =~= es@);
    }
    es.push((k, v));
}

/// The first index from `i` on that holds `c`, or the length.
fn find_byte_from(s: &[u8], c: u8, i: usize) -> (r: usize)
    requires
        i <= s@.len(),
    ensures
        r as int == find_byte(s@, c, i as int),
        i <= r <= s@.len(),
{
    let n = s.len();
    let mut j = i;
    while j < n
        invariant
            i <= j <= n == s@.len(),
            find_byte(s@, c, i as int) == find_byte(s@, c, j as int),
        decreases n - j,
    {
        if s[j] == c {
            return j;
        }
        j = j + 1;
    }
    j
}

/// The first index from `i` on whose byte is whitespace (`ws`) or is not
/// (`!ws`), or the length.
fn scan_ws_from(s: &[u8], i: usize, ws: bool) -> (r: usize)
    requires
        i <= s@.len(),
    ensures
        r as int == scan_ws(s@, i as int, ws),
        i <= r <= s@.len(),
{
    let n = s.len();
    let mut j = i;
    while j < n
        invariant
            i <= j <= n == s@.len(),
            scan_ws(s@, i as int, ws) == scan_ws(s@, j as int, ws),
        decreases n - j,
    {
        let b = s[j];
        let w = b == 32 || b == 9 || b == 10 || b == 12 || b == 13;
        if w == ws {
            return j;
        }
        j = j + 1;
    }
    j
}

proof fn lemma_digits_mono(s: Seq<u8>, j: int, k: int)
    requires
        all_digits(s),
        0 <= j <= k <= s.len(),
    ensures
        digits_value(s.subrange(0, j)) <= digits_value(s.subrange(0, k)),
    decreases k - j,
{
    if j < k {
        lemma_digits_mono(s, j, k - 1);
        assert(s.subrange(0, k).drop_last() =~= s.subrange(0, k - 1));
    }
}

/// Reads a decimal `u32` with an optional leading `+`.
pub fn parse_u32(s: &[u8]) -> (r: Option<u32>)
    ensures
        r == spec_parse_u32(s@),
{
    let n = s.len();
    let start: usize = if n > 1 && s[0] == 43 {
        1
    } else {
        0
    };
    let t = slice_subrange(s, start, n);
    let m = n - start;
    proof {
        assert(t@ =~= unsigned_digits(s@));
    }
    if m == 0 {
        return None;
    }
    let mut i: usize = 0;
    while i < m
        invariant
            i <= m == t@.len(),
            t@ == unsigned_digits(s@),
            forall|k: int| 0 <= k < i ==> 48 <= #[trigger] t@[k] <= 57,
        decreases m - i,
    {
        if t[i] < 48 || t[i] > 57 {
            assert(!all_digits(t@));
            return None;
        }
        i = i + 1;
    }
    let mut acc: u64 = 0;
    i = 0;
    proof {
        assert(t@.subrange(0, 0) =~= Seq::<u8>::empty());
    }
    while i < m
        invariant
            i <= m == t@.len(),
            t@ == unsigned_digits(s@),
            all_digits(t@),
            acc as int == digits_value(t@.subrange(0, i as int)),
            acc <= u32::MAX,
        decreases m - i,
    {
        proof {
            assert(t@.subrange(0, i + 1).drop_last() =~= t@.subrange(0, i as int));
        }
        acc = acc * 10 + (t[i] - 48) as u64;
        assert(acc as int == digits_value(t@.subrange(0, i + 1)));
        if acc > u32::MAX as u64 {
            proof {
                lemma_digits_mono(t@, i + 1, m as int);
                assert(t@.subrange(0, m as int) =~= t@);
            }
            return None;
        }
        i = i + 1;
    }
    proof {
        assert(t@.subrange(0, m as int) =~= t@);
    }
    Some(acc as u32)
}

/// Reads the version numbers that follow `HTTP/`.
fn parse_version(nums: &[u8]) -> (r: Result<(u32, u32), HttpError>)
    ensures
        r == spec_version(nums@),
{
    let n = nums.len();
    let d1 = find_byte_from(nums, 46, 0);
    let major = match parse_u32(slice_subrange(nums, 0, d1)) {
        Some(v) => v,
        None => return Err(HttpError::InvalidNumber),
    };
    if d1 >= n {
        return Err(HttpError::MissingNumber);
    }
    let d2 = find_byte_from(nums, 46, d1 + 1);
    let minor = match parse_u32(slice_subrange(nums, d1 + 1, d2)) {
        Some(v) => v,
        None => return Err(HttpError::InvalidNumber),
    };
    Ok((major, minor))
}

/// Reads the header fields of the lines from `p0` on.
fn parse_headers(b: &[u8], p0: usize) -> (es: Vec<(String, String)>)
    requires
        p0 <= b@.len(),
    ensures
        unique_names(es@),
        params_view(es@) == spec_headers(b@, p0 as int, Map::empty()),
{
    let len = b.len();
    let mut es: Vec<(String, String)> = Vec::new();
    let mut p = p0;
    proof {
        assert(params_view(es@) =~= Map::empty());
    }
    while p < len
        invariant
            p <= len == b@.len(),
            unique_names(es@),
            spec_headers(b@, p0 as int, Map::empty()) == spec_headers(
                b@,
                p as int,
                params_view(es@),
            ),
        decreases len - p,
    {
        let e = find_byte_from(b, 10, p);
        let le = if e < len && e > p && b[e - 1] == 13 {
            e - 1
        } else {
            e
        };
        let l = slice_subrange(b, p, le);
        proof {
            assert(l@ =~= strip_cr(b@.subrange(p as int, e as int), e < len));
        }
        if le == p {
            return es;
        }
        let ln = le - p;
        let c = find_byte_from(l, 58, 0);
        if c < ln {
            let k = decode_lossy(slice_subrange(l, 0, c));
            let v = decode_lossy(slice_subrange(l, c + 1, ln));
            insert_param(&mut es, k, v);
        }
        if e >= len {
            return es;
        }
        p = e + 1;
    }
    es
}

impl HttpReq {
    /// Reads a request from the bytes received.
    pub fn parse(buffer: &[u8]) -> (r: Result<HttpReq, HttpError>)
        ensures
            match r {
                Ok(q) => spec_http_req(buffer@) == Ok::<_, HttpError>(q@),
                Err(e) => spec_http_req(buffer@) == Err::<HttpReqView, _>(e),
            },
    {
        if !is_utf8(buffer) {
            return Err(HttpError::NotUtf8);
        }
        let len = buffer.len();
        if len == 0 {
            return Err(HttpError::MissingFirstLine);
        }
        let e = find_byte_from(buffer, 10, 0);
        let n = if e < len && e > 0 && buffer[e - 1] == 13 {
            e - 1
        } else {
            e
        };
        let line = slice_subrange(buffer, 0, n);
        proof {
            assert(line@ =~= strip_cr(buffer@.subrange(0, e as int), e < len));
        }
        let s0 = scan_ws_from(line, 0, false);
        let e0 = scan_ws_from(line, s0, true);
        let s1 = scan_ws_from(line, e0, false);
        let e1 = scan_ws_from(line, s1, true);
        let s2 = scan_ws_from(line, e1, false);
        let e2 = scan_ws_from(line, s2, true);
        if s0 >= n {
            return Err(HttpError::MissingRequestType);
        }
        let w0 = slice_subrange(line, s0, e0);
        let is_get = e0 - s0 == 3 && w0[0] == 71 && w0[1] == 69 && w0[2] == 84;
        let is_post = e0 - s0 == 4 && w0[0] == 80 && w0[1] == 79 && w0[2] == 83 && w0[3] == 84;
        proof {
            if is_get {
                assert(w0@ =~= seq![71u8, 69, 84]);
            }
            if is_post {
                assert(w0@ =~= seq![80u8, 79, 83, 84]);
            }
        }
        if !is_get && !is_post {
            return Err(HttpError::UnknownRequestType);
        }
        if s1 >= n {
            return Err(HttpError::MissingPath);
        }
        if s2 >= n {
            return Err(HttpError::MissingVersion);
        }
        let v = slice_subrange(line, s2, e2);
        let vn = e2 - s2;
        if vn < 5 {
            return Err(HttpError::VersionTooShort);
        }
        let is_http = v[0] == 72 && v[1] == 84 && v[2] == 84 && v[3] == 80 && v[4] == 47;
        proof {
            if is_http {
                assert(v@.subrange(0, 5) =~= seq![72u8, 84, 84, 80, 47]);
            } else {
                assert(v@.subrange(0, 5) != seq![72u8, 84, 84, 80, 47]) by {
                    if v@.subrange(0, 5) == seq![72u8, 84, 84, 80, 47] {
                        assert(v@.subrange(0, 5)[0] == v@[0]);
                        assert(v@.subrange(0, 5)[1] == v@[1]);
                        assert(v@.subrange(0, 5)[2] == v@[2]);
                        assert(v@.subrange(0, 5)[3] == v@[3]);
                        assert(v@.subrange(0, 5)[4] == v@[4]);
                    }
                }
            }
        }
        if !is_http {
            return Err(HttpError::InvalidVersion);
        }
        let (major_version, minor_version) = match parse_version(slice_subrange(v, 5, vn)) {
            Ok(p) => p,
            Err(err) => return Err(err),
        };
        let path = decode_lossy(slice_subrange(line, s1, e1));
        let p0 = if e < len {
            e + 1
        } else {
            len
        };
        let addition_param = parse_headers(buffer, p0);
        let ori_data = decode_lossy(buffer);
        let req_type = if is_get {
            HttpRequestType::GET
        } else {
            HttpRequestType::POST
        };
        Ok(HttpReq { req_type, path, major_version, minor_version, addition_param, ori_data })
    }
}

} // verus!
