//! HTTP/1.1 request and response messages: start lines, header blocks,
//! bodies, and builders (RFC 9112).
use vstd::prelude::*;
use vstd::string::StringSliceAdditionalSpecFns;
use vstd::string::StrSliceExecFns;
use vstd::string::StringExecFns;
use vstd::utf8::{decode_utf8, encode_utf8, valid_utf8};

use crate::formdata::{
    parse_header_region,
    spec_crlf,
    spec_header_lines,
    spec_headers_exact,
    spec_region_has_bad_line,
    Body,
    FormData,
};
use crate::header::{
    spec_key_chars,
    Header,
    HeaderKey,
    ParseHttpError,
    utf8_to_string,
};
use crate::wire::{copy_range, find_byte, find_from, match_at, spec_find_byte};

verus! {

/// The blank-line separator between the head and the body.
pub open spec fn spec_blank_line() -> Seq<u8> {
    seq![13u8, 10u8, 13u8, 10u8]
}

/// The first occurrence of a pattern.
pub open spec fn spec_first_at(d: Seq<u8>, pat: Seq<u8>, p: int) -> bool {
    &&& match_at(d, p, pat)
    &&& forall|j: int| 0 <= j < p ==> !match_at(d, j, pat)
}

/// Two header keys with the same spelling.  The header collection of a
/// message is a mapping on spellings: adding a header under a spelling
/// already present replaces that header's value.
pub open spec fn spec_same_key(a: HeaderKey, b: HeaderKey) -> bool {
    spec_key_chars(a) == spec_key_chars(b)
}

/// The headers after adding one under the mapping discipline: the
/// first header with the same key spelling, when one is present, is
/// replaced in place; a new spelling is appended.
pub open spec fn spec_headers_put_rel(hs: Seq<Header>, h: Header, r: Seq<Header>) -> bool {
    if exists|j: int| 0 <= j < hs.len() && spec_same_key(#[trigger] hs[j].key, h.key) {
        exists|j: int|
            {
                &&& 0 <= j < hs.len()
                &&& spec_same_key(#[trigger] hs[j].key, h.key)
                &&& forall|t: int| 0 <= t < j ==> !spec_same_key(hs[t].key, h.key)
                &&& r == hs.update(j, h)
            }
    } else {
        r == hs.push(h)
    }
}

#[derive(Debug, Clone, Copy, PartialEq, Eq, Structural)]
pub enum RequestMethod {
    CONNECT,
    DELETE,
    GET,
    HEAD,
    OPTIONS,
    PATCH,
    POST,
    PUT,
    TRACE,
}

/// The characters of a method's spelling.
pub open spec fn spec_method_chars(m: RequestMethod) -> Seq<char> {
    if (m matches RequestMethod::CONNECT) {
        ("CONNECT")@
    } else if (m matches RequestMethod::DELETE) {
        ("DELETE")@
    } else if (m matches RequestMethod::GET) {
        ("GET")@
    } else if (m matches RequestMethod::HEAD) {
        ("HEAD")@
    } else if (m matches RequestMethod::OPTIONS) {
        ("OPTIONS")@
    } else if (m matches RequestMethod::PATCH) {
        ("PATCH")@
    } else if (m matches RequestMethod::POST) {
        ("POST")@
    } else if (m matches RequestMethod::PUT) {
        ("PUT")@
    } else {
        ("TRACE")@
    }
}

/// The method a byte spelling denotes, if any.
pub open spec fn spec_parse_method(bytes: Seq<u8>) -> Option<RequestMethod> {
    if bytes == "CONNECT".spec_bytes() {
        Some(RequestMethod::CONNECT)
    } else if bytes == "DELETE".spec_bytes() {
        Some(RequestMethod::DELETE)
    } else if bytes == "GET".spec_bytes() {
        Some(RequestMethod::GET)
    } else if bytes == "HEAD".spec_bytes() {
        Some(RequestMethod::HEAD)
    } else if bytes == "OPTIONS".spec_bytes() {
        Some(RequestMethod::OPTIONS)
    } else if bytes == "PATCH".spec_bytes() {
        Some(RequestMethod::PATCH)
    } else if bytes == "POST".spec_bytes() {
        Some(RequestMethod::POST)
    } else if bytes == "PUT".spec_bytes() {
        Some(RequestMethod::PUT)
    } else if bytes == "TRACE".spec_bytes() {
        Some(RequestMethod::TRACE)
    } else {
        None
    }
}

impl RequestMethod {
    /// The spelling, as bytes.
    pub fn to_bytes(self) -> (r: Vec<u8>)
        ensures
            r@ == encode_utf8(spec_method_chars(self)),
    {
        match self {
            RequestMethod::CONNECT => "CONNECT".as_bytes_vec(),
            RequestMethod::DELETE => "DELETE".as_bytes_vec(),
            RequestMethod::GET => "GET".as_bytes_vec(),
            RequestMethod::HEAD => "HEAD".as_bytes_vec(),
            RequestMethod::OPTIONS => "OPTIONS".as_bytes_vec(),
            RequestMethod::PATCH => "PATCH".as_bytes_vec(),
            RequestMethod::POST => "POST".as_bytes_vec(),
            RequestMethod::PUT => "PUT".as_bytes_vec(),
            RequestMethod::TRACE => "TRACE".as_bytes_vec(),
        }
    }

    /// Recognizes a spelling.
    pub fn from_bytes(b: &[u8]) -> (r: Result<RequestMethod, ParseHttpError>)
        ensures
            match r {
                Ok(m) => spec_parse_method(b@) == Some(m),
                Err(e) => spec_parse_method(b@) == None::<RequestMethod> && e
                    == ParseHttpError::InvalidHttpMethod,
            },
    {
        if crate::wire::eq_bytes(b, "CONNECT".as_bytes()) {
            return Ok(RequestMethod::CONNECT);
        }
        if crate::wire::eq_bytes(b, "DELETE".as_bytes()) {
            return Ok(RequestMethod::DELETE);
        }
        if crate::wire::eq_bytes(b, "GET".as_bytes()) {
            return Ok(RequestMethod::GET);
        }
        if crate::wire::eq_bytes(b, "HEAD".as_bytes()) {
            return Ok(RequestMethod::HEAD);
        }
        if crate::wire::eq_bytes(b, "OPTIONS".as_bytes()) {
            return Ok(RequestMethod::OPTIONS);
        }
        if crate::wire::eq_bytes(b, "PATCH".as_bytes()) {
            return Ok(RequestMethod::PATCH);
        }
        if crate::wire::eq_bytes(b, "POST".as_bytes()) {
            return Ok(RequestMethod::POST);
        }
        if crate::wire::eq_bytes(b, "PUT".as_bytes()) {
            return Ok(RequestMethod::PUT);
        }
        if crate::wire::eq_bytes(b, "TRACE".as_bytes()) {
            return Ok(RequestMethod::TRACE);
        }
        Err(ParseHttpError::InvalidHttpMethod)
    }
}

/// The decimal digits of a number, most significant first.
pub open spec fn spec_dec_digits(v: nat) -> Seq<u8>
    decreases v,
{
    if v < 10 {
        seq![(48 + v) as u8]
    } else {
        spec_dec_digits(v / 10) + seq![(48 + v % 10) as u8]
    }
}

/// Appends the decimal digits of `v`.
pub fn push_dec(out: &mut Vec<u8>, v: u32)
    ensures
        final(out)@ =~= old(out)@ + spec_dec_digits(v as nat),
    decreases v,
{
    if v < 10 {
        out.push(48 + v as u8);
    } else {
        proof {
            assert(v / 10 < v) by (nonlinear_arith)
                requires
                    v >= 10,
            ;
        }
        push_dec(out, v / 10);
        out.push(48 + (v % 10) as u8);
    }
}

/// The value of a digit string.
pub open spec fn spec_dec_val(s: Seq<u8>) -> nat
    decreases s.len(),
{
    if s.len() == 0 {
        0
    } else {
        spec_dec_val(s.drop_last()) * 10 + (s.last() - 48) as nat
    }
}

/// Every byte is an ASCII digit.
pub open spec fn spec_all_digits(s: Seq<u8>) -> bool {
    forall|j: int| 0 <= j < s.len() ==> 48 <= #[trigger] s[j] <= 57
}

/// Reads a decimal number.
pub fn parse_u32_dec(bytes: &[u8]) -> (r: Option<u32>)
    ensures
        match r {
            Some(v) => {
                &&& spec_all_digits(bytes@)
                &&& bytes@.len() >= 1
                &&& v == spec_dec_val(bytes@)
            },
            None => !spec_all_digits(bytes@) || bytes@.len() == 0 || spec_dec_val(bytes@)
                > u32::MAX,
        },
{
    let n = bytes.len();
    if n == 0 {
        return None;
    }
    let mut val: u64 = 0;
    let mut i: usize = 0;
    proof {
        assert(bytes@.subrange(0, 0) =~= Seq::<u8>::empty());
    }
    while i < n
        invariant
            i <= n,
            n == bytes@.len(),
            spec_all_digits(bytes@.subrange(0, i as int)),
            val == spec_dec_val(bytes@.subrange(0, i as int)),
            val <= u32::MAX,
        decreases n - i,
    {
        let b = bytes[i];
        if b < 48 || b > 57 {
            return None;
        }
        let d: u64 = (b - 48) as u64;
        let ghost pre = bytes@.subrange(0, i as int);
        proof {
            assert(bytes@.subrange(0, i + 1).drop_last() =~= pre);
            assert(bytes@.subrange(0, i + 1).last() == bytes@[i as int]);
        }
        if val > (u32::MAX as u64 - d) / 10 {
            proof {
                assert(val * 10 + d > u32::MAX) by (nonlinear_arith)
                    requires
                        val > (u32::MAX as u64 - d) / 10,
                        d <= 9,
                ;
                lemma_dec_val_monotone(bytes@, i + 1);
            }
            return None;
        }
        proof {
            assert(val * 10 + d <= u32::MAX) by (nonlinear_arith)
                requires
                    val <= (u32::MAX as u64 - d) / 10,
                    d <= 9,
            ;
        }
        val = val * 10 + d;
        i = i + 1;
    }
    proof {
        assert(bytes@.subrange(0, n as int) =~= bytes@);
    }
    Some(val as u32)
}

/// A longer digit string has at least the value of its prefix.
proof fn lemma_dec_val_monotone(s: Seq<u8>, i: int)
    requires
        0 <= i <= s.len(),
    ensures
        spec_dec_val(s) >= spec_dec_val(s.subrange(0, i)),
    decreases s.len() - i,
{
    if i < s.len() {
        lemma_dec_val_monotone(s, i + 1);
        let a = s.subrange(0, i);
        let b = s.subrange(0, i + 1);
        assert(b.drop_last() =~= a);
        assert(spec_dec_val(b) == spec_dec_val(a) * 10 + ((b.last() - 48) as nat));
        assert(spec_dec_val(a) * 10 >= spec_dec_val(a)) by (nonlinear_arith)
            requires
                spec_dec_val(a) >= 0,
        ;
    } else {
        assert(s.subrange(0, i) =~= s);
    }
}

/// A request start line: method, path, protocol version.
#[derive(Debug, Clone)]
pub struct RequestStartLine {
    pub method: RequestMethod,
    pub path: String,
    pub version: String,
}

/// The exact relation between a request start line and its parse.
pub open spec fn spec_request_line_ok(line: Seq<u8>, sl: RequestStartLine) -> bool {
    spec_find_byte(line, 32) matches Some(s1) && {
        &&& spec_parse_method(line.subrange(0, s1)) == Some(sl.method)
        &&& spec_find_byte(line.skip(s1 + 1), 32) matches Some(s2) && {
            &&& valid_utf8(line.skip(s1 + 1).subrange(0, s2))
            &&& sl.path@ == decode_utf8(line.skip(s1 + 1).subrange(0, s2))
            &&& valid_utf8(line.skip(s1 + 1).skip(s2 + 1))
            &&& sl.version@ == decode_utf8(line.skip(s1 + 1).skip(s2 + 1))
            &&& spec_find_byte(line.skip(s1 + 1).skip(s2 + 1), 32) == None::<int>
        }
    }
}

/// A request start line the parser rejects: no space, an unrecognized
/// method, no second space, a third space, or a part that is not UTF-8.
pub open spec fn spec_request_line_bad(line: Seq<u8>) -> bool {
    match spec_find_byte(line, 32) {
        None => true,
        Some(s1) => spec_parse_method(line.subrange(0, s1)) == None::<RequestMethod> || (
        match spec_find_byte(line.skip(s1 + 1), 32) {
            None => true,
            Some(s2) => {
                ||| spec_find_byte(line.skip(s1 + 1).skip(s2 + 1), 32) matches Some(_)
                ||| !valid_utf8(line.skip(s1 + 1).subrange(0, s2))
                ||| !valid_utf8(line.skip(s1 + 1).skip(s2 + 1))
            },
        }),
    }
}

/// A response start line the parser rejects: fewer than two spaces, a
/// status that is not a decimal number within the machine bound, or a
/// part that is not UTF-8.
pub open spec fn spec_response_line_bad(line: Seq<u8>) -> bool {
    match spec_find_byte(line, 32) {
        None => true,
        Some(s1) => match spec_find_byte(line.skip(s1 + 1), 32) {
            None => true,
            Some(s2) => {
                ||| !spec_all_digits(line.skip(s1 + 1).subrange(0, s2))
                ||| line.skip(s1 + 1).subrange(0, s2).len() == 0
                ||| spec_dec_val(line.skip(s1 + 1).subrange(0, s2)) > u32::MAX
                ||| !valid_utf8(line.subrange(0, s1))
                ||| !valid_utf8(line.skip(s1 + 1).skip(s2 + 1))
            },
        },
    }
}

/// The exact relation between a response start line and its parse.
pub open spec fn spec_response_line_ok(line: Seq<u8>, sl: ResponseStartLine) -> bool {
    spec_find_byte(line, 32) matches Some(s1) && {
        &&& valid_utf8(line.subrange(0, s1))
        &&& sl.version@ == decode_utf8(line.subrange(0, s1))
        &&& spec_find_byte(line.skip(s1 + 1), 32) matches Some(s2) && {
            &&& sl.response_code == spec_dec_val(line.skip(s1 + 1).subrange(0, s2))
            &&& spec_all_digits(line.skip(s1 + 1).subrange(0, s2))
            &&& valid_utf8(line.skip(s1 + 1).skip(s2 + 1))
            &&& sl.response_msg@ == decode_utf8(line.skip(s1 + 1).skip(s2 + 1))
        }
    }
}

impl RequestStartLine {
    /// The wire form: the three tokens separated by single spaces.
    pub open spec fn spec_wire(self) -> Seq<u8> {
        encode_utf8(spec_method_chars(self.method)) + seq![32u8] + encode_utf8(self.path@)
            + seq![32u8] + encode_utf8(self.version@)
    }

    pub fn encode(&self) -> (r: Vec<u8>)
        ensures
            r@ =~= self.spec_wire(),
    {
        let mut out = self.method.to_bytes();
        out.push(32);
        let mut pb = self.path.as_str().as_bytes_vec();
        out.append(&mut pb);
        out.push(32);
        let mut vb = self.version.as_str().as_bytes_vec();
        out.append(&mut vb);
        out
    }

    /// Parses `METHOD SP path SP version`, rejecting extra tokens.
    /// Fails exactly on the lines `spec_request_line_bad` describes.
    pub fn parse(line: &[u8]) -> (r: Result<RequestStartLine, ParseHttpError>)
        ensures
            match r {
                Ok(sl) => spec_request_line_ok(line@, sl),
                Err(e) => {
                    &&& spec_request_line_bad(line@)
                    &&& (e == ParseHttpError::InvalidHttp || e
                        == ParseHttpError::InvalidHttpMethod || e matches
                        ParseHttpError::ParseError(_))
                },
            },
    {
        let n = line.len();
        let s1 = match find_byte(line, 32) {
            Some(i) => i,
            None => {
                return Err(ParseHttpError::InvalidHttp);
            },
        };
        let m_bytes = copy_range(line, 0, s1);
        proof {
            assert(m_bytes@ =~= line@.subrange(0, s1 as int));
        }
        let method = match RequestMethod::from_bytes(m_bytes.as_slice()) {
            Ok(m) => m,
            Err(e) => {
                return Err(e);
            },
        };
        let rest = copy_range(line, s1 + 1, n);
        proof {
            assert(rest@ =~= line@.skip(s1 + 1));
        }
        let s2 = match find_byte(rest.as_slice(), 32) {
            Some(i) => i,
            None => {
                return Err(ParseHttpError::InvalidHttp);
            },
        };
        let p_bytes = copy_range(rest.as_slice(), 0, s2);
        proof {
            assert(p_bytes@ =~= rest@.subrange(0, s2 as int));
        }
        let v_bytes = copy_range(rest.as_slice(), s2 + 1, rest.len());
        proof {
            assert(v_bytes@ =~= rest@.skip(s2 + 1));
        }
        match find_byte(v_bytes.as_slice(), 32) {
            Some(_) => {
                return Err(ParseHttpError::InvalidHttp);
            },
            None => {},
        }
        let path = match utf8_to_string(p_bytes) {
            Some(s) => s,
            None => {
                return Err(ParseHttpError::InvalidHttp);
            },
        };
        let version = match utf8_to_string(v_bytes) {
            Some(s) => s,
            None => {
                return Err(ParseHttpError::InvalidHttp);
            },
        };
        Ok(RequestStartLine { method, path, version })
    }
}

/// A response start line: protocol version, status code, reason phrase.
#[derive(Debug, Clone)]
pub struct ResponseStartLine {
    pub version: String,
    pub response_code: u32,
    pub response_msg: String,
}

impl ResponseStartLine {
    /// The wire form: version, code in decimal, then the reason phrase,
    /// which may itself contain spaces.
    pub open spec fn spec_wire(self) -> Seq<u8> {
        encode_utf8(self.version@) + seq![32u8] + spec_dec_digits(self.response_code as nat)
            + seq![32u8] + encode_utf8(self.response_msg@)
    }

    pub fn encode(&self) -> (r: Vec<u8>)
        ensures
            r@ =~= self.spec_wire(),
    {
        let mut out = self.version.as_str().as_bytes_vec();
        out.push(32);
        push_dec(&mut out, self.response_code);
        out.push(32);
        let mut mb = self.response_msg.as_str().as_bytes_vec();
        out.append(&mut mb);
        out
    }

    /// Parses `version SP code SP reason`, the reason taking the rest of
    /// the line.  Fails exactly on the lines `spec_response_line_bad`
    /// describes.
    pub fn parse(line: &[u8]) -> (r: Result<ResponseStartLine, ParseHttpError>)
        ensures
            match r {
                Ok(sl) => spec_response_line_ok(line@, sl),
                Err(e) => {
                    &&& spec_response_line_bad(line@)
                    &&& (e == ParseHttpError::InvalidHttp || e matches
                        ParseHttpError::ParseError(_))
                },
            },
    {
        let n = line.len();
        let s1 = match find_byte(line, 32) {
            Some(i) => i,
            None => {
                return Err(ParseHttpError::InvalidHttp);
            },
        };
        let v_bytes = copy_range(line, 0, s1);
        proof {
            assert(v_bytes@ =~= line@.subrange(0, s1 as int));
        }
        let rest = copy_range(line, s1 + 1, n);
        proof {
            assert(rest@ =~= line@.skip(s1 + 1));
        }
        let s2 = match find_byte(rest.as_slice(), 32) {
            Some(i) => i,
            None => {
                return Err(ParseHttpError::InvalidHttp);
            },
        };
        let c_bytes = copy_range(rest.as_slice(), 0, s2);
        proof {
            assert(c_bytes@ =~= rest@.subrange(0, s2 as int));
        }
        let code = match parse_u32_dec(c_bytes.as_slice()) {
            Some(v) => v,
            None => {
                return Err(
                    ParseHttpError::ParseError(String::from_str("invalid status code")),
                );
            },
        };
        let m_bytes = copy_range(rest.as_slice(), s2 + 1, rest.len());
        proof {
            assert(m_bytes@ =~= rest@.skip(s2 + 1));
        }
        let version = match utf8_to_string(v_bytes) {
            Some(s) => s,
            None => {
                return Err(ParseHttpError::InvalidHttp);
            },
        };
        let msg = match utf8_to_string(m_bytes) {
            Some(s) => s,
            None => {
                return Err(ParseHttpError::InvalidHttp);
            },
        };
        Ok(ResponseStartLine { version, response_code: code, response_msg: msg })
    }
}

/// An HTTP/1.1 request.
#[derive(Debug, Clone)]
pub struct HttpRequest {
    pub start_line: RequestStartLine,
    pub headers: Vec<Header>,
    pub body: Body,
}

impl HttpRequest {
    /// The wire form: start line, header lines, a blank line, the body.
    pub open spec fn spec_wire(self) -> Seq<u8> {
        self.start_line.spec_wire() + spec_crlf() + spec_header_lines(self.headers@) + spec_crlf()
            + self.body.spec_wire()
    }

    /// Serializes the request.
    pub fn encode(&self) -> (r: Vec<u8>)
        ensures
            r@ =~= self.spec_wire(),
    {
        let mut out = self.start_line.encode();
        out.push(13);
        out.push(10);
        let mut k: usize = 0;
        let ghost head = out@;
        proof {
            assert(self.headers@.subrange(0, 0) =~= Seq::<Header>::empty());
        }
        while k < self.headers.len()
            invariant
                k <= self.headers@.len(),
                out@ =~= head + spec_header_lines(self.headers@.subrange(0, k as int)),
            decreases self.headers@.len() - k,
        {
            let mut hb = self.headers[k].encode();
            out.append(&mut hb);
            out.push(13);
            out.push(10);
            proof {
                let sub1 = self.headers@.subrange(0, k + 1);
                assert(sub1.drop_last() =~= self.headers@.subrange(0, k as int));
                assert(sub1.last() == self.headers@[k as int]);
            }
            k = k + 1;
        }
        proof {
            assert(self.headers@.subrange(0, self.headers@.len() as int) =~= self.headers@);
        }
        out.push(13);
        out.push(10);
        let mut bb = self.body.encode();
        out.append(&mut bb);
        proof {
            assert(out@ =~= self.spec_wire());
        }
        out
    }

    /// Parses a request: the start line before the first line
    /// terminator, then one header per line up to the first blank line,
    /// then the body as opaque bytes.  Fails exactly when no blank line
    /// is present, the start line is malformed, or a header line is
    /// malformed.
    pub fn parse(data: &[u8]) -> (r: Result<HttpRequest, ParseHttpError>)
        ensures
            match r {
                Ok(m) => exists|p: int, q: int|
                    {
                        &&& #[trigger] spec_first_at(data@, spec_blank_line(), p)
                        &&& #[trigger] spec_first_at(data@, spec_crlf(), q)
                        &&& spec_request_line_ok(data@.subrange(0, q), m.start_line)
                        &&& spec_headers_exact(data@.subrange(q + 2, p + 2), m.headers@)
                        &&& m.body matches Body::Data(b) && b@ == data@.skip(p + 4)
                    },
                Err(e) => {
                    ||| {
                        &&& forall|j: int| !match_at(data@, j, spec_blank_line())
                        &&& e == ParseHttpError::InvalidHttp
                    }
                    ||| exists|p: int, q: int|
                        {
                            &&& #[trigger] spec_first_at(data@, spec_blank_line(), p)
                            &&& #[trigger] spec_first_at(data@, spec_crlf(), q)
                            &&& {
                                ||| spec_request_line_bad(data@.subrange(0, q))
                                ||| spec_region_has_bad_line(data@.subrange(q + 2, p + 2))
                            }
                        }
                },
            },
    {
        let n = data.len();
        let blank: [u8; 4] = [13, 10, 13, 10];
        let sep = match find_from(data, 0, &blank) {
            Some(p) => p,
            None => {
                proof {
                    assert(blank@ =~= spec_blank_line());
                }
                return Err(ParseHttpError::InvalidHttp);
            },
        };
        proof {
            assert(blank@ =~= spec_blank_line());
            assert(spec_first_at(data@, spec_blank_line(), sep as int));
        }
        let head_end = sep + 2;
        let crlf: [u8; 2] = [13, 10];
        let line_end = match find_from(data, 0, &crlf) {
            Some(q) => q,
            None => {
                proof {
                    assert(data@.subrange(sep as int, sep + 4) =~= spec_blank_line());
                    assert(data@.subrange(sep as int, sep + 4)[0] == data@[sep as int]);
                    assert(data@.subrange(sep as int, sep + 4)[1] == data@[sep + 1]);
                    assert(data@.subrange(sep as int, sep + 2) =~= crlf@);
                    assert(match_at(data@, sep as int, crlf@));
                    assert(false);
                }
                return Err(ParseHttpError::InvalidHttp);
            },
        };
        proof {
            assert(crlf@ =~= spec_crlf());
            assert(spec_first_at(data@, spec_crlf(), line_end as int));
            assert(data@.subrange(sep as int, sep + 4) =~= spec_blank_line());
            assert(data@.subrange(sep as int, sep + 4)[0] == data@[sep as int]);
            assert(data@.subrange(sep as int, sep + 4)[1] == data@[sep + 1]);
            assert(data@.subrange(sep as int, sep + 2) =~= spec_crlf());
            assert(match_at(data@, sep as int, spec_crlf()));
            assert(line_end <= sep);
        }
        let line0 = copy_range(data, 0, line_end);
        proof {
            assert(line0@ =~= data@.subrange(0, line_end as int));
        }
        let start_line = match RequestStartLine::parse(line0.as_slice()) {
            Ok(sl) => sl,
            Err(e) => {
                return Err(e);
            },
        };
        let region = copy_range(data, line_end + 2, head_end);
        proof {
            assert(region@ =~= data@.subrange(line_end + 2, sep + 2));
        }
        let headers = match parse_header_region(region.as_slice()) {
            Ok(hs) => hs,
            Err(e) => {
                return Err(e);
            },
        };
        let body = copy_range(data, sep + 4, n);
        proof {
            assert(body@ =~= data@.skip(sep + 4));
        }
        Ok(HttpRequest { start_line, headers, body: Body::Data(body) })
    }
}

/// An HTTP/1.1 response.
#[derive(Debug, Clone)]
pub struct HttpResponse {
    pub start_line: ResponseStartLine,
    pub headers: Vec<Header>,
    pub body: Body,
}

impl HttpResponse {
    /// The wire form: start line, header lines, a blank line, the body.
    pub open spec fn spec_wire(self) -> Seq<u8> {
        self.start_line.spec_wire() + spec_crlf() + spec_header_lines(self.headers@) + spec_crlf()
            + self.body.spec_wire()
    }

    /// Serializes the response.
    pub fn encode(&self) -> (r: Vec<u8>)
        ensures
            r@ =~= self.spec_wire(),
    {
        let mut out = self.start_line.encode();
        out.push(13);
        out.push(10);
        let mut k: usize = 0;
        let ghost head = out@;
        proof {
            assert(self.headers@.subrange(0, 0) =~= Seq::<Header>::empty());
        }
        while k < self.headers.len()
            invariant
                k <= self.headers@.len(),
                out@ =~= head + spec_header_lines(self.headers@.subrange(0, k as int)),
            decreases self.headers@.len() - k,
        {
            let mut hb = self.headers[k].encode();
            out.append(&mut hb);
            out.push(13);
            out.push(10);
            proof {
                let sub1 = self.headers@.subrange(0, k + 1);
                assert(sub1.drop_last() =~= self.headers@.subrange(0, k as int));
                assert(sub1.last() == self.headers@[k as int]);
            }
            k = k + 1;
        }
        proof {
            assert(self.headers@.subrange(0, self.headers@.len() as int) =~= self.headers@);
        }
        out.push(13);
        out.push(10);
        let mut bb = self.body.encode();
        out.append(&mut bb);
        proof {
            assert(out@ =~= self.spec_wire());
        }
        out
    }

    /// Parses a response, as `HttpRequest::parse` does a request.  Fails
    /// exactly when no blank line is present, the start line is
    /// malformed, or a header line is malformed.
    pub fn parse(data: &[u8]) -> (r: Result<HttpResponse, ParseHttpError>)
        ensures
            match r {
                Ok(m) => exists|p: int, q: int|
                    {
                        &&& #[trigger] spec_first_at(data@, spec_blank_line(), p)
                        &&& #[trigger] spec_first_at(data@, spec_crlf(), q)
                        &&& spec_response_line_ok(data@.subrange(0, q), m.start_line)
                        &&& spec_headers_exact(data@.subrange(q + 2, p + 2), m.headers@)
                        &&& m.body matches Body::Data(b) && b@ == data@.skip(p + 4)
                    },
                Err(e) => {
                    ||| {
                        &&& forall|j: int| !match_at(data@, j, spec_blank_line())
                        &&& e == ParseHttpError::InvalidHttp
                    }
                    ||| exists|p: int, q: int|
                        {
                            &&& #[trigger] spec_first_at(data@, spec_blank_line(), p)
                            &&& #[trigger] spec_first_at(data@, spec_crlf(), q)
                            &&& {
                                ||| spec_response_line_bad(data@.subrange(0, q))
                                ||| spec_region_has_bad_line(data@.subrange(q + 2, p + 2))
                            }
                        }
                },
            },
    {
        let n = data.len();
        let blank: [u8; 4] = [13, 10, 13, 10];
        let sep = match find_from(data, 0, &blank) {
            Some(p) => p,
            None => {
                proof {
                    assert(blank@ =~= spec_blank_line());
                }
                return Err(ParseHttpError::InvalidHttp);
            },
        };
        proof {
            assert(blank@ =~= spec_blank_line());
            assert(spec_first_at(data@, spec_blank_line(), sep as int));
        }
        let head_end = sep + 2;
        let crlf: [u8; 2] = [13, 10];
        let line_end = match find_from(data, 0, &crlf) {
            Some(q) => q,
            None => {
                proof {
                    assert(data@.subrange(sep as int, sep + 4) =~= spec_blank_line());
                    assert(data@.subrange(sep as int, sep + 4)[0] == data@[sep as int]);
                    assert(data@.subrange(sep as int, sep + 4)[1] == data@[sep + 1]);
                    assert(data@.subrange(sep as int, sep + 2) =~= crlf@);
                    assert(match_at(data@, sep as int, crlf@));
                    assert(false);
                }
                return Err(ParseHttpError::InvalidHttp);
            },
        };
        proof {
            assert(crlf@ =~= spec_crlf());
            assert(spec_first_at(data@, spec_crlf(), line_end as int));
            assert(data@.subrange(sep as int, sep + 4) =~= spec_blank_line());
            assert(data@.subrange(sep as int, sep + 4)[0] == data@[sep as int]);
            assert(data@.subrange(sep as int, sep + 4)[1] == data@[sep + 1]);
            assert(data@.subrange(sep as int, sep + 2) =~= spec_crlf());
            assert(match_at(data@, sep as int, spec_crlf()));
            assert(line_end <= sep);
        }
        let line0 = copy_range(data, 0, line_end);
        proof {
            assert(line0@ =~= data@.subrange(0, line_end as int));
        }
        let start_line = match ResponseStartLine::parse(line0.as_slice()) {
            Ok(sl) => sl,
            Err(e) => {
                return Err(e);
            },
        };
        let region = copy_range(data, line_end + 2, head_end);
        proof {
            assert(region@ =~= data@.subrange(line_end + 2, sep + 2));
        }
        let headers = match parse_header_region(region.as_slice()) {
            Ok(hs) => hs,
            Err(e) => {
                return Err(e);
            },
        };
        let body = copy_range(data, sep + 4, n);
        proof {
            assert(body@ =~= data@.skip(sep + 4));
        }
        Ok(HttpResponse { start_line, headers, body: Body::Data(body) })
    }
}

/// Builds a request incrementally.
#[derive(Debug, Clone)]
pub struct HttpRequestBuilder {
    pub context: HttpRequest,
}

impl HttpRequestBuilder {
    /// A builder for a request with the given method and path.
    pub fn new(method: RequestMethod, path: String) -> (r: Result<
        HttpRequestBuilder,
        ParseHttpError,
    >)
        ensures
            r matches Ok(b) && b.context.start_line.method == method && b.context.start_line.path@
                == path@ && b.context.headers@.len() == 0 && b.context.body matches Body::Empty,
    {
        Ok(
            HttpRequestBuilder {
                context: HttpRequest {
                    start_line: RequestStartLine {
                        method,
                        path,
                        version: String::from_str("HTTP/1.1"),
                    },
                    headers: Vec::new(),
                    body: Body::Empty,
                },
            },
        )
    }

    /// Adds a header: a header whose key spelling is already present is
    /// replaced in place, a new spelling is appended.
    pub fn add_header(&mut self, header: Header)
        ensures
            spec_headers_put_rel(old(self).context.headers@, header, final(self).context.headers@),
            final(self).context.start_line == old(self).context.start_line,
            final(self).context.body == old(self).context.body,
    {
        put_header(&mut self.context.headers, header);
    }

    /// Sets a raw body.
    pub fn add_body(&mut self, data: Vec<u8>)
        ensures
            final(self).context.body matches Body::Data(d) && d@ == data@,
            final(self).context.start_line == old(self).context.start_line,
            final(self).context.headers == old(self).context.headers,
    {
        self.context.body = Body::Data(data);
    }

    /// Sets a multipart body.
    pub fn add_formdata(&mut self, formdata: FormData)
        ensures
            final(self).context.body matches Body::FormData(f) && f == formdata,
            final(self).context.start_line == old(self).context.start_line,
            final(self).context.headers == old(self).context.headers,
    {
        self.context.body = Body::FormData(formdata);
    }

    /// Finishes the request.
    pub fn build(self) -> (r: Result<HttpRequest, ParseHttpError>)
        ensures
            r == Ok::<HttpRequest, ParseHttpError>(self.context),
    {
        Ok(self.context)
    }
}

/// Adds a header to a list under the mapping discipline: the first
/// header with the same key spelling is replaced, a new spelling is
/// appended.
fn put_header(headers: &mut Vec<Header>, header: Header)
    ensures
        spec_headers_put_rel(old(headers)@, header, final(headers)@),
{
    let kb = header.key.to_bytes();
    let n = headers.len();
    let mut i: usize = 0;
    while i < n
        invariant
            i <= n,
            n == headers@.len(),
            headers@ == old(headers)@,
            kb@ == encode_utf8(spec_key_chars(header.key)),
            forall|t: int| 0 <= t < i ==> !spec_same_key(#[trigger] headers@[t].key, header.key),
        decreases n - i,
    {
        let hb = headers[i].key.to_bytes();
        if crate::wire::eq_bytes(kb.as_slice(), hb.as_slice()) {
            proof {
                crate::header::lemma_utf8_injective(
                    spec_key_chars(header.key),
                    spec_key_chars(headers@[i as int].key),
                );
                assert(spec_same_key(headers@[i as int].key, header.key));
            }
            headers.set(i, header);
            return ;
        }
        proof {
            if spec_same_key(headers@[i as int].key, header.key) {
                assert(hb@ == kb@);
                assert(false);
            }
        }
        i = i + 1;
    }
    proof {
        assert(!(exists|j: int|
            0 <= j < old(headers)@.len() && spec_same_key(
                #[trigger] old(headers)@[j].key,
                header.key,
            )));
    }
    headers.push(header);
}

/// Builds a response incrementally.
#[derive(Debug, Clone)]
pub struct HttpResponseBuilder {
    pub context: HttpResponse,
}

impl HttpResponseBuilder {
    /// A builder for a response with the given status.
    pub fn new(response_code: u32, response_msg: String) -> (r: Result<
        HttpResponseBuilder,
        ParseHttpError,
    >)
        ensures
            r matches Ok(b) && b.context.start_line.response_code == response_code
                && b.context.start_line.response_msg@ == response_msg@
                && b.context.headers@.len() == 0 && b.context.body matches Body::Empty,
    {
        Ok(
            HttpResponseBuilder {
                context: HttpResponse {
                    start_line: ResponseStartLine {
                        version: String::from_str("HTTP/1.1"),
                        response_code,
                        response_msg,
                    },
                    headers: Vec::new(),
                    body: Body::Empty,
                },
            },
        )
    }

    /// Adds a header: a header whose key spelling is already present is
    /// replaced in place, a new spelling is appended.
    pub fn add_header(&mut self, header: Header)
        ensures
            spec_headers_put_rel(old(self).context.headers@, header, final(self).context.headers@),
            final(self).context.start_line == old(self).context.start_line,
            final(self).context.body == old(self).context.body,
    {
        put_header(&mut self.context.headers, header);
    }

    /// Sets a raw body.
    pub fn add_body(&mut self, data: Vec<u8>)
        ensures
            final(self).context.body matches Body::Data(d) && d@ == data@,
            final(self).context.start_line == old(self).context.start_line,
            final(self).context.headers == old(self).context.headers,
    {
        self.context.body = Body::Data(data);
    }

    /// Sets a multipart body.
    pub fn add_formdata(&mut self, formdata: FormData)
        ensures
            final(self).context.body matches Body::FormData(f) && f == formdata,
            final(self).context.start_line == old(self).context.start_line,
            final(self).context.headers == old(self).context.headers,
    {
        self.context.body = Body::FormData(formdata);
    }

    /// Finishes the response.
    pub fn build(self) -> (r: Result<HttpResponse, ParseHttpError>)
        ensures
            r == Ok::<HttpResponse, ParseHttpError>(self.context),
    {
        Ok(self.context)
    }
}

} // verus!
