//! HTTP/1.1 header names, values, and header-line parsing.
use vstd::prelude::*;
use vstd::string::StringSliceAdditionalSpecFns;
use vstd::string::StrSliceExecFns;
use vstd::string::StringExecFns;
use vstd::utf8::{decode_utf8, encode_utf8, valid_utf8};

verus! {

#[derive(Debug, Clone, PartialEq, Eq)]
pub enum ParseHttpError {
    /// The start line or overall message shape is malformed.
    InvalidHttp,
    /// A numeric field did not parse.
    ParseError(String),
    /// A header line is malformed.
    ParseHeaderError(String),
    /// The body could not be interpreted.
    ParseBodyError(String),
    /// A multipart body is malformed.
    ParseFormDataError(String),
    /// A value had no recognized form.
    UnknownString(String),
    /// The request method is not a known one.
    InvalidHttpMethod,
    /// No multipart boundary marker was found.
    FormdataBoundaryNotFound,
}

impl ParseHttpError {
    /// A readable description of the error.
    pub fn to_string(&self) -> (r: String) {
        match self {
            ParseHttpError::InvalidHttp => String::from_str("Invalid HTTP"),
            ParseHttpError::ParseError(msg) => String::from_str("Parse Error: ").concat(
                msg.as_str(),
            ),
            ParseHttpError::ParseHeaderError(msg) => String::from_str(
                "Parse Header Error: ",
            ).concat(msg.as_str()),
            ParseHttpError::ParseBodyError(msg) => String::from_str("Parse Body Error: ").concat(
                msg.as_str(),
            ),
            ParseHttpError::ParseFormDataError(msg) => String::from_str(
                "Parse FormData Error: ",
            ).concat(msg.as_str()),
            ParseHttpError::UnknownString(msg) => String::from_str("Unknown String: ").concat(
                msg.as_str(),
            ),
            ParseHttpError::InvalidHttpMethod => String::from_str("Invalid HTTP Method"),
            ParseHttpError::FormdataBoundaryNotFound => String::from_str(
                "Formdata Boundary Not Found",
            ),
        }
    }
}

/// Relies on `String::from_utf8` (std): it succeeds exactly on valid
/// UTF-8 and yields the decoded characters, as the UTF-8 model in vstd
/// states them.
#[verifier::external_body]
pub fn utf8_to_string(bytes: Vec<u8>) -> (r: Option<String>)
    ensures
        match r {
            Some(s) => valid_utf8(bytes@) && s@ == decode_utf8(bytes@),
            None => !valid_utf8(bytes@),
        },
{
    String::from_utf8(bytes).ok()
}

/// The recognized standard header names.
#[allow(non_camel_case_types)]
#[derive(Debug, Clone, Copy, PartialEq, Eq, Structural)]
pub enum StandardHeaders {
    A_IM,
    Accept,
    Accept_Charset,
    Accept_Encoding,
    Accept_Language,
    Accept_Datetime,
    Access_Control_Request_Method,
    Access_Control_Request_Headers,
    Authorization,
    Cache_Control,
    Connection,
    Content_Disposition,
    Content_Length,
    Content_Type,
    Content_Transfer_Encoding,
    Cookie,
    Date,
    Expect,
    Forwarded,
    From,
    Host,
    If_Match,
    If_Modified_Since,
    If_None_Match,
    If_Range,
    If_Unmodified_Since,
    Max_Forwards,
    Origin,
    Pragma,
    Proxy_Authorization,
    Range,
    Referer,
    TE,
    User_Agent,
    Upgrade,
    Via,
    Warning,
    Content_Security_Policy,
    Strict_Transport_Security,
    X_Content_Type_Options,
    X_Frame_Options,
    X_XSS_Protection,
}

/// The characters of a standard header's canonical spelling.
pub open spec fn spec_std_name_chars(h: StandardHeaders) -> Seq<char> {
    if (h matches StandardHeaders::A_IM) {
        ("A-IM")@
    } else if (h matches StandardHeaders::Accept) {
        ("Accept")@
    } else if (h matches StandardHeaders::Accept_Charset) {
        ("Accept-Charset")@
    } else if (h matches StandardHeaders::Accept_Encoding) {
        ("Accept-Encoding")@
    } else if (h matches StandardHeaders::Accept_Language) {
        ("Accept-Language")@
    } else if (h matches StandardHeaders::Accept_Datetime) {
        ("Accept-Datetime")@
    } else if (h matches StandardHeaders::Access_Control_Request_Method) {
        ("Access-Control-Request-Method")@
    } else if (h matches StandardHeaders::Access_Control_Request_Headers) {
        ("Access-Control-Request-Headers")@
    } else if (h matches StandardHeaders::Authorization) {
        ("Authorization")@
    } else if (h matches StandardHeaders::Cache_Control) {
        ("Cache-Control")@
    } else if (h matches StandardHeaders::Connection) {
        ("Connection")@
    } else if (h matches StandardHeaders::Content_Disposition) {
        ("Content-Disposition")@
    } else if (h matches StandardHeaders::Content_Length) {
        ("Content-Length")@
    } else if (h matches StandardHeaders::Content_Type) {
        ("Content-Type")@
    } else if (h matches StandardHeaders::Content_Transfer_Encoding) {
        ("Content-Transfer-Encoding")@
    } else if (h matches StandardHeaders::Cookie) {
        ("Cookie")@
    } else if (h matches StandardHeaders::Date) {
        ("Date")@
    } else if (h matches StandardHeaders::Expect) {
        ("Expect")@
    } else if (h matches StandardHeaders::Forwarded) {
        ("Forwarded")@
    } else if (h matches StandardHeaders::From) {
        ("From")@
    } else if (h matches StandardHeaders::Host) {
        ("Host")@
    } else if (h matches StandardHeaders::If_Match) {
        ("If-Match")@
    } else if (h matches StandardHeaders::If_Modified_Since) {
        ("If-Modified-Since")@
    } else if (h matches StandardHeaders::If_None_Match) {
        ("If-None-Match")@
    } else if (h matches StandardHeaders::If_Range) {
        ("If-Range")@
    } else if (h matches StandardHeaders::If_Unmodified_Since) {
        ("If-Unmodified-Since")@
    } else if (h matches StandardHeaders::Max_Forwards) {
        ("Max-Forwards")@
    } else if (h matches StandardHeaders::Origin) {
        ("Origin")@
    } else if (h matches StandardHeaders::Pragma) {
        ("Pragma")@
    } else if (h matches StandardHeaders::Proxy_Authorization) {
        ("Proxy-Authorization")@
    } else if (h matches StandardHeaders::Range) {
        ("Range")@
    } else if (h matches StandardHeaders::Referer) {
        ("Referer")@
    } else if (h matches StandardHeaders::TE) {
        ("TE")@
    } else if (h matches StandardHeaders::User_Agent) {
        ("User-Agent")@
    } else if (h matches StandardHeaders::Upgrade) {
        ("Upgrade")@
    } else if (h matches StandardHeaders::Via) {
        ("Via")@
    } else if (h matches StandardHeaders::Warning) {
        ("Warning")@
    } else if (h matches StandardHeaders::Content_Security_Policy) {
        ("Content-Security-Policy")@
    } else if (h matches StandardHeaders::Strict_Transport_Security) {
        ("Strict-Transport-Security")@
    } else if (h matches StandardHeaders::X_Content_Type_Options) {
        ("X-Content-Type-Options")@
    } else if (h matches StandardHeaders::X_Frame_Options) {
        ("X-Frame-Options")@
    } else if (h matches StandardHeaders::X_XSS_Protection) {
        ("X-XSS-Protection")@
    } else {
        Seq::empty()
    }
}

/// The standard header a byte spelling denotes, if any.
pub open spec fn spec_parse_std(bytes: Seq<u8>) -> Option<StandardHeaders> {
    if bytes == "A-IM".spec_bytes() {
        Some(StandardHeaders::A_IM)
    } else if bytes == "Accept".spec_bytes() {
        Some(StandardHeaders::Accept)
    } else if bytes == "Accept-Charset".spec_bytes() {
        Some(StandardHeaders::Accept_Charset)
    } else if bytes == "Accept-Encoding".spec_bytes() {
        Some(StandardHeaders::Accept_Encoding)
    } else if bytes == "Accept-Language".spec_bytes() {
        Some(StandardHeaders::Accept_Language)
    } else if bytes == "Accept-Datetime".spec_bytes() {
        Some(StandardHeaders::Accept_Datetime)
    } else if bytes == "Access-Control-Request-Method".spec_bytes() {
        Some(StandardHeaders::Access_Control_Request_Method)
    } else if bytes == "Access-Control-Request-Headers".spec_bytes() {
        Some(StandardHeaders::Access_Control_Request_Headers)
    } else if bytes == "Authorization".spec_bytes() {
        Some(StandardHeaders::Authorization)
    } else if bytes == "Cache-Control".spec_bytes() {
        Some(StandardHeaders::Cache_Control)
    } else if bytes == "Connection".spec_bytes() {
        Some(StandardHeaders::Connection)
    } else if bytes == "Content-Disposition".spec_bytes() {
        Some(StandardHeaders::Content_Disposition)
    } else if bytes == "Content-Length".spec_bytes() {
        Some(StandardHeaders::Content_Length)
    } else if bytes == "Content-Type".spec_bytes() {
        Some(StandardHeaders::Content_Type)
    } else if bytes == "Content-Transfer-Encoding".spec_bytes() {
        Some(StandardHeaders::Content_Transfer_Encoding)
    } else if bytes == "Cookie".spec_bytes() {
        Some(StandardHeaders::Cookie)
    } else if bytes == "Date".spec_bytes() {
        Some(StandardHeaders::Date)
    } else if bytes == "Expect".spec_bytes() {
        Some(StandardHeaders::Expect)
    } else if bytes == "Forwarded".spec_bytes() {
        Some(StandardHeaders::Forwarded)
    } else if bytes == "From".spec_bytes() {
        Some(StandardHeaders::From)
    } else if bytes == "Host".spec_bytes() {
        Some(StandardHeaders::Host)
    } else if bytes == "If-Match".spec_bytes() {
        Some(StandardHeaders::If_Match)
    } else if bytes == "If-Modified-Since".spec_bytes() {
        Some(StandardHeaders::If_Modified_Since)
    } else if bytes == "If-None-Match".spec_bytes() {
        Some(StandardHeaders::If_None_Match)
    } else if bytes == "If-Range".spec_bytes() {
        Some(StandardHeaders::If_Range)
    } else if bytes == "If-Unmodified-Since".spec_bytes() {
        Some(StandardHeaders::If_Unmodified_Since)
    } else if bytes == "Max-Forwards".spec_bytes() {
        Some(StandardHeaders::Max_Forwards)
    } else if bytes == "Origin".spec_bytes() {
        Some(StandardHeaders::Origin)
    } else if bytes == "Pragma".spec_bytes() {
        Some(StandardHeaders::Pragma)
    } else if bytes == "Proxy-Authorization".spec_bytes() {
        Some(StandardHeaders::Proxy_Authorization)
    } else if bytes == "Range".spec_bytes() {
        Some(StandardHeaders::Range)
    } else if bytes == "Referer".spec_bytes() {
        Some(StandardHeaders::Referer)
    } else if bytes == "TE".spec_bytes() {
        Some(StandardHeaders::TE)
    } else if bytes == "User-Agent".spec_bytes() {
        Some(StandardHeaders::User_Agent)
    } else if bytes == "Upgrade".spec_bytes() {
        Some(StandardHeaders::Upgrade)
    } else if bytes == "Via".spec_bytes() {
        Some(StandardHeaders::Via)
    } else if bytes == "Warning".spec_bytes() {
        Some(StandardHeaders::Warning)
    } else if bytes == "Content-Security-Policy".spec_bytes() {
        Some(StandardHeaders::Content_Security_Policy)
    } else if bytes == "Strict-Transport-Security".spec_bytes() {
        Some(StandardHeaders::Strict_Transport_Security)
    } else if bytes == "X-Content-Type-Options".spec_bytes() {
        Some(StandardHeaders::X_Content_Type_Options)
    } else if bytes == "X-Frame-Options".spec_bytes() {
        Some(StandardHeaders::X_Frame_Options)
    } else if bytes == "X-XSS-Protection".spec_bytes() {
        Some(StandardHeaders::X_XSS_Protection)
    } else {
        None
    }
}

/// UTF-8 encoding is injective.
pub proof fn lemma_utf8_injective(a: Seq<char>, b: Seq<char>)
    requires
        encode_utf8(a) == encode_utf8(b),
    ensures
        a == b,
{
    vstd::utf8::encode_utf8_decode_utf8(a);
    vstd::utf8::encode_utf8_decode_utf8(b);
}

impl StandardHeaders {
    /// The canonical spelling.
    pub fn to_string(&self) -> (r: String)
        ensures
            r@ == spec_std_name_chars(*self),
    {
        match self {
            StandardHeaders::A_IM => String::from_str("A-IM"),
            StandardHeaders::Accept => String::from_str("Accept"),
            StandardHeaders::Accept_Charset => String::from_str("Accept-Charset"),
            StandardHeaders::Accept_Encoding => String::from_str("Accept-Encoding"),
            StandardHeaders::Accept_Language => String::from_str("Accept-Language"),
            StandardHeaders::Accept_Datetime => String::from_str("Accept-Datetime"),
            StandardHeaders::Access_Control_Request_Method => String::from_str("Access-Control-Request-Method"),
            StandardHeaders::Access_Control_Request_Headers => String::from_str("Access-Control-Request-Headers"),
            StandardHeaders::Authorization => String::from_str("Authorization"),
            StandardHeaders::Cache_Control => String::from_str("Cache-Control"),
            StandardHeaders::Connection => String::from_str("Connection"),
            StandardHeaders::Content_Disposition => String::from_str("Content-Disposition"),
            StandardHeaders::Content_Length => String::from_str("Content-Length"),
            StandardHeaders::Content_Type => String::from_str("Content-Type"),
            StandardHeaders::Content_Transfer_Encoding => String::from_str("Content-Transfer-Encoding"),
            StandardHeaders::Cookie => String::from_str("Cookie"),
            StandardHeaders::Date => String::from_str("Date"),
            StandardHeaders::Expect => String::from_str("Expect"),
            StandardHeaders::Forwarded => String::from_str("Forwarded"),
            StandardHeaders::From => String::from_str("From"),
            StandardHeaders::Host => String::from_str("Host"),
            StandardHeaders::If_Match => String::from_str("If-Match"),
            StandardHeaders::If_Modified_Since => String::from_str("If-Modified-Since"),
            StandardHeaders::If_None_Match => String::from_str("If-None-Match"),
            StandardHeaders::If_Range => String::from_str("If-Range"),
            StandardHeaders::If_Unmodified_Since => String::from_str("If-Unmodified-Since"),
            StandardHeaders::Max_Forwards => String::from_str("Max-Forwards"),
            StandardHeaders::Origin => String::from_str("Origin"),
            StandardHeaders::Pragma => String::from_str("Pragma"),
            StandardHeaders::Proxy_Authorization => String::from_str("Proxy-Authorization"),
            StandardHeaders::Range => String::from_str("Range"),
            StandardHeaders::Referer => String::from_str("Referer"),
            StandardHeaders::TE => String::from_str("TE"),
            StandardHeaders::User_Agent => String::from_str("User-Agent"),
            StandardHeaders::Upgrade => String::from_str("Upgrade"),
            StandardHeaders::Via => String::from_str("Via"),
            StandardHeaders::Warning => String::from_str("Warning"),
            StandardHeaders::Content_Security_Policy => String::from_str("Content-Security-Policy"),
            StandardHeaders::Strict_Transport_Security => String::from_str("Strict-Transport-Security"),
            StandardHeaders::X_Content_Type_Options => String::from_str("X-Content-Type-Options"),
            StandardHeaders::X_Frame_Options => String::from_str("X-Frame-Options"),
            StandardHeaders::X_XSS_Protection => String::from_str("X-XSS-Protection"),
        }
    }

    /// Recognizes a canonical spelling, given as bytes.
    #[verifier::rlimit(60)]
    pub fn from_bytes(b: &[u8]) -> (r: Option<StandardHeaders>)
        ensures
            r == spec_parse_std(b@),
            match r {
                Some(h) => b@ == encode_utf8(spec_std_name_chars(h)),
                None => true,
            },
    {
    if crate::wire::eq_bytes(b, "A-IM".as_bytes()) {
        return Some(StandardHeaders::A_IM);
    }
    if crate::wire::eq_bytes(b, "Accept".as_bytes()) {
        return Some(StandardHeaders::Accept);
    }
    if crate::wire::eq_bytes(b, "Accept-Charset".as_bytes()) {
        return Some(StandardHeaders::Accept_Charset);
    }
    if crate::wire::eq_bytes(b, "Accept-Encoding".as_bytes()) {
        return Some(StandardHeaders::Accept_Encoding);
    }
    if crate::wire::eq_bytes(b, "Accept-Language".as_bytes()) {
        return Some(StandardHeaders::Accept_Language);
    }
    if crate::wire::eq_bytes(b, "Accept-Datetime".as_bytes()) {
        return Some(StandardHeaders::Accept_Datetime);
    }
    if crate::wire::eq_bytes(b, "Access-Control-Request-Method".as_bytes()) {
        return Some(StandardHeaders::Access_Control_Request_Method);
    }
    if crate::wire::eq_bytes(b, "Access-Control-Request-Headers".as_bytes()) {
        return Some(StandardHeaders::Access_Control_Request_Headers);
    }
    if crate::wire::eq_bytes(b, "Authorization".as_bytes()) {
        return Some(StandardHeaders::Authorization);
    }
    if crate::wire::eq_bytes(b, "Cache-Control".as_bytes()) {
        return Some(StandardHeaders::Cache_Control);
    }
    if crate::wire::eq_bytes(b, "Connection".as_bytes()) {
        return Some(StandardHeaders::Connection);
    }
    if crate::wire::eq_bytes(b, "Content-Disposition".as_bytes()) {
        return Some(StandardHeaders::Content_Disposition);
    }
    if crate::wire::eq_bytes(b, "Content-Length".as_bytes()) {
        return Some(StandardHeaders::Content_Length);
    }
    if crate::wire::eq_bytes(b, "Content-Type".as_bytes()) {
        return Some(StandardHeaders::Content_Type);
    }
    if crate::wire::eq_bytes(b, "Content-Transfer-Encoding".as_bytes()) {
        return Some(StandardHeaders::Content_Transfer_Encoding);
    }
    if crate::wire::eq_bytes(b, "Cookie".as_bytes()) {
        return Some(StandardHeaders::Cookie);
    }
    if crate::wire::eq_bytes(b, "Date".as_bytes()) {
        return Some(StandardHeaders::Date);
    }
    if crate::wire::eq_bytes(b, "Expect".as_bytes()) {
        return Some(StandardHeaders::Expect);
    }
    if crate::wire::eq_bytes(b, "Forwarded".as_bytes()) {
        return Some(StandardHeaders::Forwarded);
    }
    if crate::wire::eq_bytes(b, "From".as_bytes()) {
        return Some(StandardHeaders::From);
    }
    if crate::wire::eq_bytes(b, "Host".as_bytes()) {
        return Some(StandardHeaders::Host);
    }
    if crate::wire::eq_bytes(b, "If-Match".as_bytes()) {
        return Some(StandardHeaders::If_Match);
    }
    if crate::wire::eq_bytes(b, "If-Modified-Since".as_bytes()) {
        return Some(StandardHeaders::If_Modified_Since);
    }
    if crate::wire::eq_bytes(b, "If-None-Match".as_bytes()) {
        return Some(StandardHeaders::If_None_Match);
    }
    if crate::wire::eq_bytes(b, "If-Range".as_bytes()) {
        return Some(StandardHeaders::If_Range);
    }
    if crate::wire::eq_bytes(b, "If-Unmodified-Since".as_bytes()) {
        return Some(StandardHeaders::If_Unmodified_Since);
    }
    if crate::wire::eq_bytes(b, "Max-Forwards".as_bytes()) {
        return Some(StandardHeaders::Max_Forwards);
    }
    if crate::wire::eq_bytes(b, "Origin".as_bytes()) {
        return Some(StandardHeaders::Origin);
    }
    if crate::wire::eq_bytes(b, "Pragma".as_bytes()) {
        return Some(StandardHeaders::Pragma);
    }
    if crate::wire::eq_bytes(b, "Proxy-Authorization".as_bytes()) {
        return Some(StandardHeaders::Proxy_Authorization);
    }
    if crate::wire::eq_bytes(b, "Range".as_bytes()) {
        return Some(StandardHeaders::Range);
    }
    if crate::wire::eq_bytes(b, "Referer".as_bytes()) {
        return Some(StandardHeaders::Referer);
    }
    if crate::wire::eq_bytes(b, "TE".as_bytes()) {
        return Some(StandardHeaders::TE);
    }
    if crate::wire::eq_bytes(b, "User-Agent".as_bytes()) {
        return Some(StandardHeaders::User_Agent);
    }
    if crate::wire::eq_bytes(b, "Upgrade".as_bytes()) {
        return Some(StandardHeaders::Upgrade);
    }
    if crate::wire::eq_bytes(b, "Via".as_bytes()) {
        return Some(StandardHeaders::Via);
    }
    if crate::wire::eq_bytes(b, "Warning".as_bytes()) {
        return Some(StandardHeaders::Warning);
    }
    if crate::wire::eq_bytes(b, "Content-Security-Policy".as_bytes()) {
        return Some(StandardHeaders::Content_Security_Policy);
    }
    if crate::wire::eq_bytes(b, "Strict-Transport-Security".as_bytes()) {
        return Some(StandardHeaders::Strict_Transport_Security);
    }
    if crate::wire::eq_bytes(b, "X-Content-Type-Options".as_bytes()) {
        return Some(StandardHeaders::X_Content_Type_Options);
    }
    if crate::wire::eq_bytes(b, "X-Frame-Options".as_bytes()) {
        return Some(StandardHeaders::X_Frame_Options);
    }
    if crate::wire::eq_bytes(b, "X-XSS-Protection".as_bytes()) {
        return Some(StandardHeaders::X_XSS_Protection);
    }
    None
    }
}

/// A header name outside the recognized set, kept as given.
#[derive(Debug, Clone, PartialEq, Eq)]
pub struct CustomHeader(pub String);

/// A header key: a recognized standard name or a custom spelling.
#[derive(Debug, Clone, PartialEq, Eq)]
pub enum HeaderKey {
    StandardHeader(StandardHeaders),
    CustomHeader(CustomHeader),
}

/// The characters of the spelling a key holds.
pub open spec fn spec_key_chars(k: HeaderKey) -> Seq<char> {
    match k {
        HeaderKey::StandardHeader(h) => spec_std_name_chars(h),
        HeaderKey::CustomHeader(c) => c.0@,
    }
}

/// The key a spelling classifies to: the standard variant exactly when
/// the spelling equals a recognized canonical name, the custom variant
/// otherwise.
#[verifier::opaque]
pub open spec fn spec_key_classified(chars: Seq<char>, k: HeaderKey) -> bool {
    match spec_parse_std(encode_utf8(chars)) {
        Some(h) => k == HeaderKey::StandardHeader(h),
        None => k matches HeaderKey::CustomHeader(c) && c.0@ == chars,
    }
}

impl HeaderKey {
    /// Classifies a spelling; the spelling itself is always kept, and the
    /// key is the standard variant exactly when the spelling is a
    /// recognized canonical name.
    pub fn new(value: String) -> (r: Result<HeaderKey, ParseHttpError>)
        ensures
            r matches Ok(k) && spec_key_chars(k) == value@ && spec_key_classified(value@, k),
    {
        proof {
            reveal(spec_key_classified);
        }
        match StandardHeaders::from_bytes(value.as_str().as_bytes()) {
            Some(h) => {
                proof {
                    lemma_utf8_injective(spec_std_name_chars(h), value@);
                }
                Ok(HeaderKey::StandardHeader(h))
            },
            None => Ok(HeaderKey::CustomHeader(CustomHeader(value))),
        }
    }

    /// The spelling held.
    pub fn to_string(&self) -> (r: String)
        ensures
            r@ == spec_key_chars(*self),
    {
        match self {
            HeaderKey::StandardHeader(h) => h.to_string(),
            HeaderKey::CustomHeader(c) => c.0.clone(),
        }
    }

    /// The spelling held, as bytes.
    pub fn to_bytes(&self) -> (r: Vec<u8>)
        ensures
            r@ == encode_utf8(spec_key_chars(*self)),
    {
        let s = self.to_string();
        s.as_str().as_bytes_vec()
    }
}

/// A header value, kept as given.
#[derive(Debug, Clone, PartialEq, Eq)]
pub struct HeaderValue(pub String);

impl HeaderValue {
    pub fn new(value: String) -> (r: Result<HeaderValue, ParseHttpError>)
        ensures
            r matches Ok(v) && v.0@ == value@,
    {
        Ok(HeaderValue(value))
    }

    /// The value held, as bytes.
    pub fn to_bytes(&self) -> (r: Vec<u8>)
        ensures
            r@ == encode_utf8(self.0@),
    {
        self.0.as_str().as_bytes_vec()
    }
}

/// One header: a key and a value.
#[derive(Debug, Clone, PartialEq, Eq)]
pub struct Header {
    pub key: HeaderKey,
    pub value: HeaderValue,
}

/// The wire form of a header line (without the terminator): the key, a
/// colon and one space, then the value.
pub open spec fn spec_header_line(h: Header) -> Seq<u8> {
    encode_utf8(spec_key_chars(h.key)) + seq![58u8, 32u8] + encode_utf8(h.value.0@)
}

/// The value bytes with leading spaces removed.
pub open spec fn spec_trim_spaces(s: Seq<u8>) -> Seq<u8>
    decreases s.len(),
{
    if s.len() > 0 && s[0] == 32 {
        spec_trim_spaces(s.skip(1))
    } else {
        s
    }
}

/// The exact relation between a header line and its parse: the key is
/// the text before the first colon, the value the text after it with
/// leading spaces removed.
pub open spec fn spec_header_line_ok(line: Seq<u8>, h: Header) -> bool {
    crate::wire::spec_find_byte(line, 58) matches Some(i) && {
        &&& valid_utf8(line.subrange(0, i))
        &&& spec_key_chars(h.key) == decode_utf8(line.subrange(0, i))
        &&& spec_key_classified(decode_utf8(line.subrange(0, i)), h.key)
        &&& valid_utf8(spec_trim_spaces(line.skip(i + 1)))
        &&& h.value.0@ == decode_utf8(spec_trim_spaces(line.skip(i + 1)))
    }
}

/// A header line the parser accepts: a colon is present and both sides
/// decode as UTF-8.
pub open spec fn spec_line_shape_ok(line: Seq<u8>) -> bool {
    crate::wire::spec_find_byte(line, 58) matches Some(i) && valid_utf8(line.subrange(0, i))
        && valid_utf8(spec_trim_spaces(line.skip(i + 1)))
}

impl Header {
    pub fn new(key: String, value: String) -> (r: Result<Header, ParseHttpError>)
        ensures
            r matches Ok(h) && spec_key_chars(h.key) == key@ && h.value.0@ == value@,
    {
        let k = match HeaderKey::new(key) {
            Ok(k) => k,
            Err(e) => {
                return Err(e);
            },
        };
        let v = match HeaderValue::new(value) {
            Ok(v) => v,
            Err(e) => {
                return Err(e);
            },
        };
        Ok(Header { key: k, value: v })
    }

    /// Serializes the header line (without the terminator).
    pub fn encode(&self) -> (r: Vec<u8>)
        ensures
            r@ =~= spec_header_line(*self),
    {
        let mut out = self.key.to_bytes();
        out.push(58);
        out.push(32);
        let mut vb = self.value.to_bytes();
        out.append(&mut vb);
        out
    }

    /// Parses a header line: the key before the first colon, the value
    /// after it with leading spaces removed.  Fails exactly when no colon
    /// is present or a side is not UTF-8.
    pub fn parse(line: &[u8]) -> (r: Result<Header, ParseHttpError>)
        ensures
            match r {
                Ok(h) => spec_header_line_ok(line@, h),
                Err(e) => {
                    &&& e matches ParseHttpError::ParseHeaderError(_)
                    &&& !spec_line_shape_ok(line@)
                },
            },
    {
        let n = line.len();
        let i = match crate::wire::find_byte(line, 58) {
            Some(i) => i,
            None => {
                return Err(
                    ParseHttpError::ParseHeaderError(String::from_str("Invalid Header")),
                );
            },
        };
        let key_bytes = crate::wire::copy_range(line, 0, i);
        proof {
            assert(key_bytes@ =~= line@.subrange(0, i as int));
        }
        let key_s = match utf8_to_string(key_bytes) {
            Some(s) => s,
            None => {
                return Err(
                    ParseHttpError::ParseHeaderError(String::from_str("Invalid utf-8")),
                );
            },
        };
        let mut j: usize = i + 1;
        proof {
            assert(line@.skip(i + 1) =~= line@.skip(j as int));
        }
        while j < n && line[j] == 32
            invariant
                n == line@.len(),
                i + 1 <= j <= n,
                spec_trim_spaces(line@.skip(i + 1)) == spec_trim_spaces(line@.skip(j as int)),
            decreases line@.len() - j,
        {
            proof {
                assert(line@.skip(j as int)[0] == 32);
                assert(line@.skip(j as int).skip(1) =~= line@.skip(j + 1));
            }
            j = j + 1;
        }
        proof {
            if j < line@.len() {
                assert(line@.skip(j as int)[0] != 32);
            } else {
                assert(line@.skip(j as int).len() == 0);
            }
            assert(spec_trim_spaces(line@.skip(j as int)) == line@.skip(j as int));
        }
        let value_bytes = crate::wire::copy_range(line, j, n);
        proof {
            assert(value_bytes@ =~= line@.skip(j as int));
        }
        let value_s = match utf8_to_string(value_bytes) {
            Some(s) => s,
            None => {
                return Err(
                    ParseHttpError::ParseHeaderError(String::from_str("Invalid utf-8 Value")),
                );
            },
        };
        let key = match HeaderKey::new(key_s) {
            Ok(k) => k,
            Err(e) => {
                return Err(ParseHttpError::ParseHeaderError(String::from_str("Invalid Header")));
            },
        };
        Ok(Header { key, value: HeaderValue(value_s) })
    }
}

} // verus!
