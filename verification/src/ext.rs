//! The library's trusted boundary: every call into an outside crate, and
//! the one std conversion Verus has no specification for, stands here
//! behind a contract. Nothing else in the crate is taken on trust.
use vstd::prelude::*;

verus! {

/// `c` is a decimal digit or an upper-case hexadecimal letter.
pub open spec fn is_upper_hex(c: char) -> bool {
    ('0' <= c && c <= '9') || ('A' <= c && c <= 'F')
}

/// Relies on `rand::random_range` over `0..n`: the result lies below `n`.
/// Nothing is assumed about which value comes back.
#[verifier::external_body]
pub fn rand_below(n: u32) -> (r: u32)
    requires
        n > 0,
    ensures
        r < n,
{
    rand::random_range(0..n)
}

/// Relies on `uuid::Uuid::new_v4` and the `simple` format (uuid 1.x):
/// 32 hexadecimal digits, here upper-cased. Nothing is assumed about
/// which digits come back.
#[verifier::external_body]
pub fn uuid_simple_upper() -> (r: String)
    ensures
        r@.len() == 32,
        forall|i: int| 0 <= i < r@.len() ==> is_upper_hex(#[trigger] r@[i]),
{
    uuid::Uuid::new_v4().simple().to_string().to_uppercase()
}

/// What the GB18030 decoding procedure below yields for the given bytes.
pub uninterp spec fn gb18030_decoded(data: Seq<u8>) -> Seq<char>;

/// Relies on `encoding_rs::GB18030.decode`: deterministic in the input,
/// and ASCII-compatible, so all-ASCII input decodes to the characters
/// with the same code points. Input reported malformed is mapped to the
/// empty string by this procedure.
#[verifier::external_body]
pub fn gb18030_decode(data: &[u8]) -> (r: String)
    ensures
        r@ == gb18030_decoded(data@),
        (forall|i: int| 0 <= i < data@.len() ==> data@[i] < 128) ==> r@ == data@.map_values(
            |b: u8| b as char,
        ),
{
    let (body, _encoding, has_error) = encoding_rs::GB18030.decode(data);
    if has_error {
        String::new()
    } else {
        body.into_owned()
    }
}

/// Every character lies in the Basic Multilingual Plane.
pub open spec fn bmp_chars(s: Seq<char>) -> bool {
    forall|i: int| 0 <= i < s.len() ==> ((#[trigger] s[i]) as u32) < 0x10000
}

/// What the GB2312 encoder yields for the given characters.
pub uninterp spec fn gb2312_encoded(s: Seq<char>) -> Seq<u8>;

/// Relies on textcode's `Gb2312` encoder (textcode 0.5): deterministic in
/// the input, and characters up to 0x7F are written as the single byte
/// with the same code point. Characters beyond the Basic Multilingual
/// Plane are excluded: the encoder's high-byte table lookup would go out
/// of bounds on them (textcode 0.5, gb2312.rs).
#[verifier::external_body]
pub fn gb2312_encode(s: &str) -> (r: Vec<u8>)
    requires
        bmp_chars(s@),
    ensures
        r@ == gb2312_encoded(s@),
        (forall|i: int| 0 <= i < s@.len() ==> (s@[i] as u32) < 128) ==> r@ == s@.map_values(
            |c: char| c as u8,
        ),
{
    textcode::encode::<textcode::Gb2312>(s)
}

/// Whether the HTTP-Digest check below accepts the response for these
/// arguments; a function of the arguments alone.
pub uninterp spec fn digest_matches(
    username: Seq<char>,
    password: Seq<char>,
    realm: Seq<char>,
    nonce: Seq<char>,
    method: Seq<char>,
    uri: Seq<char>,
    qop: Option<(Seq<char>, u8)>,
    response: Seq<char>,
) -> bool;

/// Relies on rsip 0.4's `services::DigestGenerator::verify` with algorithm
/// MD5, the request URI parsed by rsip's `TryFrom<&str>` and the method by
/// its `FromStr`; `qop`, when present, carries `(cnonce, nc)` for
/// `qop=auth`. Unparseable URIs or methods are rejected by this procedure.
#[verifier::external_body]
pub fn digest_verify(
    username: &str,
    password: &str,
    realm: &str,
    nonce: &str,
    method: &str,
    uri: &str,
    qop: Option<(&str, u8)>,
    response: &str,
) -> (r: bool)
    ensures
        r == digest_matches(
            username@,
            password@,
            realm@,
            nonce@,
            method@,
            uri@,
            match qop {
                Some(q) => Some((q.0@, q.1)),
                None => None,
            },
            response@,
        ),
{
    let parsed_uri = match rsip::common::uri::Uri::try_from(uri) { Ok(u) => u, Err(_) => return false };
    let parsed_method: Result<rsip::common::Method, _> = std::str::FromStr::from_str(method);
    let parsed_method = match parsed_method { Ok(m) => m, Err(_) => return false };
    let typed_qop = qop.map(
        |(cnonce, nc)| rsip::headers::auth::AuthQop::Auth { cnonce: cnonce.to_owned(), nc },
    );
    let generator = rsip::services::DigestGenerator {
        username, password, nonce, uri: &parsed_uri, realm,
        method: &parsed_method, qop: typed_qop.as_ref(),
        algorithm: rsip::headers::auth::Algorithm::Md5,
    };
    generator.verify(response)
}

/// Relies on `String::from_utf8` (std): bytes below 0x80 are valid UTF-8
/// and decode to the characters with the same code points.
#[verifier::external_body]
pub fn ascii_string(b: &[u8]) -> (r: String)
    requires
        forall|i: int| 0 <= i < b@.len() ==> b@[i] < 128,
    ensures
        r@ == b@.map_values(|x: u8| x as char),
{
    String::from_utf8(b.to_vec()).unwrap_or_default()
}

} // verus!
