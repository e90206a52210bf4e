//! The response side of the protocol: the byte-exact status-line parser and
//! the framer that separates header bytes from body bytes.
use crate::status::{status_of, valid_status_code, InvalidStatusError, Status};
use crate::text::{
    all_digits, dec_val, find_first, parse_dec_bounded, starts_with_char, str_find,
    utf8_from_bytes,
};
use vstd::prelude::*;
use vstd::slice::{slice_index_get, slice_subrange, slice_to_vec};
use vstd::string::*;
use vstd::utf8::{decode_utf8, encode_utf8, valid_utf8};

verus! {

#[derive(Debug)]
pub enum ResponseHeaderParseError {
    Malformed(&'static str),
    Status(InvalidStatusError),
}

/// A parsed status line: the status and the META text whose meaning the
/// status selects.
#[derive(Debug, Clone)]
pub struct ResponseHeader {
    pub status: Status,
    meta: String,
}

/// How a header parse can come out: accepted with a status and META, or
/// refused at one of the checks, in their fixed order.
pub ghost enum HeaderParse {
    Accepted(Status, Seq<char>),
    NotUtf8,
    LeadingBom,
    MissingCrlf,
    MissingSpace,
    BadNumber,
    BadCode(u8),
    MetaTooLong,
    MetaBom,
}

/// The position of the first `\r\n` pair in `s`, if any.
pub open spec fn find_crlf(s: Seq<char>) -> Option<int>
    decreases s.len(),
{
    if s.len() < 2 {
        None
    } else if s[0] == '\r' && s[1] == '\n' {
        Some(0int)
    } else {
        match find_crlf(s.skip(1)) {
            Some(i) => Some(i + 1),
            None => None,
        }
    }
}

/// `find_crlf` points at a `\r\n` pair and no pair starts before it.
pub proof fn lemma_find_crlf(s: Seq<char>)
    ensures
        match find_crlf(s) {
            Some(i) => 0 <= i && i + 2 <= s.len() && s[i] == '\r' && s[i + 1] == '\n' && (forall|
                j: int,
            |
                0 <= j < i ==> !(#[trigger] s[j] == '\r' && s[j + 1] == '\n')),
            None => forall|j: int| 0 <= j && j + 2 <= s.len() ==> !(#[trigger] s[j] == '\r' && s[j + 1]
                == '\n'),
        },
    decreases s.len(),
{
    if s.len() >= 2 && !(s[0] == '\r' && s[1] == '\n') {
        let t = s.skip(1);
        lemma_find_crlf(t);
        match find_crlf(t) {
            Some(i) => {
                assert(t[i] == s[i + 1]);
                assert(t[i + 1] == s[i + 2]);
                assert forall|j: int| 0 <= j < i + 1 implies !(#[trigger] s[j] == '\r' && s[j + 1] == '\n') by {
                    if j > 0 {
                        assert(t[j - 1] == s[j]);
                        assert(t[j] == s[j + 1]);
                    }
                }
            },
            None => {
                assert forall|j: int| 0 <= j && j + 2 <= s.len() implies !(#[trigger] s[j] == '\r' && s[j + 1]
                    == '\n') by {
                    if j > 0 {
                        assert(t[j - 1] == s[j]);
                        assert(t[j] == s[j + 1]);
                    }
                }
            },
        }
    }
}

/// Scans `s` for the first `\r\n` pair.
fn str_find_crlf(s: &str) -> (r: Option<usize>)
    ensures
        match r {
            Some(i) => i + 2 <= s@.len() && find_crlf(s@) == Some(i as int),
            None => find_crlf(s@) is None,
        },
{
    let n = s.unicode_len();
    let mut i: usize = 0;
    while n - i > 1
        invariant
            i <= n,
            n == s@.len(),
            forall|j: int| 0 <= j < i ==> !(#[trigger] s@[j] == '\r' && s@[j + 1] == '\n'),
        decreases n - i,
    {
        if s.get_char(i) == '\r' && s.get_char(i + 1) == '\n' {
            proof {
                lemma_find_crlf(s@);
            }
            return Some(i);
        }
        i = i + 1;
    }
    proof {
        lemma_find_crlf(s@);
    }
    None
}

/// The whole status-line grammar, over the raw bytes: they must be UTF-8
/// without a leading byte-order mark and contain a `\r\n`; the text before
/// the first `\r\n` splits at its first space into a numeric status token
/// and a META of at most 1024 bytes that does not start with a byte-order
/// mark.
pub open spec fn spec_parse_header(bytes: Seq<u8>) -> HeaderParse {
    if !valid_utf8(bytes) {
        HeaderParse::NotUtf8
    } else {
        let chars = decode_utf8(bytes);
        if chars.len() > 0 && chars[0] == '\u{FEFF}' {
            HeaderParse::LeadingBom
        } else {
            match find_crlf(chars) {
                None => HeaderParse::MissingCrlf,
                Some(i) => {
                    let line = chars.subrange(0, i);
                    match find_first(line, ' ') {
                        None => HeaderParse::MissingSpace,
                        Some(j) => {
                            let tok = line.subrange(0, j);
                            let meta = line.subrange(j + 1, line.len() as int);
                            if !(tok.len() > 0 && all_digits(tok) && dec_val(tok) <= 255) {
                                HeaderParse::BadNumber
                            } else if !valid_status_code(dec_val(tok) as u8) {
                                HeaderParse::BadCode(dec_val(tok) as u8)
                            } else if encode_utf8(meta).len() > 1024 {
                                HeaderParse::MetaTooLong
                            } else if meta.len() > 0 && meta[0] == '\u{FEFF}' {
                                HeaderParse::MetaBom
                            } else {
                                HeaderParse::Accepted(status_of(dec_val(tok) as u8), meta)
                            }
                        },
                    }
                },
            }
        }
    }
}

/// What a parse result must look like for each outcome of
/// `spec_parse_header`: the accepted status and META, or the error naming
/// the failed check.
pub open spec fn header_parse_post(
    r: Result<ResponseHeader, ResponseHeaderParseError>,
    h: HeaderParse,
) -> bool {
    match h {
        HeaderParse::Accepted(st, m) => r matches Ok(hd) && hd.spec_status() == st
            && hd.spec_meta() == m,
        HeaderParse::NotUtf8 => r matches Err(ResponseHeaderParseError::Malformed(msg)) && msg@
            == "is not valid UTF-8"@,
        HeaderParse::LeadingBom => r matches Err(ResponseHeaderParseError::Malformed(msg)) && msg@
            == "header starts with U+FEFF"@,
        HeaderParse::MissingCrlf => r matches Err(ResponseHeaderParseError::Malformed(msg)) && msg@
            == "does not end with a CR/LF"@,
        HeaderParse::MissingSpace => r matches Err(ResponseHeaderParseError::Malformed(msg))
            && msg@ == "missing space (0x20) separator"@,
        HeaderParse::BadNumber => r matches Err(ResponseHeaderParseError::Malformed(msg)) && msg@
            == "invalid status code"@,
        HeaderParse::BadCode(c) => r matches Err(ResponseHeaderParseError::Status(e)) && e
            == InvalidStatusError(c),
        HeaderParse::MetaTooLong => r matches Err(ResponseHeaderParseError::Malformed(msg)) && msg@
            == "META is be longer than 1024 bytes"@,
        HeaderParse::MetaBom => r matches Err(ResponseHeaderParseError::Malformed(msg)) && msg@
            == "META starts with U+FEFF"@,
    }
}

/// Only the text up to and including the first CR LF determines a header
/// parse: two well-formed-UTF-8 inputs whose decoded characters agree
/// through the first CR LF pair parse to the very same outcome, whatever
/// follows that pair in either of them.
pub proof fn lemma_parse_header_ignores_tail(b1: Seq<u8>, b2: Seq<u8>)
    requires
        valid_utf8(b1),
        valid_utf8(b2),
        ({
            let c1 = decode_utf8(b1);
            let c2 = decode_utf8(b2);
            match find_crlf(c1) {
                Some(i) => i + 2 <= c2.len() && c1.subrange(0, i + 2) == c2.subrange(0, i + 2),
                None => false,
            }
        }),
    ensures
        spec_parse_header(b1) == spec_parse_header(b2),
{
    let c1 = decode_utf8(b1);
    let c2 = decode_utf8(b2);
    lemma_find_crlf(c1);
    match find_crlf(c1) {
        Some(i) => {
            assert(c1.subrange(0, i + 2)[i] == c1[i]);
            assert(c1.subrange(0, i + 2)[i + 1] == c1[i + 1]);
            assert(c2.subrange(0, i + 2)[i] == c2[i]);
            assert(c2.subrange(0, i + 2)[i + 1] == c2[i + 1]);
            assert(c2[i] == '\r' && c2[i + 1] == '\n');
            assert forall|j: int| 0 <= j < i implies !(#[trigger] c2[j] == '\r' && c2[j + 1]
                == '\n') by {
                assert(c1.subrange(0, i + 2)[j] == c1[j]);
                assert(c1.subrange(0, i + 2)[j + 1] == c1[j + 1]);
                assert(c2.subrange(0, i + 2)[j] == c2[j]);
                assert(c2.subrange(0, i + 2)[j + 1] == c2[j + 1]);
            }
            lemma_find_crlf(c2);
            assert(find_crlf(c2) == Some(i));
            assert(c1.subrange(0, i + 2)[0] == c1[0]);
            assert(c2.subrange(0, i + 2)[0] == c2[0]);
            assert(c1.subrange(0, i) =~= c2.subrange(0, i)) by {
                assert forall|j: int| 0 <= j < i implies c1.subrange(0, i)[j] == c2.subrange(
                    0,
                    i,
                )[j] by {
                    assert(c1.subrange(0, i + 2)[j] == c1[j]);
                    assert(c2.subrange(0, i + 2)[j] == c2[j]);
                }
            }
        },
        None => {},
    }
}

/// The two bytes CR LF are well-formed UTF-8 and decode to `\r\n`.
proof fn lemma_crlf_bytes()
    ensures
        valid_utf8(seq![13u8, 10u8]),
        decode_utf8(seq![13u8, 10u8]) == seq!['\r', '\n'],
{
    let chars = seq!['\r', '\n'];
    assert((13u32 & 0x7F) == 13 && (10u32 & 0x7F) == 10) by (bit_vector);
    assert(vstd::utf8::encode_scalar('\r' as u32) =~= seq![13u8]);
    assert(vstd::utf8::encode_scalar('\n' as u32) =~= seq![10u8]);
    assert(chars.drop_first() =~= seq!['\n']);
    assert(seq!['\n'].drop_first() =~= Seq::<char>::empty());
    assert(encode_utf8(seq!['\n'].drop_first()) =~= Seq::<u8>::empty());
    assert(encode_utf8(seq!['\n']) =~= seq![10u8]);
    assert(encode_utf8(chars) =~= seq![13u8, 10u8]);
    vstd::utf8::encode_utf8_valid_utf8(chars);
    vstd::utf8::encode_utf8_decode_utf8(chars);
}

/// Decoding distributes over a header region, a CR LF pair, and a tail.
proof fn lemma_decode_with_tail(h: Seq<u8>, t: Seq<u8>)
    requires
        valid_utf8(h),
        valid_utf8(t),
    ensures
        valid_utf8(h + seq![13u8, 10u8] + t),
        decode_utf8(h + seq![13u8, 10u8] + t) == decode_utf8(h) + seq!['\r', '\n'] + decode_utf8(
            t,
        ),
{
    let crlf = seq![13u8, 10u8];
    lemma_crlf_bytes();
    vstd::utf8::valid_utf8_concat(h, crlf);
    let hc = h + crlf;
    vstd::utf8::valid_utf8_concat(hc, t);
    let b = h + crlf + t;
    if t.len() == 0 {
        assert(b =~= hc);
        assert(t =~= Seq::<u8>::empty());
        assert(decode_utf8(t) =~= Seq::<char>::empty());
    } else {
        vstd::utf8::is_char_boundary_start_end_of_seq(t);
        vstd::utf8::is_char_boundary_iff_not_is_continuation_byte(t, 0);
        assert(b[hc.len() as int] == t[0]);
        vstd::utf8::is_char_boundary_iff_not_is_continuation_byte(b, hc.len() as int);
        vstd::utf8::decode_utf8_split(b, hc.len() as int);
        assert(b.subrange(0, hc.len() as int) =~= hc);
        assert(b.subrange(hc.len() as int, b.len() as int) =~= t);
    }
    assert(hc[h.len() as int] == 13u8);
    vstd::utf8::is_char_boundary_iff_not_is_continuation_byte(hc, h.len() as int);
    vstd::utf8::decode_utf8_split(hc, h.len() as int);
    assert(hc.subrange(0, h.len() as int) =~= h);
    assert(hc.subrange(h.len() as int, hc.len() as int) =~= crlf);
    assert(decode_utf8(b) =~= decode_utf8(h) + seq!['\r', '\n'] + decode_utf8(t));
}

/// In text made of a CR-LF-free region, a CR LF pair, and anything after,
/// that pair is the first one.
proof fn lemma_crlf_first_position(dh: Seq<char>, dt: Seq<char>)
    requires
        find_crlf(dh) is None,
    ensures
        find_crlf(dh + seq!['\r', '\n'] + dt) == Some(dh.len() as int),
{
    let c = dh + seq!['\r', '\n'] + dt;
    lemma_find_crlf(dh);
    lemma_find_crlf(c);
    assert(c[dh.len() as int] == '\r' && c[dh.len() as int + 1] == '\n');
    assert forall|j: int| 0 <= j < dh.len() implies !(#[trigger] c[j] == '\r' && c[j + 1]
        == '\n') by {
        if j + 1 < dh.len() {
            assert(c[j] == dh[j] && c[j + 1] == dh[j + 1]);
        } else {
            assert(c[j + 1] == '\r');
        }
    }
}

/// Bytes after the first CR LF never change what a header parse gives:
/// when the decoded text of the region `h` holds no CR LF pair, the parse
/// of `h ++ CR LF ++ t` is the same for every well-formed-UTF-8 tail `t`.
pub proof fn lemma_parse_header_after_crlf(h: Seq<u8>, t1: Seq<u8>, t2: Seq<u8>)
    requires
        valid_utf8(h),
        valid_utf8(t1),
        valid_utf8(t2),
        find_crlf(decode_utf8(h)) is None,
    ensures
        spec_parse_header(h + seq![13u8, 10u8] + t1) == spec_parse_header(
            h + seq![13u8, 10u8] + t2,
        ),
{
    let dh = decode_utf8(h);
    let b1 = h + seq![13u8, 10u8] + t1;
    let b2 = h + seq![13u8, 10u8] + t2;
    lemma_decode_with_tail(h, t1);
    lemma_decode_with_tail(h, t2);
    let c1 = decode_utf8(b1);
    let c2 = decode_utf8(b2);
    lemma_crlf_first_position(dh, decode_utf8(t1));
    lemma_crlf_first_position(dh, decode_utf8(t2));
    assert(c1.subrange(0, dh.len() as int + 2) =~= dh + seq!['\r', '\n']);
    assert(c2.subrange(0, dh.len() as int + 2) =~= dh + seq!['\r', '\n']);
    lemma_parse_header_ignores_tail(b1, b2);
}

impl ResponseHeader {
    /// The META text.
    pub closed spec fn spec_meta(&self) -> Seq<char> {
        self.meta@
    }

    /// The status.
    pub closed spec fn spec_status(&self) -> Status {
        self.status
    }

    /// The construction-time bound on META's size in bytes.
    pub open spec fn wf(&self) -> bool {
        encode_utf8(self.spec_meta()).len() <= 1024
    }

    /// Packs a status with a META text, refusing an oversized META.
    pub fn new(status: Status, meta: &str) -> (r: Result<ResponseHeader, &'static str>)
        ensures
            encode_utf8(meta@).len() <= 1024 <==> r is Ok,
            r matches Ok(h) ==> h.spec_status() == status && h.spec_meta() == meta@ && h.wf(),
    {
        if meta.as_bytes().len() > 1024 {
            Err("meta can be no longer than 1024 bytes")
        } else {
            Ok(ResponseHeader { status, meta: String::from_str(meta) })
        }
    }

    /// Parses a status line out of raw bytes, exactly as
    /// `spec_parse_header` describes; everything after the first `\r\n` is
    /// ignored.
    pub fn parse(src: &[u8]) -> (r: Result<ResponseHeader, ResponseHeaderParseError>)
        ensures
            header_parse_post(r, spec_parse_header(src@)),
            r matches Ok(h) ==> h.wf(),
    {
        let s = match utf8_from_bytes(src) {
            Some(s) => s,
            None => {
                return Err(ResponseHeaderParseError::Malformed("is not valid UTF-8"));
            },
        };
        if starts_with_char(s, '\u{FEFF}') {
            return Err(ResponseHeaderParseError::Malformed("header starts with U+FEFF"));
        }
        let line = match str_find_crlf(s) {
            Some(i) => s.substring_char(0, i),
            None => {
                return Err(ResponseHeaderParseError::Malformed("does not end with a CR/LF"));
            },
        };
        let (tok, meta) = match str_find(line, ' ') {
            Some(j) => {
                let ln = line.unicode_len();
                (line.substring_char(0, j), line.substring_char(j + 1, ln))
            },
            None => {
                return Err(ResponseHeaderParseError::Malformed("missing space (0x20) separator"));
            },
        };
        let code = match parse_dec_bounded(tok, 255) {
            Some(v) => v as u8,
            None => {
                return Err(ResponseHeaderParseError::Malformed("invalid status code"));
            },
        };
        let status = match Status::try_from(code) {
            Ok(st) => st,
            Err(e) => {
                return Err(ResponseHeaderParseError::Status(e));
            },
        };
        if meta.as_bytes().len() > 1024 {
            return Err(ResponseHeaderParseError::Malformed("META is be longer than 1024 bytes"));
        }
        if starts_with_char(meta, '\u{FEFF}') {
            return Err(ResponseHeaderParseError::Malformed("META starts with U+FEFF"));
        }
        Ok(ResponseHeader { status, meta: String::from_str(meta) })
    }

    /// The META text, whose meaning depends on the status.
    pub fn meta(&self) -> (r: &str)
        ensures
            r@ == self.spec_meta(),
    {
        self.meta.as_str()
    }

    pub fn status(&self) -> (r: Status)
        ensures
            r == self.spec_status(),
    {
        self.status
    }
}

#[derive(Debug)]
pub enum ResponseReadError {
    HeaderParse(ResponseHeaderParseError),
    MissingHeader,
}

/// A complete response: the parsed header and the raw body bytes.
#[derive(Debug)]
pub struct Response {
    pub header: ResponseHeader,
    pub body: Vec<u8>,
}

/// The position of the first CR LF byte pair in `s`, if any.
pub open spec fn find_crlf_bytes(s: Seq<u8>) -> Option<int>
    decreases s.len(),
{
    if s.len() < 2 {
        None
    } else if s[0] == 13u8 && s[1] == 10u8 {
        Some(0int)
    } else {
        match find_crlf_bytes(s.skip(1)) {
            Some(i) => Some(i + 1),
            None => None,
        }
    }
}

/// `find_crlf_bytes` points at a CR LF pair and no pair starts before it.
pub proof fn lemma_find_crlf_bytes(s: Seq<u8>)
    ensures
        match find_crlf_bytes(s) {
            Some(i) => 0 <= i && i + 2 <= s.len() && s[i] == 13u8 && s[i + 1] == 10u8 && (forall|
                j: int,
            |
                0 <= j < i ==> !(#[trigger] s[j] == 13u8 && s[j + 1] == 10u8)),
            None => forall|j: int| 0 <= j && j + 2 <= s.len() ==> !(#[trigger] s[j] == 13u8 && s[j + 1]
                == 10u8),
        },
    decreases s.len(),
{
    if s.len() >= 2 && !(s[0] == 13u8 && s[1] == 10u8) {
        let t = s.skip(1);
        lemma_find_crlf_bytes(t);
        match find_crlf_bytes(t) {
            Some(i) => {
                assert(t[i] == s[i + 1]);
                assert(t[i + 1] == s[i + 2]);
                assert forall|j: int| 0 <= j < i + 1 implies !(#[trigger] s[j] == 13u8 && s[j + 1] == 10u8) by {
                    if j > 0 {
                        assert(t[j - 1] == s[j]);
                        assert(t[j] == s[j + 1]);
                    }
                }
            },
            None => {
                assert forall|j: int| 0 <= j && j + 2 <= s.len() implies !(#[trigger] s[j] == 13u8 && s[j + 1]
                    == 10u8) by {
                    if j > 0 {
                        assert(t[j - 1] == s[j]);
                        assert(t[j] == s[j + 1]);
                    }
                }
            },
        }
    }
}

/// Scans bytes for the first CR LF pair.
fn find_crlf_in(data: &[u8]) -> (r: Option<usize>)
    ensures
        match r {
            Some(i) => i + 2 <= data@.len() && find_crlf_bytes(data@) == Some(i as int),
            None => find_crlf_bytes(data@) is None,
        },
{
    let n = data.len();
    let mut i: usize = 0;
    while n - i > 1
        invariant
            i <= n,
            n == data@.len(),
            forall|j: int| 0 <= j < i ==> !(#[trigger] data@[j] == 13u8 && data@[j + 1] == 10u8),
        decreases n - i,
    {
        if *slice_index_get(data, i) == 13u8 && *slice_index_get(data, i + 1) == 10u8 {
            proof {
                lemma_find_crlf_bytes(data@);
            }
            return Some(i);
        }
        i = i + 1;
    }
    proof {
        lemma_find_crlf_bytes(data@);
    }
    None
}

impl Response {
    /// Splits a byte stream at the first CR LF pair: the bytes up to and
    /// including it are parsed as the header, everything after is the body,
    /// carried through untouched.  A stream without a CR LF has no header;
    /// a header the parser refuses fails with the parser's error.
    pub fn read(data: &[u8]) -> (r: Result<Response, ResponseReadError>)
        ensures
            match find_crlf_bytes(data@) {
                None => r matches Err(e) && e matches ResponseReadError::MissingHeader,
                Some(i) => match spec_parse_header(data@.subrange(0, i + 2)) {
                    HeaderParse::Accepted(st, m) => r matches Ok(resp) && resp.header.spec_status()
                        == st && resp.header.spec_meta() == m && resp.header.wf() && resp.body@
                        == data@.subrange(i + 2, data@.len() as int),
                    _ => r matches Err(ResponseReadError::HeaderParse(e)) && header_parse_post(
                        Err(e),
                        spec_parse_header(data@.subrange(0, i + 2)),
                    ),
                },
            },
    {
        match find_crlf_in(data) {
            None => Err(ResponseReadError::MissingHeader),
            Some(i) => {
                let n = data.len();
                let header_bytes: &[u8] = slice_subrange(data, 0, i + 2);
                match ResponseHeader::parse(header_bytes) {
                    Err(e) => Err(ResponseReadError::HeaderParse(e)),
                    Ok(h) => {
                        let body = slice_to_vec(slice_subrange(data, i + 2, n));
                        Ok(Response { header: h, body })
                    },
                }
            },
        }
    }

    /// The body as text, when it is well-formed UTF-8.
    pub fn body_as_str(&self) -> (r: Option<&str>)
        ensures
            r is Some <==> valid_utf8(self.body@),
            r matches Some(s) ==> s@ == decode_utf8(self.body@),
    {
        utf8_from_bytes(self.body.as_slice())
    }
}

} // verus!
