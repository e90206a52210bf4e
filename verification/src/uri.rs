//! URI decomposition and reconstruction.
//!
//! `Uri` is a zero-copy view of seven optional components sliced out of one
//! source string; `UriOwned` is the independently allocated copy.  The
//! splitting rules are stated once, as spec functions over `Seq<char>`, and
//! the executable parser is proved to compute exactly that decomposition.
use crate::text::{
    all_digits, char_is_alphabetic, char_is_digit, dec_val, find_first, find_last,
    is_alphabetic_char, is_digit, lemma_find_first, lemma_find_last, parse_dec_bounded, push_char,
    starts_with_2, starts_with_char, str_all_digits, str_find, str_rfind,
};
use vstd::prelude::*;
use vstd::string::*;

verus! {

/// Failure of URI validation.  The splitting rules themselves never fail:
/// this is reserved for stricter checks layered above them.
#[derive(Debug)]
pub enum Error {
    Invalid,
}

/// A URI split into its components, each borrowed from the parsed string.
#[derive(Debug, Clone, Copy)]
pub struct Uri<'a> {
    pub scheme: Option<&'a str>,
    pub userinfo: Option<&'a str>,
    pub host: Option<&'a str>,
    pub port: Option<&'a str>,
    pub path: Option<&'a str>,
    pub query: Option<&'a str>,
    pub fragment: Option<&'a str>,
}

/// A URI whose components are owned strings, independent of any buffer.
pub struct UriOwned {
    pub scheme: Option<String>,
    pub userinfo: Option<String>,
    pub host: Option<String>,
    pub port: Option<String>,
    pub path: Option<String>,
    pub query: Option<String>,
    pub fragment: Option<String>,
}

/// The mathematical model of a decomposed URI.
#[verifier::ext_equal]
pub ghost struct UriFields {
    pub scheme: Option<Seq<char>>,
    pub userinfo: Option<Seq<char>>,
    pub host: Option<Seq<char>>,
    pub port: Option<Seq<char>>,
    pub path: Option<Seq<char>>,
    pub query: Option<Seq<char>>,
    pub fragment: Option<Seq<char>>,
}

pub open spec fn view_opt_str(o: Option<&str>) -> Option<Seq<char>> {
    match o {
        Some(s) => Some(s@),
        None => None,
    }
}

pub open spec fn view_opt_string(o: Option<String>) -> Option<Seq<char>> {
    match o {
        Some(s) => Some(s@),
        None => None,
    }
}

impl<'a> View for Uri<'a> {
    type V = UriFields;

    open spec fn view(&self) -> UriFields {
        UriFields {
            scheme: view_opt_str(self.scheme),
            userinfo: view_opt_str(self.userinfo),
            host: view_opt_str(self.host),
            port: view_opt_str(self.port),
            path: view_opt_str(self.path),
            query: view_opt_str(self.query),
            fragment: view_opt_str(self.fragment),
        }
    }
}

impl View for UriOwned {
    type V = UriFields;

    open spec fn view(&self) -> UriFields {
        UriFields {
            scheme: view_opt_string(self.scheme),
            userinfo: view_opt_string(self.userinfo),
            host: view_opt_string(self.host),
            port: view_opt_string(self.port),
            path: view_opt_string(self.path),
            query: view_opt_string(self.query),
            fragment: view_opt_string(self.fragment),
        }
    }
}

/// Splits off the part after the last occurrence of `c`, if there is one.
pub open spec fn split_off_last(s: Seq<char>, c: char) -> (Seq<char>, Option<Seq<char>>) {
    match find_last(s, c) {
        Some(i) => (s.subrange(0, i), Some(s.subrange(i + 1, s.len() as int))),
        None => (s, None),
    }
}

/// A character a scheme may contain.
pub open spec fn is_scheme_char(c: char) -> bool {
    is_alphabetic_char(c) || is_digit(c) || c == '+' || c == '-' || c == '.'
}

pub open spec fn all_scheme_chars(s: Seq<char>) -> bool {
    forall|i: int| 0 <= i < s.len() ==> is_scheme_char(s[i])
}

/// Splits off a leading `scheme:` when the string starts with an alphabetic
/// character and everything before the first `:` is made of scheme
/// characters.
pub open spec fn split_off_scheme(s: Seq<char>) -> (Seq<char>, Option<Seq<char>>) {
    if s.len() > 0 && is_alphabetic_char(s[0]) {
        match find_first(s, ':') {
            Some(i) => if all_scheme_chars(s.subrange(0, i)) {
                (s.subrange(i + 1, s.len() as int), Some(s.subrange(0, i)))
            } else {
                (s, None)
            },
            None => (s, None),
        }
    } else {
        (s, None)
    }
}

/// The region after the scheme, decomposed: with a leading `//`, an
/// authority (path after its first `/`, port after its last `:` when all
/// digits, userinfo before a `@`, host what remains); without one, an
/// opaque path.  Returns userinfo, host, port and path.
pub open spec fn parse_middle(s3: Seq<char>) -> (
    Option<Seq<char>>,
    Option<Seq<char>>,
    Option<Seq<char>>,
    Option<Seq<char>>,
) {
    if s3.len() >= 2 && s3[0] == '/' && s3[1] == '/' {
        let a = s3.subrange(2, s3.len() as int);
        let (a1, path) = match find_first(a, '/') {
            Some(i) => (a.subrange(0, i), Some(a.subrange(i + 1, a.len() as int))),
            None => (a, None),
        };
        let (a2, port) = match find_last(a1, ':') {
            Some(i) => if all_digits(a1.subrange(i + 1, a1.len() as int)) {
                (a1.subrange(0, i), Some(a1.subrange(i + 1, a1.len() as int)))
            } else {
                (a1, None)
            },
            None => (a1, None),
        };
        let (userinfo, host) = match find_first(a2, '@') {
            Some(i) => (Some(a2.subrange(0, i)), a2.subrange(i + 1, a2.len() as int)),
            None => (None, a2),
        };
        (userinfo, Some(host), port, path)
    } else {
        (None, None, None, Some(s3))
    }
}

/// The decomposition of a URI string: fragment after the last `#`, query
/// after the last `?`, then the scheme, then the authority or opaque path
/// of `parse_middle`.
pub open spec fn spec_parse_uri(s: Seq<char>) -> UriFields {
    let (s1, fragment) = split_off_last(s, '#');
    let (s2, query) = split_off_last(s1, '?');
    let (s3, scheme) = split_off_scheme(s2);
    let (userinfo, host, port, path) = parse_middle(s3);
    UriFields { scheme, userinfo, host, port, path, query, fragment }
}

fn is_scheme(c: char) -> (r: bool)
    ensures
        r == is_scheme_char(c),
{
    char_is_alphabetic(c) || char_is_digit(c) || c == '+' || c == '-' || c == '.'
}

fn str_all_scheme(s: &str) -> (r: bool)
    ensures
        r == all_scheme_chars(s@),
{
    let n = s.unicode_len();
    let mut i: usize = 0;
    while i < n
        invariant
            i <= n,
            n == s@.len(),
            forall|j: int| 0 <= j < i ==> is_scheme_char(s@[j]),
        decreases n - i,
    {
        if !is_scheme(s.get_char(i)) {
            return false;
        }
        i = i + 1;
    }
    true
}

impl<'a> Uri<'a> {
    /// Decomposes `src` by the splitting rules of `spec_parse_uri`; this
    /// slicing never fails.
    pub fn new(src: &'a str) -> (r: Result<Uri<'a>, Error>)
        ensures
            r matches Ok(u) && u@ == spec_parse_uri(src@),
    {
        let ghost s0 = src@;
        let mut rest: &'a str = src;
        let mut fragment: Option<&'a str> = None;
        match str_rfind(rest, '#') {
            Some(i) => {
                let n = rest.unicode_len();
                fragment = Some(rest.substring_char(i + 1, n));
                rest = rest.substring_char(0, i);
            },
            None => {},
        }
        let ghost s1 = split_off_last(s0, '#').0;
        proof {
            assert(rest@ == s1);
            assert(view_opt_str(fragment) == split_off_last(s0, '#').1);
        }
        let mut query: Option<&'a str> = None;
        match str_rfind(rest, '?') {
            Some(i) => {
                let n = rest.unicode_len();
                query = Some(rest.substring_char(i + 1, n));
                rest = rest.substring_char(0, i);
            },
            None => {},
        }
        let ghost s2 = split_off_last(s1, '?').0;
        proof {
            assert(rest@ == s2);
            assert(view_opt_str(query) == split_off_last(s1, '?').1);
        }
        let mut scheme: Option<&'a str> = None;
        let starts_alpha = if rest.unicode_len() > 0 {
            char_is_alphabetic(rest.get_char(0))
        } else {
            false
        };
        if starts_alpha {
            match str_find(rest, ':') {
                Some(i) => {
                    let sch = rest.substring_char(0, i);
                    if str_all_scheme(sch) {
                        let n = rest.unicode_len();
                        scheme = Some(sch);
                        rest = rest.substring_char(i + 1, n);
                    }
                },
                None => {},
            }
        }
        let ghost s3 = split_off_scheme(s2).0;
        proof {
            assert(rest@ == s3);
            assert(view_opt_str(scheme) == split_off_scheme(s2).1);
        }
        if starts_with_2(rest, '/', '/') {
            let n = rest.unicode_len();
            let a = rest.substring_char(2, n);
            let mut au: &'a str = a;
            let mut path: Option<&'a str> = None;
            match str_find(a, '/') {
                Some(i) => {
                    let an = a.unicode_len();
                    path = Some(a.substring_char(i + 1, an));
                    au = a.substring_char(0, i);
                },
                None => {},
            }
            let mut port: Option<&'a str> = None;
            match str_rfind(au, ':') {
                Some(i) => {
                    let aun = au.unicode_len();
                    let p = au.substring_char(i + 1, aun);
                    if str_all_digits(p) {
                        port = Some(p);
                        au = au.substring_char(0, i);
                    }
                },
                None => {},
            }
            let mut userinfo: Option<&'a str> = None;
            let mut host: &'a str = au;
            match str_find(au, '@') {
                Some(i) => {
                    let aun = au.unicode_len();
                    userinfo = Some(au.substring_char(0, i));
                    host = au.substring_char(i + 1, aun);
                },
                None => {},
            }
            let u = Uri { scheme, userinfo, host: Some(host), port, path, query, fragment };
            proof {
                assert(u@ =~= spec_parse_uri(s0));
            }
            Ok(u)
        } else {
            let u = Uri {
                scheme,
                userinfo: None,
                host: None,
                port: None,
                path: Some(rest),
                query,
                fragment,
            };
            proof {
                assert(u@ =~= spec_parse_uri(s0));
            }
            Ok(u)
        }
    }
}

/// `s` without its leading `/` characters.
pub open spec fn trim_start_slashes(s: Seq<char>) -> Seq<char>
    decreases s.len(),
{
    if s.len() > 0 && s[0] == '/' {
        trim_start_slashes(s.skip(1))
    } else {
        s
    }
}

fn str_trim_start_slashes(s: &str) -> (r: &str)
    ensures
        r@ == trim_start_slashes(s@),
{
    let n = s.unicode_len();
    let mut i: usize = 0;
    proof {
        assert(s@.subrange(0, n as int) =~= s@);
    }
    while i < n && s.get_char(i) == '/'
        invariant
            i <= n,
            n == s@.len(),
            trim_start_slashes(s@) == trim_start_slashes(s@.subrange(i as int, n as int)),
        decreases n - i,
    {
        proof {
            assert(s@.subrange(i as int, n as int).skip(1) =~= s@.subrange(i + 1, n as int));
        }
        i = i + 1;
    }
    proof {
        if i < n {
            assert(trim_start_slashes(s@.subrange(i as int, n as int)) == s@.subrange(
                i as int,
                n as int,
            ));
        }
    }
    s.substring_char(i, n)
}

/// The leading `scheme:` of a printed URI, when a scheme is present.
pub open spec fn recompose_scheme(u: UriFields) -> Seq<char> {
    match u.scheme {
        Some(s) => s + seq![':'],
        None => Seq::<char>::empty(),
    }
}

/// The middle of a printed URI: with a host, `//`, userinfo and `@`, the
/// host, `:` and the port, and `/` with the path stripped of its leading
/// slashes; without one, the bare path.
pub open spec fn recompose_authority(
    userinfo: Option<Seq<char>>,
    host: Option<Seq<char>>,
    port: Option<Seq<char>>,
    path: Option<Seq<char>>,
) -> Seq<char> {
    match host {
        Some(h) => seq!['/', '/'] + (match userinfo {
            Some(ui) => ui + seq!['@'],
            None => Seq::<char>::empty(),
        }) + h + (match port {
            Some(p) => seq![':'] + p,
            None => Seq::<char>::empty(),
        }) + (match path {
            Some(p) => seq!['/'] + trim_start_slashes(p),
            None => Seq::<char>::empty(),
        }),
        None => match path {
            Some(p) => p,
            None => Seq::<char>::empty(),
        },
    }
}

/// The middle of a printed URI, over the fields of a decomposed one.
pub open spec fn recompose_middle(u: UriFields) -> Seq<char> {
    recompose_authority(u.userinfo, u.host, u.port, u.path)
}

/// The trailing `?query` of a printed URI, when a query is present.
pub open spec fn recompose_query(u: UriFields) -> Seq<char> {
    match u.query {
        Some(q) => seq!['?'] + q,
        None => Seq::<char>::empty(),
    }
}

/// The trailing `#fragment` of a printed URI, when a fragment is present.
pub open spec fn recompose_fragment(u: UriFields) -> Seq<char> {
    match u.fragment {
        Some(f) => seq!['#'] + f,
        None => Seq::<char>::empty(),
    }
}

/// The string a decomposed URI prints as.  Absent components are omitted.
pub open spec fn uri_recompose(u: UriFields) -> Seq<char> {
    recompose_scheme(u) + recompose_middle(u) + recompose_query(u) + recompose_fragment(u)
}

impl Uri<'_> {
    fn append_scheme(&self, s: &mut String)
        ensures
            final(s)@ == old(s)@ + recompose_scheme(self@),
    {
        proof {
            reveal_strlit(":");
        }
        if let Some(scheme) = self.scheme {
            s.append(scheme);
            s.append(":");
        }
        proof {
            assert(s@ =~= old(s)@ + recompose_scheme(self@));
        }
    }

    fn append_middle(&self, s: &mut String)
        ensures
            final(s)@ == old(s)@ + recompose_middle(self@),
    {
        proof {
            reveal_strlit("//");
            reveal_strlit("@");
            reveal_strlit(":");
            reveal_strlit("/");
        }
        if self.host.is_some() {
            s.append("//");
            if let Some(userinfo) = self.userinfo {
                s.append(userinfo);
                s.append("@");
            }
            if let Some(host) = self.host {
                s.append(host);
            }
            if let Some(port) = self.port {
                s.append(":");
                s.append(port);
            }
            if let Some(path) = self.path {
                s.append("/");
                s.append(str_trim_start_slashes(path));
            }
        } else {
            if let Some(path) = self.path {
                s.append(path);
            }
        }
        proof {
            assert(s@ =~= old(s)@ + recompose_middle(self@));
        }
    }

    fn append_tail(&self, s: &mut String)
        ensures
            final(s)@ == old(s)@ + recompose_query(self@) + recompose_fragment(self@),
    {
        proof {
            reveal_strlit("?");
            reveal_strlit("#");
        }
        if let Some(query) = self.query {
            s.append("?");
            s.append(query);
        }
        if let Some(fragment) = self.fragment {
            s.append("#");
            s.append(fragment);
        }
        proof {
            assert(s@ =~= old(s)@ + recompose_query(self@) + recompose_fragment(self@));
        }
    }

    /// Prints the URI back as one string, exactly `uri_recompose` of its
    /// components.
    pub fn to_string(&self) -> (r: String)
        ensures
            r@ == uri_recompose(self@),
    {
        let mut s = String::new();
        self.append_scheme(&mut s);
        self.append_middle(&mut s);
        self.append_tail(&mut s);
        proof {
            assert(s@ =~= uri_recompose(self@));
        }
        s
    }

    /// The numeric port to connect to: the protocol's default when the URI
    /// names none, the decimal value of the port component when it is a
    /// numeral in range, and nothing otherwise.
    pub fn port_number(&self) -> (r: Option<u16>)
        ensures
            match self.port {
                None => r == Some(1965u16),
                Some(p) => match r {
                    Some(v) => p@.len() > 0 && all_digits(p@) && v == dec_val(p@),
                    None => p@.len() == 0 || !all_digits(p@) || dec_val(p@) > 65535,
                },
            },
    {
        match self.port {
            None => Some(1965),
            Some(p) => match parse_dec_bounded(p, 65535) {
                Some(v) => Some(v as u16),
                None => None,
            },
        }
    }
}

impl UriOwned {
    /// Deep-copies a borrowed view into owned components.
    pub fn from(uri: Uri<'_>) -> (r: UriOwned)
        ensures
            r@ == uri@,
    {
        let scheme = match uri.scheme {
            Some(s) => Some(String::from_str(s)),
            None => None,
        };
        let userinfo = match uri.userinfo {
            Some(s) => Some(String::from_str(s)),
            None => None,
        };
        let host = match uri.host {
            Some(s) => Some(String::from_str(s)),
            None => None,
        };
        let port = match uri.port {
            Some(s) => Some(String::from_str(s)),
            None => None,
        };
        let path = match uri.path {
            Some(s) => Some(String::from_str(s)),
            None => None,
        };
        let query = match uri.query {
            Some(s) => Some(String::from_str(s)),
            None => None,
        };
        let fragment = match uri.fragment {
            Some(s) => Some(String::from_str(s)),
            None => None,
        };
        let r = UriOwned { scheme, userinfo, host, port, path, query, fragment };
        proof {
            assert(r@ =~= uri@);
        }
        r
    }

    /// Prints the owned URI, exactly as the borrowing view would print.
    pub fn to_string(&self) -> (r: String)
        ensures
            r@ == uri_recompose(self@),
    {
        let u = Uri::from(self);
        u.to_string()
    }
}

/// Splitting a sequence at position `i` and putting the separator back
/// reproduces it.
proof fn lemma_split_at(s: Seq<char>, i: int)
    requires
        0 <= i < s.len(),
    ensures
        s == s.subrange(0, i) + seq![s[i]] + s.subrange(i + 1, s.len() as int),
{
    assert(s =~= s.subrange(0, i) + seq![s[i]] + s.subrange(i + 1, s.len() as int));
}

/// What `split_off_last` takes apart, putting the separator back joins.
proof fn lemma_split_off_last_join(s: Seq<char>, c: char)
    ensures
        (match split_off_last(s, c).1 {
            Some(b) => s == split_off_last(s, c).0 + (seq![c] + b),
            None => split_off_last(s, c).0 == s,
        }),
{
    lemma_find_last(s, c);
    match find_last(s, c) {
        Some(i) => {
            lemma_split_at(s, i);
            assert(s =~= s.subrange(0, i) + (seq![c] + s.subrange(i + 1, s.len() as int)));
        },
        None => {},
    }
}

/// What `split_off_scheme` takes apart, putting the `:` back joins.
proof fn lemma_split_off_scheme_join(s: Seq<char>)
    ensures
        (match split_off_scheme(s).1 {
            Some(sch) => s == (sch + seq![':']) + split_off_scheme(s).0,
            None => split_off_scheme(s).0 == s,
        }),
{
    if s.len() > 0 && is_alphabetic_char(s[0]) {
        lemma_find_first(s, ':');
        match find_first(s, ':') {
            Some(i) => {
                if all_scheme_chars(s.subrange(0, i)) {
                    lemma_split_at(s, i);
                    assert(s =~= (s.subrange(0, i) + seq![':']) + s.subrange(
                        i + 1,
                        s.len() as int,
                    ));
                }
            },
            None => {},
        }
    }
}

/// Printing what `parse_middle` took apart reproduces the region, as long
/// as the path kept its leading slashes.
#[verifier::rlimit(50)]
proof fn lemma_parse_middle_join(s3: Seq<char>)
    requires
        (match parse_middle(s3).3 {
            Some(p) => parse_middle(s3).1 is Some ==> trim_start_slashes(p) == p,
            None => true,
        }),
    ensures
        recompose_authority(
            parse_middle(s3).0,
            parse_middle(s3).1,
            parse_middle(s3).2,
            parse_middle(s3).3,
        ) == s3,
{
    if s3.len() >= 2 && s3[0] == '/' && s3[1] == '/' {
        let a = s3.subrange(2, s3.len() as int);
        assert(s3 =~= seq!['/', '/'] + a);
        let a1 = match find_first(a, '/') {
            Some(i) => a.subrange(0, i),
            None => a,
        };
        let path_part: Seq<char> = match parse_middle(s3).3 {
            Some(p) => seq!['/'] + trim_start_slashes(p),
            None => Seq::<char>::empty(),
        };
        lemma_find_first(a, '/');
        match find_first(a, '/') {
            Some(i) => {
                lemma_split_at(a, i);
                assert(a =~= a1 + path_part);
            },
            None => {
                assert(a =~= a1 + path_part);
            },
        }
        let a2 = match find_last(a1, ':') {
            Some(i) => if all_digits(a1.subrange(i + 1, a1.len() as int)) {
                a1.subrange(0, i)
            } else {
                a1
            },
            None => a1,
        };
        let port_part: Seq<char> = match parse_middle(s3).2 {
            Some(p) => seq![':'] + p,
            None => Seq::<char>::empty(),
        };
        lemma_find_last(a1, ':');
        match find_last(a1, ':') {
            Some(i) => {
                if all_digits(a1.subrange(i + 1, a1.len() as int)) {
                    lemma_split_at(a1, i);
                }
                assert(a1 =~= a2 + port_part);
            },
            None => {
                assert(a1 =~= a2 + port_part);
            },
        }
        let userinfo_part: Seq<char> = match parse_middle(s3).0 {
            Some(ui) => ui + seq!['@'],
            None => Seq::<char>::empty(),
        };
        let host = parse_middle(s3).1->Some_0;
        lemma_find_first(a2, '@');
        match find_first(a2, '@') {
            Some(i) => {
                lemma_split_at(a2, i);
                assert(a2 =~= userinfo_part + host);
            },
            None => {
                assert(a2 =~= userinfo_part + host);
            },
        }
        assert(s3 =~= seq!['/', '/'] + userinfo_part + host + port_part + path_part);
    }
}

/// Reconstructing a parsed URI gives back the very string that was parsed,
/// for every string whose parsed path keeps its leading slashes when an
/// authority is present (printing puts exactly one `/` before the path, so
/// extra leading slashes there are the one thing parsing can forget).
pub proof fn lemma_uri_round_trip(s: Seq<char>)
    requires
        (match spec_parse_uri(s).path {
            Some(p) => spec_parse_uri(s).host is Some ==> trim_start_slashes(p) == p,
            None => true,
        }),
    ensures
        uri_recompose(spec_parse_uri(s)) == s,
{
    let u = spec_parse_uri(s);
    let s1 = split_off_last(s, '#').0;
    let s2 = split_off_last(s1, '?').0;
    let s3 = split_off_scheme(s2).0;

    lemma_split_off_last_join(s, '#');
    match split_off_last(s, '#').1 {
        Some(_) => {
            assert(s == s1 + recompose_fragment(u));
        },
        None => {
            assert(s1 + recompose_fragment(u) =~= s1);
        },
    }
    lemma_split_off_last_join(s1, '?');
    match split_off_last(s1, '?').1 {
        Some(_) => {
            assert(s1 == s2 + recompose_query(u));
        },
        None => {
            assert(s2 + recompose_query(u) =~= s2);
        },
    }
    lemma_split_off_scheme_join(s2);
    match split_off_scheme(s2).1 {
        Some(_) => {
            assert(s2 == recompose_scheme(u) + s3);
        },
        None => {
            assert(recompose_scheme(u) + s3 =~= s3);
        },
    }
    lemma_parse_middle_join(s3);
    assert(recompose_middle(u) == s3);
    assert(uri_recompose(u) == s);
}

/// `trim_start_slashes` never lengthens a sequence.
proof fn lemma_trim_slashes_len(s: Seq<char>)
    ensures
        trim_start_slashes(s).len() <= s.len(),
    decreases s.len(),
{
    if s.len() > 0 && s[0] == '/' {
        lemma_trim_slashes_len(s.skip(1));
    }
}

/// Parses `s` and prints the decomposition back.  The reconstruction is
/// handed out exactly when it is provably `s` itself — when the parsed
/// path keeps its leading slashes whenever a host is present — and is
/// withheld otherwise.
pub fn round_trip(s: &str) -> (r: Option<String>)
    ensures
        (r is Some <==> (match spec_parse_uri(s@).path {
            Some(p) => spec_parse_uri(s@).host is Some ==> trim_start_slashes(p) == p,
            None => true,
        })),
        r matches Some(t) ==> t@ == s@,
{
    let u = match Uri::new(s) {
        Ok(u) => u,
        Err(_) => {
            return None;
        },
    };
    let ok = match (u.host, u.path) {
        (Some(_), Some(p)) => !starts_with_char(p, '/'),
        _ => true,
    };
    if ok {
        proof {
            lemma_uri_round_trip(s@);
        }
        Some(u.to_string())
    } else {
        proof {
            match spec_parse_uri(s@).path {
                Some(p) => {
                    lemma_trim_slashes_len(p.skip(1));
                },
                None => {},
            }
        }
        None
    }
}

/// The value of a hexadecimal digit, upper or lower case.
pub open spec fn hex_digit_val(c: char) -> Option<int> {
    if 48 <= c as u32 <= 57 {
        Some((c as u32 - 48) as int)
    } else if 97 <= c as u32 <= 102 {
        Some((c as u32 - 87) as int)
    } else if 65 <= c as u32 <= 70 {
        Some((c as u32 - 55) as int)
    } else {
        None
    }
}

/// Percent-decoding of a character sequence: a `%` followed by two
/// hexadecimal digits becomes the character with that code, any other
/// character passes through, a `%`-escape cut short by the end of the
/// input is dropped, and a `%` followed by anything else fails.
pub open spec fn pct_decode(s: Seq<char>) -> Option<Seq<char>>
    decreases s.len(),
{
    if s.len() == 0 {
        Some(Seq::<char>::empty())
    } else if s[0] != '%' {
        match pct_decode(s.skip(1)) {
            Some(t) => Some(seq![s[0]] + t),
            None => None,
        }
    } else if s.len() < 3 {
        Some(Seq::<char>::empty())
    } else {
        match (hex_digit_val(s[1]), hex_digit_val(s[2])) {
            (Some(h), Some(l)) => match pct_decode(s.skip(3)) {
                Some(t) => Some(seq![(((16 * h + l) as u8) as char)] + t),
                None => None,
            },
            _ => None,
        }
    }
}

fn hex_val(c: char) -> (r: Option<u8>)
    ensures
        match r {
            Some(v) => hex_digit_val(c) == Some(v as int),
            None => hex_digit_val(c) is None,
        },
{
    let u = c as u32;
    if 48 <= u && u <= 57 {
        Some((u - 48) as u8)
    } else if 97 <= u && u <= 102 {
        Some((u - 87) as u8)
    } else if 65 <= u && u <= 70 {
        Some((u - 55) as u8)
    } else {
        None
    }
}

/// Decodes `%`-escapes in `s`, exactly as `pct_decode` describes.
pub fn percent_decode(s: &str) -> (r: Option<String>)
    ensures
        match r {
            Some(t) => pct_decode(s@) == Some(t@),
            None => pct_decode(s@) is None,
        },
{
    let n = s.unicode_len();
    let mut out = String::new();
    let mut i: usize = 0;
    proof {
        assert(s@.skip(0) =~= s@);
    }
    while i < n
        invariant
            i <= n,
            n == s@.len(),
            pct_decode(s@) == (match pct_decode(s@.skip(i as int)) {
                Some(t) => Some(out@ + t),
                None => None::<Seq<char>>,
            }),
        decreases n - i,
    {
        let ghost pre = s@.skip(i as int);
        let c = s.get_char(i);
        proof {
            assert(pre[0] == s@[i as int]);
        }
        if c != '%' {
            let ghost out0 = out@;
            push_char(&mut out, c);
            proof {
                assert(pre.skip(1) =~= s@.skip(i + 1));
                match pct_decode(s@.skip(i + 1)) {
                    Some(t) => {
                        assert(out0 + (seq![c] + t) =~= out@ + t);
                    },
                    None => {},
                }
            }
            i = i + 1;
        } else {
            if n - i < 3 {
                proof {
                    assert(pct_decode(pre) == Some(Seq::<char>::empty()));
                    assert(out@ + Seq::<char>::empty() =~= out@);
                }
                return Some(out);
            }
            let h = hex_val(s.get_char(i + 1));
            let l = hex_val(s.get_char(i + 2));
            proof {
                assert(pre[1] == s@[i + 1]);
                assert(pre[2] == s@[i + 2]);
            }
            match (h, l) {
                (Some(hv), Some(lv)) => {
                    let b: u8 = 16 * hv + lv;
                    let ghost out0 = out@;
                    push_char(&mut out, b as char);
                    proof {
                        assert(pre.skip(3) =~= s@.skip(i + 3));
                        match pct_decode(s@.skip(i + 3)) {
                            Some(t) => {
                                assert(out0 + (seq![(b as char)] + t) =~= out@ + t);
                            },
                            None => {},
                        }
                    }
                    i = i + 3;
                },
                _ => {
                    return None;
                },
            }
        }
    }
    proof {
        assert(s@.skip(n as int) =~= Seq::<char>::empty());
        assert(out@ + Seq::<char>::empty() =~= out@);
    }
    Some(out)
}

/// `e` spells `t` with each character either written plainly (possible
/// whenever it is not `%` itself) or as a `%`-escape over two hexadecimal
/// digits (possible whenever its code fits a byte).
pub open spec fn is_pct_encoding_of(e: Seq<char>, t: Seq<char>) -> bool
    decreases t.len(),
{
    if t.len() == 0 {
        e.len() == 0
    } else {
        ||| {
            &&& t[0] != '%'
            &&& e.len() >= 1
            &&& e[0] == t[0]
            &&& is_pct_encoding_of(e.skip(1), t.skip(1))
        }
        ||| {
            &&& e.len() >= 3
            &&& e[0] == '%'
            &&& hex_digit_val(e[1]) is Some
            &&& hex_digit_val(e[2]) is Some
            &&& (t[0] as u32) < 256
            &&& 16 * (hex_digit_val(e[1])->Some_0) + (hex_digit_val(e[2])->Some_0) == (t[0]
                as u32)
            &&& is_pct_encoding_of(e.skip(3), t.skip(1))
        }
    }
}

/// Decoding inverts percent-encoding: a string that spells out `t`, each
/// character plain or escaped, decodes back to exactly `t`.
pub proof fn lemma_percent_decode_inverts(e: Seq<char>, t: Seq<char>)
    requires
        is_pct_encoding_of(e, t),
    ensures
        pct_decode(e) == Some(t),
    decreases t.len(),
{
    if t.len() == 0 {
        assert(t =~= Seq::<char>::empty());
    } else if e.len() > 0 && e[0] == '%' {
        lemma_percent_decode_inverts(e.skip(3), t.skip(1));
        let h = hex_digit_val(e[1])->Some_0;
        let l = hex_digit_val(e[2])->Some_0;
        let u = t[0] as u32;
        vstd::utf8::char_u32_cast(t[0], u);
        assert((16 * h + l) as u8 as u32 == u);
        assert(((16 * h + l) as u8) as char == t[0]);
        assert(seq![t[0]] + t.skip(1) =~= t);
    } else {
        lemma_percent_decode_inverts(e.skip(1), t.skip(1));
        assert(seq![t[0]] + t.skip(1) =~= t);
    }
}

impl<'a> Uri<'a> {
    /// Borrows the components of an owned URI.
    pub fn from(uri: &'a UriOwned) -> (r: Uri<'a>)
        ensures
            r@ == uri@,
    {
        let scheme = match &uri.scheme {
            Some(s) => Some(s.as_str()),
            None => None,
        };
        let userinfo = match &uri.userinfo {
            Some(s) => Some(s.as_str()),
            None => None,
        };
        let host = match &uri.host {
            Some(s) => Some(s.as_str()),
            None => None,
        };
        let port = match &uri.port {
            Some(s) => Some(s.as_str()),
            None => None,
        };
        let path = match &uri.path {
            Some(s) => Some(s.as_str()),
            None => None,
        };
        let query = match &uri.query {
            Some(s) => Some(s.as_str()),
            None => None,
        };
        let fragment = match &uri.fragment {
            Some(s) => Some(s.as_str()),
            None => None,
        };
        let r = Uri { scheme, userinfo, host, port, path, query, fragment };
        proof {
            assert(r@ =~= uri@);
        }
        r
    }
}

} // verus!
