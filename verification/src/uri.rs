//! Request targets and origin resolution: a model of a URI holding the parts
//! the client reads, a parser for a documented subset of URI syntax, the
//! `host[:port]` authority grammar for the Host header, and the rules that
//! derive scheme, host and port for a connection.

use vstd::prelude::*;

use crate::ascii::{all_digits, digits_value, eq_ignore_case, parse_u64_digits};
use crate::error::HttpError;
use crate::headers::{spec_get, HeaderMap};

verus! {

/// A byte legal in a registered host name: letters, digits, `-`, `.`, `_`.
pub open spec fn is_host_byte(b: u8) -> bool {
    (48u8 <= b <= 57u8) || (65u8 <= b <= 90u8) || (97u8 <= b <= 122u8) || b == 45u8 || b == 46u8
        || b == 95u8
}

/// A legal host: nonempty, all host bytes.
pub open spec fn valid_host(s: Seq<u8>) -> bool {
    s.len() >= 1 && forall|i: int| 0 <= i < s.len() ==> is_host_byte(#[trigger] s[i])
}

/// A byte legal in a scheme name: letters, digits, `+`, `-`, `.`.
pub open spec fn is_scheme_byte(b: u8) -> bool {
    (48u8 <= b <= 57u8) || (65u8 <= b <= 90u8) || (97u8 <= b <= 122u8) || b == 43u8 || b == 45u8
        || b == 46u8
}

/// A legal scheme: nonempty, a letter first, scheme bytes after.
pub open spec fn valid_scheme(s: Seq<u8>) -> bool {
    s.len() >= 1 && ((65u8 <= s[0] <= 90u8) || (97u8 <= s[0] <= 122u8)) && forall|i: int|
        0 <= i < s.len() ==> is_scheme_byte(#[trigger] s[i])
}

/// A byte legal in a path or query: visible ASCII.
pub open spec fn is_path_byte(b: u8) -> bool {
    33u8 <= b <= 126u8
}

/// A legal path-and-query: possibly empty, all visible ASCII.
pub open spec fn valid_path(s: Seq<u8>) -> bool {
    forall|i: int| 0 <= i < s.len() ==> is_path_byte(#[trigger] s[i])
}

/// The position of the first colon in `s`, if any.
pub open spec fn first_colon(s: Seq<u8>) -> Option<int> {
    if exists|i: int| 0 <= i < s.len() && s[i] == 58u8 {
        Some(choose|i: int|
            0 <= i < s.len() && s[i] == 58u8 && forall|j: int| 0 <= j < i ==> s[j] != 58u8)
    } else {
        None
    }
}

/// The meaning of an authority string, exactly `host[:port]`:
/// - no colon: the whole string must be a legal host;
/// - one colon: a legal host before it, and after it either nothing or a
///   digit string whose value fits a port number.
/// Anything else (userinfo, a second colon, an illegal port) has no meaning.
pub open spec fn spec_authority(s: Seq<u8>) -> Option<(Seq<u8>, Option<u16>)> {
    match first_colon(s) {
        None => if valid_host(s) {
            Some((s, None))
        } else {
            None
        },
        Some(i) => {
            let host = s.take(i);
            let rest = s.skip(i + 1);
            if !valid_host(host) {
                None
            } else if rest.len() == 0 {
                Some((host, None))
            } else if all_digits(rest) && digits_value(rest) <= 65535 {
                Some((host, Some(digits_value(rest) as u16)))
            } else {
                None
            }
        },
    }
}

/// Checks that every byte of `s` is a host byte and `s` is nonempty.
fn check_host(s: &[u8]) -> (r: bool)
    ensures
        r == valid_host(s@),
{
    if s.len() == 0 {
        return false;
    }
    let mut i: usize = 0;
    while i < s.len()
        invariant
            0 <= i <= s@.len(),
            forall|j: int| 0 <= j < i ==> is_host_byte(#[trigger] s@[j]),
        decreases s@.len() - i,
    {
        let b = s[i];
        if !((48u8 <= b && b <= 57u8) || (65u8 <= b && b <= 90u8) || (97u8 <= b && b <= 122u8) || b
            == 45u8 || b == 46u8 || b == 95u8) {
            return false;
        }
        i += 1;
    }
    true
}

/// Finds the first colon in `s`.
pub(crate) fn find_colon(s: &[u8]) -> (r: Option<usize>)
    ensures
        match r {
            Some(i) => i < s@.len() && first_colon(s@) == Some(i as int),
            None => first_colon(s@) is None,
        },
{
    let mut i: usize = 0;
    while i < s.len()
        invariant
            0 <= i <= s@.len(),
            forall|j: int| 0 <= j < i ==> s@[j] != 58u8,
        decreases s@.len() - i,
    {
        if s[i] == 58u8 {
            proof {
                let w = choose|k: int|
                    0 <= k < s@.len() && s@[k] == 58u8 && forall|j: int| 0 <= j < k ==> s@[j]
                        != 58u8;
                assert(first_colon(s@) == Some(w));
                if w != i as int {
                    assert(s@[w] == 58u8);
                    assert(w > i as int ==> s@[i as int] != 58u8);
                    assert(w < i as int ==> s@[w] != 58u8);
                }
            }
            return Some(i);
        }
        i += 1;
    }
    None
}

/// Parses an authority as exactly `host[:port]`, per `spec_authority`.
pub fn parse_authority(s: &[u8]) -> (r: Option<(Vec<u8>, Option<u16>)>)
    ensures
        match r {
            Some(p) => spec_authority(s@) == Some((p.0@, p.1)),
            None => spec_authority(s@) is None,
        },
{
    match find_colon(s) {
        None => {
            if check_host(s) {
                Some((vstd::slice::slice_to_vec(s), None))
            } else {
                None
            }
        },
        Some(i) => {
            let n: usize = s.len();
            assert(i < n);
            let host = vstd::slice::slice_subrange(s, 0, i);
            let rest = vstd::slice::slice_subrange(s, i + 1, n);
            proof {
                assert(host@ =~= s@.take(i as int));
                assert(rest@ =~= s@.skip(i as int + 1));
            }
            if !check_host(host) {
                return None;
            }
            if rest.len() == 0 {
                return Some((vstd::slice::slice_to_vec(host), None));
            }
            match parse_u64_digits(rest) {
                Some(v) if v <= 65535 => Some((vstd::slice::slice_to_vec(host), Some(v as u16))),
                Some(_) => None,
                None => {
                    proof {
                        if all_digits(rest@) && digits_value(rest@) <= 65535 {
                            assert(digits_value(rest@) <= u64::MAX);
                        }
                    }
                    None
                },
            }
        },
    }
}

/// A byte that ends the authority part: the path's `/` or the query's `?`.
pub open spec fn is_path_sep(b: u8) -> bool {
    b == 47u8 || b == 63u8
}

/// The offset of the first `/` or `?` in `s`, or its length.
pub open spec fn first_sep(s: Seq<u8>) -> int
    decreases s.len(),
{
    if s.len() == 0 {
        0
    } else if is_path_sep(s[0]) {
        0
    } else {
        1 + first_sep(s.drop_first())
    }
}

proof fn lemma_first_sep_bounds(s: Seq<u8>)
    ensures
        0 <= first_sep(s) <= s.len(),
        forall|k: int| 0 <= k < first_sep(s) ==> !is_path_sep(#[trigger] s[k]),
        first_sep(s) < s.len() ==> is_path_sep(s[first_sep(s)]),
    decreases s.len(),
{
    if s.len() > 0 && !is_path_sep(s[0]) {
        lemma_first_sep_bounds(s.drop_first());
        assert(forall|k: int| 1 <= k < s.len() ==> s[k] == #[trigger] s.drop_first()[k - 1]);
        assert(forall|k: int|
            0 <= k < first_sep(s) ==> !is_path_sep(#[trigger] s[k])) by {
            assert(forall|k: int|
                0 <= k < first_sep(s.drop_first()) ==> !is_path_sep(
                    #[trigger] s.drop_first()[k],
                ));
            assert(first_sep(s) == 1 + first_sep(s.drop_first()));
            assert(forall|k: int|
                1 <= k < first_sep(s) ==> #[trigger] s[k] == s.drop_first()[k - 1]);
        }
    }
}

/// The meaning of a target string, over the two supported forms.
/// - Empty, or starting with `/`: a relative target; the whole string is
///   the path with query.
/// - Otherwise `scheme://authority[path]`: the scheme runs to the first
///   colon, `//` must follow, the authority runs to the first `/` or `?`,
///   and must read as exactly `host[:port]`; the rest is the path.
/// Anything else has no meaning.
pub open spec fn spec_parse_uri(s: Seq<u8>) -> Option<
    (Option<Seq<u8>>, Option<Seq<u8>>, Option<u16>, Seq<u8>),
> {
    if s.len() == 0 || s[0] == 47u8 {
        if valid_path(s) {
            Some((None, None, None, s))
        } else {
            None
        }
    } else {
        match first_colon(s) {
            None => None,
            Some(i) => {
                if !(i + 2 < s.len() && s[i + 1] == 47u8 && s[i + 2] == 47u8) {
                    None
                } else if !valid_scheme(s.take(i)) {
                    None
                } else {
                    let rest = s.skip(i + 3);
                    let j = first_sep(rest);
                    let path = rest.skip(j);
                    if !valid_path(path) {
                        None
                    } else {
                        match spec_authority(rest.take(j)) {
                            None => None,
                            Some((h, p)) => Some((Some(s.take(i)), Some(h), p, path)),
                        }
                    }
                }
            },
        }
    }
}

/// A request target, reduced to the parts the client reads: the scheme and
/// authority when the target is absolute, and the path with query.
pub struct Uri {
    pub scheme: Option<Vec<u8>>,
    pub host: Option<Vec<u8>>,
    pub port: Option<u16>,
    pub path_and_query: Vec<u8>,
}

impl Uri {
    /// Scheme and host stand or fall together; all parts use legal bytes.
    pub open spec fn wf(&self) -> bool {
        &&& (self.scheme is Some <==> self.host is Some)
        &&& (self.scheme matches Some(s) ==> valid_scheme(s@))
        &&& (self.host matches Some(h) ==> valid_host(h@))
        &&& valid_path(self.path_and_query@)
        &&& (self.port is Some ==> self.host is Some)
    }

    /// A field-for-field copy of the target.
    pub fn copied(&self) -> (r: Uri)
        ensures
            (match (r.scheme, self.scheme) {
                (Some(a), Some(b)) => a@ == b@,
                (None, None) => true,
                _ => false,
            }),
            (match (r.host, self.host) {
                (Some(a), Some(b)) => a@ == b@,
                (None, None) => true,
                _ => false,
            }),
            r.port == self.port,
            r.path_and_query@ == self.path_and_query@,
            self.wf() ==> r.wf(),
    {
        Uri {
            scheme: match &self.scheme {
                Some(s) => Some(vstd::slice::slice_to_vec(s.as_slice())),
                None => None,
            },
            host: match &self.host {
                Some(h) => Some(vstd::slice::slice_to_vec(h.as_slice())),
                None => None,
            },
            port: self.port,
            path_and_query: vstd::slice::slice_to_vec(self.path_and_query.as_slice()),
        }
    }

    /// A relative target: only a path.
    pub fn relative(path_and_query: Vec<u8>) -> (r: Uri)
        requires
            valid_path(path_and_query@),
        ensures
            r.wf(),
            r.scheme is None,
            r.host is None,
            r.port is None,
            r.path_and_query@ == path_and_query@,
    {
        Uri { scheme: None, host: None, port: None, path_and_query }
    }

    /// Parses a target, per `spec_parse_uri`: either a relative
    /// `/path[?query]` (the empty string counts as relative), or
    /// `scheme://host[:port][/path][?query]`. Userinfo, bracketed IP
    /// literals and authority-only targets are not in the subset.
    pub fn parse(s: &[u8]) -> (r: Option<Uri>)
        ensures
            ({
                let p = spec_parse_uri(s@);
                match r {
                    Some(u) => u.wf() && (p matches Some(f) && (match (u.scheme, f.0) {
                        (Some(a), Some(b)) => a@ == b,
                        (None, None) => true,
                        _ => false,
                    }) && (match (u.host, f.1) {
                        (Some(a), Some(b)) => a@ == b,
                        (None, None) => true,
                        _ => false,
                    }) && u.port == f.2 && u.path_and_query@ == f.3),
                    None => p is None,
                }
            }),
    {
        if s.len() == 0 || s[0] == 47u8 {
            if !check_path(s) {
                return None;
            }
            return Some(
                Uri {
                    scheme: None,
                    host: None,
                    port: None,
                    path_and_query: vstd::slice::slice_to_vec(s),
                },
            );
        }
        let i = match find_colon(s) {
            None => {
                return None;
            },
            Some(i) => i,
        };
        let n: usize = s.len();
        assert(i < n);
        if !(n - i > 2 && s[i + 1] == 47u8 && s[i + 2] == 47u8) {
            return None;
        }
        let scheme = vstd::slice::slice_subrange(s, 0, i);
        proof {
            assert(scheme@ =~= s@.take(i as int));
        }
        if !check_scheme(scheme) {
            return None;
        }
        let rest = vstd::slice::slice_subrange(s, i + 3, n);
        proof {
            assert(rest@ =~= s@.skip(i as int + 3));
            lemma_first_sep_bounds(rest@);
        }
        let mut j: usize = 0;
        while j < rest.len()
            invariant
                0 <= j <= rest@.len(),
                forall|k: int| 0 <= k < j ==> !is_path_sep(#[trigger] rest@[k]),
            ensures
                0 <= j <= rest@.len(),
                forall|k: int| 0 <= k < j ==> !is_path_sep(#[trigger] rest@[k]),
                j < rest@.len() ==> is_path_sep(rest@[j as int]),
            decreases rest@.len() - j,
        {
            if rest[j] == 47u8 || rest[j] == 63u8 {
                break ;
            }
            j += 1;
        }
        proof {
            lemma_first_sep_bounds(rest@);
            if first_sep(rest@) < j {
                assert(is_path_sep(rest@[first_sep(rest@)]));
            }
            if first_sep(rest@) > j {
                assert(j < rest@.len());
                assert(is_path_sep(rest@[j as int]));
                assert(!is_path_sep(rest@[j as int]));
            }
            assert(first_sep(rest@) == j);
        }
        let auth = vstd::slice::slice_subrange(rest, 0, j);
        let path = vstd::slice::slice_subrange(rest, j, rest.len());
        proof {
            assert(auth@ =~= rest@.take(j as int));
            assert(path@ =~= rest@.skip(j as int));
        }
        if !check_path(path) {
            return None;
        }
        match parse_authority(auth) {
            None => None,
            Some((host, port)) => Some(
                Uri {
                    scheme: Some(vstd::slice::slice_to_vec(scheme)),
                    host: Some(host),
                    port,
                    path_and_query: vstd::slice::slice_to_vec(path),
                },
            ),
        }
    }
}

/// Checks `valid_path`.
fn check_path(s: &[u8]) -> (r: bool)
    ensures
        r == valid_path(s@),
{
    let mut i: usize = 0;
    while i < s.len()
        invariant
            0 <= i <= s@.len(),
            forall|j: int| 0 <= j < i ==> is_path_byte(#[trigger] s@[j]),
        decreases s@.len() - i,
    {
        if !(33u8 <= s[i] && s[i] <= 126u8) {
            return false;
        }
        i += 1;
    }
    true
}

/// Checks `valid_scheme`.
fn check_scheme(s: &[u8]) -> (r: bool)
    ensures
        r == valid_scheme(s@),
{
    if s.len() == 0 {
        return false;
    }
    let b0 = s[0];
    if !((65u8 <= b0 && b0 <= 90u8) || (97u8 <= b0 && b0 <= 122u8)) {
        return false;
    }
    let mut i: usize = 0;
    while i < s.len()
        invariant
            0 <= i <= s@.len(),
            forall|j: int| 0 <= j < i ==> is_scheme_byte(#[trigger] s@[j]),
        decreases s@.len() - i,
    {
        let b = s[i];
        if !((48u8 <= b && b <= 57u8) || (65u8 <= b && b <= 90u8) || (97u8 <= b && b <= 122u8) || b
            == 43u8 || b == 45u8 || b == 46u8) {
            return false;
        }
        i += 1;
    }
    true
}

/// The meaning of origin extraction: when the target carries an
/// authority, it wins with its scheme and optional port; otherwise a Host
/// header is accepted exactly when it reads as `host[:port]`; otherwise the
/// request has no origin.
pub open spec fn spec_extract_origin(
    scheme: Option<Seq<u8>>,
    host: Option<Seq<u8>>,
    port: Option<u16>,
    headers: Seq<(Seq<u8>, Seq<u8>)>,
) -> Option<(Option<Seq<u8>>, Seq<u8>, Option<u16>)> {
    match host {
        Some(h) => Some((scheme, h, port)),
        None => match spec_get(headers, "host"@.map_values(|c: char| c as u8)) {
            Some(v) => match spec_authority(v) {
                Some(a) => Some((None, a.0, a.1)),
                None => None,
            },
            None => None,
        },
    }
}

/// Derives the origin named by a request: the target's own authority when
/// present, else a Host header that parses as exactly `host[:port]`, else
/// the `MissingHost` error.
pub fn extract_origin(uri: &Uri, headers: &HeaderMap) -> (r: Result<
    (Option<Vec<u8>>, Vec<u8>, Option<u16>),
    HttpError,
>)
    ensures
        match r {
            Ok(o) => spec_extract_origin(
                match uri.scheme {
                    Some(ref s) => Some(s@),
                    None => None,
                },
                match uri.host {
                    Some(ref h) => Some(h@),
                    None => None,
                },
                uri.port,
                headers@,
            ) == Some(
                (
                    match o.0 {
                        Some(ref s) => Some(s@),
                        None => None::<Seq<u8>>,
                    },
                    o.1@,
                    o.2,
                ),
            ),
            Err(e) => {
                &&& e is MissingHost
                &&& spec_extract_origin(
                    match uri.scheme {
                        Some(ref s) => Some(s@),
                        None => None,
                    },
                    match uri.host {
                        Some(ref h) => Some(h@),
                        None => None,
                    },
                    uri.port,
                    headers@,
                ) is None
            },
        },
{
    let host_name: [u8; 4] = [104u8, 111u8, 115u8, 116u8];
    proof {
        assert(host_name@ =~= "host"@.map_values(|c: char| c as u8)) by {
            reveal_strlit("host");
        }
    }
    match &uri.host {
        Some(h) => {
            let scheme = match &uri.scheme {
                Some(s) => Some(s.clone()),
                None => None,
            };
            Ok((scheme, h.clone(), uri.port))
        },
        None => {
            match headers.get(host_name.as_slice()) {
                Some(v) => {
                    match parse_authority(v.as_slice()) {
                        Some((h, p)) => Ok((None, h, p)),
                        None => Err(HttpError::MissingHost),
                    }
                },
                None => Err(HttpError::MissingHost),
            }
        },
    }
}

/// A fully resolved connection target: whether to wrap the stream in TLS,
/// the host to dial, the port to dial, and the port to quote in an injected
/// Host header (absent when neither the target nor the Host header named
/// one).
pub struct Origin {
    pub tls: bool,
    pub host: Vec<u8>,
    pub port: u16,
    pub named_port: Option<u16>,
}

/// The scheme decision: `http` is plaintext, `https` is TLS, an absent
/// scheme defaults to TLS, anything else is refused. Schemes compare
/// case-insensitively.
pub open spec fn spec_scheme_tls(scheme: Option<Seq<u8>>) -> Option<bool> {
    match scheme {
        None => Some(true),
        Some(s) => if eq_ignore_case(s, "http"@.map_values(|c: char| c as u8)) {
            Some(false)
        } else if eq_ignore_case(s, "https"@.map_values(|c: char| c as u8)) {
            Some(true)
        } else {
            None
        },
    }
}

/// The default port for each transport.
pub open spec fn default_port(tls: bool) -> u16 {
    if tls {
        443u16
    } else {
        80u16
    }
}

/// Resolves a request's origin: extracts scheme, host and port, decides
/// plaintext against TLS, and fills in the default port. Fails with
/// `MissingHost` when no origin is named and with `UnexpectedScheme` on a
/// scheme that is neither `http` nor `https`.
pub fn resolve_origin(uri: &Uri, headers: &HeaderMap) -> (r: Result<Origin, HttpError>)
    ensures
        match r {
            Ok(o) => {
                &&& spec_extract_origin(
                    match uri.scheme {
                        Some(ref s) => Some(s@),
                        None => None,
                    },
                    match uri.host {
                        Some(ref h) => Some(h@),
                        None => None,
                    },
                    uri.port,
                    headers@,
                ) matches Some(e) && e.1 == o.host@ && e.2 == o.named_port && spec_scheme_tls(e.0)
                    == Some(o.tls) && o.port == (match o.named_port {
                    Some(p) => p,
                    None => default_port(o.tls),
                })
            },
            Err(e) => {
                &&& (e is MissingHost || e is UnexpectedScheme)
                &&& (e is MissingHost <==> spec_extract_origin(
                    match uri.scheme {
                        Some(ref s) => Some(s@),
                        None => None,
                    },
                    match uri.host {
                        Some(ref h) => Some(h@),
                        None => None,
                    },
                    uri.port,
                    headers@,
                ) is None)
                &&& (e matches HttpError::UnexpectedScheme(s) ==> spec_extract_origin(
                    match uri.scheme {
                        Some(ref s2) => Some(s2@),
                        None => None,
                    },
                    match uri.host {
                        Some(ref h) => Some(h@),
                        None => None,
                    },
                    uri.port,
                    headers@,
                ) matches Some(o) && o.0 == Some(s@) && spec_scheme_tls(o.0) is None)
            },
        },
{
    let (scheme, host, named_port) = match extract_origin(uri, headers) {
        Ok(o) => o,
        Err(e) => {
            return Err(e);
        },
    };
    let http_name: [u8; 4] = [104u8, 116u8, 116u8, 112u8];
    let https_name: [u8; 5] = [104u8, 116u8, 116u8, 112u8, 115u8];
    proof {
        assert(http_name@ =~= "http"@.map_values(|c: char| c as u8)) by {
            reveal_strlit("http");
        }
        assert(https_name@ =~= "https"@.map_values(|c: char| c as u8)) by {
            reveal_strlit("https");
        }
    }
    let tls = match &scheme {
        None => true,
        Some(s) => {
            if crate::ascii::eq_ignore_ascii_case(s.as_slice(), http_name.as_slice()) {
                false
            } else if crate::ascii::eq_ignore_ascii_case(s.as_slice(), https_name.as_slice()) {
                true
            } else {
                return Err(HttpError::UnexpectedScheme(s.clone()));
            }
        },
    };
    let port = match named_port {
        Some(p) => p,
        None => if tls {
            443
        } else {
            80
        },
    };
    Ok(Origin { tls, host, port, named_port })
}

} // verus!
