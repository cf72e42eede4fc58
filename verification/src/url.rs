//! The URL decomposer: peels known delimiters off a URL string to isolate
//! scheme, fragment, query, params, path, hostname and port, and reassembles
//! them. Splits are applied in a fixed order, each at the first occurrence of
//! its delimiter in the text remaining at that step: `://`, then `#`, then
//! `?`, then `;`, then `/`, then `:`.

use crate::error::HttpError;
use crate::text::{first_match, lemma_first_match, spec_split_once, split_once_str, str_eq};
use vstd::prelude::*;

verus! {

/// A URL as its components; an empty string stands for an absent component.
/// After parsing, `port` is never empty — explicit when the input named one,
/// else the scheme's default — while `netloc` keeps the authority text as it
/// appeared in the input, so an inferred port does not show up in it.
#[derive(Debug)]
pub struct Url {
    pub scheme: String,
    pub netloc: String,
    pub path: String,
    pub params: String,
    pub query: String,
    pub fragment: String,
    pub hostname: String,
    pub port: String,
}

/// The mathematical value of a URL.
pub ghost struct UrlView {
    pub scheme: Seq<char>,
    pub netloc: Seq<char>,
    pub path: Seq<char>,
    pub params: Seq<char>,
    pub query: Seq<char>,
    pub fragment: Seq<char>,
    pub hostname: Seq<char>,
    pub port: Seq<char>,
}

impl View for Url {
    type V = UrlView;

    open spec fn view(&self) -> UrlView {
        UrlView {
            scheme: self.scheme@,
            netloc: self.netloc@,
            path: self.path@,
            params: self.params@,
            query: self.query@,
            fragment: self.fragment@,
            hostname: self.hostname@,
            port: self.port@,
        }
    }
}

/// The default port of a scheme, where it has one.
pub open spec fn default_port(scheme: Seq<char>) -> Option<Seq<char>> {
    if scheme == "http"@ {
        Some("80"@)
    } else if scheme == "https"@ {
        Some("443"@)
    } else {
        None
    }
}

/// Parse a URL: peel the delimiters in the fixed order, then take the port
/// explicitly when one follows a `:` in the netloc, else by the scheme's
/// default. The netloc is the authority text as it stood after the path was
/// removed, unchanged by port inference. `None` exactly when no explicit
/// port is given and the scheme has no default.
pub open spec fn spec_parse_url(s: Seq<char>) -> Option<UrlView> {
    let s0 = spec_split_once(s, "://"@);
    let scheme = if s0 is Some { (s0->0).0 } else { Seq::<char>::empty() };
    let r1 = if s0 is Some { (s0->0).1 } else { s };
    let s1 = spec_split_once(r1, "#"@);
    let fragment = if s1 is Some { (s1->0).1 } else { Seq::<char>::empty() };
    let r2 = if s1 is Some { (s1->0).0 } else { r1 };
    let s2 = spec_split_once(r2, "?"@);
    let query = if s2 is Some { (s2->0).1 } else { Seq::<char>::empty() };
    let r3 = if s2 is Some { (s2->0).0 } else { r2 };
    let s3 = spec_split_once(r3, ";"@);
    let params = if s3 is Some { (s3->0).1 } else { Seq::<char>::empty() };
    let r4 = if s3 is Some { (s3->0).0 } else { r3 };
    let s4 = spec_split_once(r4, "/"@);
    let path = if s4 is Some { "/"@ + (s4->0).1 } else { Seq::<char>::empty() };
    let rest = if s4 is Some { (s4->0).0 } else { r4 };
    let s5 = spec_split_once(rest, ":"@);
    let hostname = if s5 is Some { (s5->0).0 } else { rest };
    let explicit = if s5 is Some { (s5->0).1 } else { Seq::<char>::empty() };
    let port_opt = if explicit.len() > 0 {
        Some(explicit)
    } else {
        default_port(scheme)
    };
    match port_opt {
        None => None,
        Some(port) => Some(
            UrlView { scheme, netloc: rest, path, params, query, fragment, hostname, port },
        ),
    }
}

/// Reassembled text of a URL: `scheme://`, netloc, path, then `?query`,
/// `;params`, `#fragment`, each omitted together with its punctuation when
/// the component is empty.
pub open spec fn spec_url_text(u: UrlView) -> Seq<char> {
    (if u.scheme.len() > 0 {
        u.scheme + "://"@
    } else {
        Seq::<char>::empty()
    }) + u.netloc + u.path + (if u.query.len() > 0 {
        "?"@ + u.query
    } else {
        Seq::<char>::empty()
    }) + (if u.params.len() > 0 {
        ";"@ + u.params
    } else {
        Seq::<char>::empty()
    }) + (if u.fragment.len() > 0 {
        "#"@ + u.fragment
    } else {
        Seq::<char>::empty()
    })
}

/// A successfully parsed URL always carries a non-empty port — explicit when
/// the input named one, else the scheme's default — and its netloc is the
/// authority as written: the hostname alone when no colon followed it, the
/// hostname with its explicit port, or, for a bare trailing colon, the
/// hostname with that colon while the port falls back to the default.
pub proof fn theorem_url_port_inferred(s: Seq<char>)
    ensures
        spec_parse_url(s) is Some ==> spec_parse_url(s)->0.port.len() > 0,
        spec_parse_url(s) is Some ==> spec_parse_url(s)->0.netloc == spec_parse_url(s)->0.hostname
            || spec_parse_url(s)->0.netloc == spec_parse_url(s)->0.hostname + ":"@
            + spec_parse_url(s)->0.port || spec_parse_url(s)->0.netloc == spec_parse_url(
            s,
        )->0.hostname + ":"@,
{
    if spec_parse_url(s) is Some {
        reveal_strlit("80");
        reveal_strlit("443");
        reveal_strlit(":");
        assert("80"@.len() == 2);
        assert("443"@.len() == 3);
        assert(":"@.len() == 1);
        assert(":"@[0] == ':');
        let s0 = spec_split_once(s, "://"@);
        let r1 = if s0 is Some {
            (s0->0).1
        } else {
            s
        };
        let s1 = spec_split_once(r1, "#"@);
        let r2 = if s1 is Some {
            (s1->0).0
        } else {
            r1
        };
        let s2 = spec_split_once(r2, "?"@);
        let r3 = if s2 is Some {
            (s2->0).0
        } else {
            r2
        };
        let s3 = spec_split_once(r3, ";"@);
        let r4 = if s3 is Some {
            (s3->0).0
        } else {
            r3
        };
        let s4 = spec_split_once(r4, "/"@);
        let rest = if s4 is Some {
            (s4->0).0
        } else {
            r4
        };
        let s5 = spec_split_once(rest, ":"@);
        if s5 is Some {
            let i = first_match(rest, ":"@);
            lemma_first_match(rest, ":"@);
            let hostname = rest.subrange(0, i);
            let explicit = rest.subrange(i + 1, rest.len() as int);
            assert(rest[i + 0] == ":"@[0]);
            assert(rest =~= hostname + ":"@ + explicit) by {
                assert forall|k: int| 0 <= k < rest.len() implies rest[k] == (hostname + ":"@
                    + explicit)[k] by {
                    if k > i {
                        assert((hostname + ":"@ + explicit)[k] == explicit[k - i - 1]);
                    }
                }
            }
            if explicit.len() == 0 {
                assert(hostname + ":"@ + explicit =~= hostname + ":"@);
            }
        }
    }
}

impl Url {
    /// Parse a URL string into its components. Fails exactly when the input
    /// names no explicit port and its scheme has no default port.
    pub fn parse(url: &str) -> (r: Result<Url, HttpError>)
        ensures
            match r {
                Ok(u) => spec_parse_url(url@) == Some(u@),
                Err(e) => spec_parse_url(url@) is None && e == HttpError::UnsupportedScheme,
            },
    {
        proof {
            reveal_strlit("");
            reveal_strlit("://");
            reveal_strlit("#");
            reveal_strlit("?");
            reveal_strlit(";");
            reveal_strlit("/");
            reveal_strlit(":");
            assert(""@ =~= Seq::<char>::empty());
            assert("://"@.len() == 3);
            assert("#"@.len() == 1);
            assert("?"@.len() == 1);
            assert(";"@.len() == 1);
            assert("/"@.len() == 1);
            assert(":"@.len() == 1);
        }
        let pair0: (&str, &str) = match split_once_str(url, "://") {
            Some(p) => p,
            None => ("", url),
        };
        let scheme_s = pair0.0;
        let r1 = pair0.1;
        let pair1: (&str, &str) = match split_once_str(r1, "#") {
            Some(p) => p,
            None => (r1, ""),
        };
        let r2 = pair1.0;
        let fragment_s = pair1.1;
        let pair2: (&str, &str) = match split_once_str(r2, "?") {
            Some(p) => p,
            None => (r2, ""),
        };
        let r3 = pair2.0;
        let query_s = pair2.1;
        let pair3: (&str, &str) = match split_once_str(r3, ";") {
            Some(p) => p,
            None => (r3, ""),
        };
        let r4 = pair3.0;
        let params_s = pair3.1;
        let mut path = String::new();
        let rest: &str;
        match split_once_str(r4, "/") {
            Some(p) => {
                path.append("/");
                path.append(p.1);
                rest = p.0;
            },
            None => {
                rest = r4;
            },
        }
        let pair5: (&str, &str) = match split_once_str(rest, ":") {
            Some(p) => p,
            None => (rest, ""),
        };
        let host_s = pair5.0;
        let explicit_s = pair5.1;
        let port: String;
        if !explicit_s.is_empty() {
            port = explicit_s.to_owned();
        } else if str_eq(scheme_s, "http") {
            port = "80".to_owned();
        } else if str_eq(scheme_s, "https") {
            port = "443".to_owned();
        } else {
            return Err(HttpError::UnsupportedScheme);
        }
        let u = Url {
            scheme: scheme_s.to_owned(),
            netloc: rest.to_owned(),
            path,
            params: params_s.to_owned(),
            query: query_s.to_owned(),
            fragment: fragment_s.to_owned(),
            hostname: host_s.to_owned(),
            port,
        };
        proof {
            assert(spec_parse_url(url@) == Some(u@)) by {
                if spec_parse_url(url@) is Some {
                    assert(u@.path =~= spec_parse_url(url@)->0.path);
                }
            }
        }
        Ok(u)
    }

    /// Reassemble the URL's text from its components.
    pub fn get_url(&self) -> (r: String)
        ensures
            r@ == spec_url_text(self@),
    {
        let mut out = String::new();
        if !self.scheme.as_str().is_empty() {
            out.append(self.scheme.as_str());
            out.append("://");
        }
        out.append(self.netloc.as_str());
        out.append(self.path.as_str());
        if !self.query.as_str().is_empty() {
            out.append("?");
            out.append(self.query.as_str());
        }
        if !self.params.as_str().is_empty() {
            out.append(";");
            out.append(self.params.as_str());
        }
        if !self.fragment.as_str().is_empty() {
            out.append("#");
            out.append(self.fragment.as_str());
        }
        proof {
            assert(out@ =~= spec_url_text(self@));
        }
        out
    }
}

} // verus!
