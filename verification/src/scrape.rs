//! The token scraper: extracting the anonymous client id from the
//! `set-cookie` headers of the login landing page and the CSRF token from
//! its HTML, both from the same response.

use vstd::prelude::*;
use crate::text::{to_chars, from_chars, sub_chars, match_at, match_at_idx, find_sub};

verus! {

/// The first position of a `;` at or after `i`, or the length of `h`.
pub open spec fn first_semi(h: Seq<char>, i: int) -> int
    decreases h.len() - i,
{
    if i < 0 || i >= h.len() {
        h.len() as int
    } else if h[i] == ';' {
        i
    } else {
        first_semi(h, i + 1)
    }
}

/// The client id value one `set-cookie` header carries, if its cookie name
/// is `__client_id`: everything between the `=` and the first `;` (or the
/// end of the header).
pub open spec fn spec_cookie_client_id(h: Seq<char>) -> Option<Seq<char>> {
    if h.len() >= 12 && h.subrange(0, 12) == "__client_id="@ {
        Some(h.subrange(12, first_semi(h, 12)))
    } else {
        None
    }
}

/// The views of the header values.
pub open spec fn header_views(hs: Seq<String>) -> Seq<Seq<char>> {
    hs.map_values(|s: String| s@)
}

/// The client id of the first header that carries one, if any.
pub open spec fn spec_find_client_id(hs: Seq<Seq<char>>) -> Option<Seq<char>>
    decreases hs.len(),
{
    if hs.len() == 0 {
        None
    } else if spec_cookie_client_id(hs[0]) is Some {
        spec_cookie_client_id(hs[0])
    } else {
        spec_find_client_id(hs.drop_first())
    }
}

/// Extracts the client id from one `set-cookie` header value.
pub fn cookie_client_id(header: &str) -> (r: Option<String>)
    ensures
        match r {
            Some(v) => spec_cookie_client_id(header@) == Some(v@),
            None => spec_cookie_client_id(header@) is None,
        },
{
    let cs = to_chars(header);
    let p = to_chars("__client_id=");
    proof {
        reveal_strlit("__client_id=");
    }
    if !match_at_idx(&cs, &p, 0) {
        return None;
    }
    let mut e: usize = 12;
    while e < cs.len() && cs[e] != ';'
        invariant
            12 <= e <= cs@.len(),
            cs@ == header@,
            first_semi(cs@, 12) == first_semi(cs@, e as int),
        decreases cs@.len() - e,
    {
        e += 1;
    }
    proof {
        assert(first_semi(cs@, 12) == e as int);
    }
    let v = sub_chars(&cs, 12, e);
    Some(from_chars(&v))
}

/// Finds the client id among the `set-cookie` headers of one response.
pub fn find_client_id(headers: &Vec<String>) -> (r: Option<String>)
    ensures
        match r {
            Some(v) => spec_find_client_id(header_views(headers@)) == Some(v@),
            None => spec_find_client_id(header_views(headers@)) is None,
        },
{
    proof {
        assert(header_views(headers@).skip(0) =~= header_views(headers@));
    }
    let mut i: usize = 0;
    while i < headers.len()
        invariant
            i <= headers@.len(),
            spec_find_client_id(header_views(headers@)) == spec_find_client_id(
                header_views(headers@).skip(i as int),
            ),
        decreases headers@.len() - i,
    {
        proof {
            assert(header_views(headers@)[i as int] == headers@[i as int]@);
            assert(header_views(headers@).skip(i as int)[0] == header_views(headers@)[i as int]);
            assert(header_views(headers@).skip(i as int).drop_first() =~= header_views(
                headers@,
            ).skip(i + 1));
        }
        match cookie_client_id(headers[i].as_str()) {
            Some(v) => {
                return Some(v);
            },
            None => {},
        }
        i += 1;
    }
    proof {
        assert(header_views(headers@).skip(i as int).len() == 0);
    }
    None
}

/// The first position at or after `i` where `n` occurs in `h`, if any.
pub open spec fn find_at(h: Seq<char>, n: Seq<char>, i: int) -> Option<int>
    decreases h.len() - n.len() - i + 1,
{
    if i < 0 || i > h.len() - n.len() {
        None
    } else if match_at(h, n, i) {
        Some(i)
    } else {
        find_at(h, n, i + 1)
    }
}

proof fn lemma_find_at_some(h: Seq<char>, n: Seq<char>, from: int, i: int)
    requires
        0 <= from <= i,
        match_at(h, n, i),
        forall|j: int| from <= j < i ==> !match_at(h, n, j),
    ensures
        find_at(h, n, from) == Some(i),
    decreases i - from,
{
    if from < i {
        lemma_find_at_some(h, n, from + 1, i);
    }
}

proof fn lemma_find_at_none(h: Seq<char>, n: Seq<char>, from: int)
    requires
        0 <= from,
        forall|j: int| from <= j ==> !match_at(h, n, j),
    ensures
        find_at(h, n, from) is None,
    decreases h.len() - n.len() - from + 1,
{
    if from <= h.len() - n.len() {
        lemma_find_at_none(h, n, from + 1);
    }
}

/// The tag whose `content` attribute carries the CSRF token.
pub open spec fn csrf_prefix() -> Seq<char> {
    "<meta name=\"csrf-token\" content=\""@
}

/// What closes the `content` attribute.
pub open spec fn csrf_close() -> Seq<char> {
    "\">"@
}

/// The CSRF token the landing-page HTML carries, if any: what stands
/// between the first occurrence of the meta tag's opening and the first
/// `">` after it.
pub open spec fn spec_csrf_token(html: Seq<char>) -> Option<Seq<char>> {
    match find_at(html, csrf_prefix(), 0) {
        None => None,
        Some(i) => {
            match find_at(html, csrf_close(), i + csrf_prefix().len()) {
                None => None,
                Some(k) => Some(html.subrange(i + csrf_prefix().len(), k)),
            }
        },
    }
}

/// Extracts the CSRF token from the landing-page HTML.
pub fn extract_csrf_token(html: &str) -> (r: Option<String>)
    ensures
        match r {
            Some(v) => spec_csrf_token(html@) == Some(v@),
            None => spec_csrf_token(html@) is None,
        },
{
    let cs = to_chars(html);
    let p = to_chars("<meta name=\"csrf-token\" content=\"");
    let close = to_chars("\">");
    match find_sub(&cs, &p, 0) {
        None => {
            proof {
                lemma_find_at_none(cs@, p@, 0);
            }
            None
        },
        Some(i) => {
            let hlen = cs.len();
            proof {
                lemma_find_at_some(cs@, p@, 0, i as int);
                assert(i + p@.len() <= cs@.len());
            }
            let start = i + p.len();
            match find_sub(&cs, &close, start) {
                None => {
                    proof {
                        lemma_find_at_none(cs@, close@, start as int);
                    }
                    None
                },
                Some(k) => {
                    proof {
                        lemma_find_at_some(cs@, close@, start as int, k as int);
                    }
                    let v = sub_chars(&cs, start, k);
                    Some(from_chars(&v))
                },
            }
        },
    }
}

/// The notice when the bootstrap cannot find its tokens.
pub open spec fn tokens_failure_text() -> Seq<char> {
    "Could not fetch the client id!"@
}

/// The compute half of the token scrape: both tokens must come from one
/// landing-page response, its `set-cookie` headers and its HTML body. Fails
/// with the fixed notice when either token is missing.
pub fn get_tokens(headers: &Vec<String>, body: &str) -> (r: Result<(String, String), String>)
    ensures
        match r {
            Ok(t) => {
                &&& spec_find_client_id(header_views(headers@)) == Some(t.0@)
                &&& spec_csrf_token(body@) == Some(t.1@)
            },
            Err(e) => {
                &&& (spec_find_client_id(header_views(headers@)) is None || spec_csrf_token(
                    body@,
                ) is None)
                &&& e@ == tokens_failure_text()
            },
        },
{
    match find_client_id(headers) {
        None => Err("Could not fetch the client id!".to_owned()),
        Some(cid) => match extract_csrf_token(body) {
            None => Err("Could not fetch the client id!".to_owned()),
            Some(tok) => Ok((cid, tok)),
        },
    }
}

} // verus!
