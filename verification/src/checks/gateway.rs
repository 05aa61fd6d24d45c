//! Gateway health checking: pulling the display address and the bare host
//! out of the gateway's URL. Calling the gateway itself is the caller's
//! concern.

use vstd::prelude::*;

use crate::text::{find_char, find_last_char, strip_all, strip_all_prefix};

verus! {

/// Category label of the gateway checks.
pub const CATEGORY: &'static str = "Gateway";

/// The URL without its scheme: every repetition of either scheme prefix
/// removed from the front.
pub open spec fn without_scheme(url: Seq<char>) -> Seq<char> {
    strip_all(strip_all(url, "http://"@), "https://"@)
}

/// The address shown for a URL: the URL without its scheme.
pub fn extract_address(url: &str) -> (r: String)
    ensures
        r@ == without_scheme(url@),
{
    let step = strip_all_prefix(url, "http://");
    strip_all_prefix(step.as_str(), "https://")
}

/// The part of the scheme-less URL before its first slash.
pub open spec fn host_port_of(ws: Seq<char>) -> Seq<char> {
    if exists|i: int| 0 <= i < ws.len() && ws[i] == '/' {
        let i = choose|i: int|
            0 <= i < ws.len() && ws[i] == '/' && forall|j: int| 0 <= j < i ==> ws[j] != '/';
        ws.take(i)
    } else {
        ws
    }
}

/// The bare host of such a part: everything before the last colon, except
/// that a bracketed host keeps its brackets and loses only a port after
/// them.
pub open spec fn host_of(hp: Seq<char>) -> Seq<char> {
    if exists|i: int| 0 <= i < hp.len() && hp[i] == ':' {
        let c = choose|c: int|
            0 <= c < hp.len() && hp[c] == ':' && forall|j: int| c < j < hp.len() ==> hp[j] != ':';
        if hp.len() > 0 && hp[0] == '[' {
            if exists|i: int| 0 <= i < hp.len() && hp[i] == ']' {
                let b = choose|b: int|
                    0 <= b < hp.len() && hp[b] == ']' && forall|j: int| 0 <= j < b ==> hp[j] != ']';
                if c > b {
                    hp.take(c)
                } else {
                    hp
                }
            } else {
                hp
            }
        } else {
            hp.take(c)
        }
    } else {
        hp
    }
}

/// The host a URL names, if any: the scheme-less URL up to its first slash,
/// a trailing port removed.
pub open spec fn spec_extract_host(url: Seq<char>) -> Option<Seq<char>> {
    let h = host_of(host_port_of(without_scheme(url)));
    if h.len() == 0 {
        None
    } else {
        Some(h)
    }
}

/// Extract the bare host out of a URL for further calls.
pub fn extract_host(url: &str) -> (r: Option<String>)
    ensures
        match r {
            Some(h) => spec_extract_host(url@) == Some(h@),
            None => spec_extract_host(url@) is None,
        },
{
    let ws = extract_address(url);
    let n = ws.as_str().unicode_len();
    let hp_end: usize = match find_char(ws.as_str(), 0, '/') {
        Some(i) => i,
        None => n,
    };
    let hp = String::from_str(ws.as_str().substring_char(0, hp_end));
    proof {
        let w = ws@;
        if exists|i: int| 0 <= i < w.len() && w[i] == '/' {
            let i = choose|i: int|
                0 <= i < w.len() && w[i] == '/' && forall|j: int| 0 <= j < i ==> w[j] != '/';
            assert(i == hp_end);
            assert(hp@ =~= host_port_of(w));
        } else {
            assert(hp@ =~= host_port_of(w));
        }
    }
    let m = hp.as_str().unicode_len();
    let host: String = match find_last_char(hp.as_str(), ':') {
        Some(c) => {
            if m > 0 && hp.as_str().get_char(0) == '[' {
                match find_char(hp.as_str(), 0, ']') {
                    Some(b) => {
                        if c > b {
                            let h = String::from_str(hp.as_str().substring_char(0, c));
                            proof {
                                lemma_host_of_brackets(hp@, c as int, Some(b as int));
                                assert(h@ =~= hp@.take(c as int));
                            }
                            h
                        } else {
                            proof {
                                lemma_host_of_brackets(hp@, c as int, Some(b as int));
                            }
                            hp
                        }
                    },
                    None => {
                        proof {
                            lemma_host_of_brackets(hp@, c as int, None);
                        }
                        hp
                    },
                }
            } else {
                let h = String::from_str(hp.as_str().substring_char(0, c));
                proof {
                    lemma_host_of_plain(hp@, c as int);
                    assert(h@ =~= hp@.take(c as int));
                }
                h
            }
        },
        None => {
            proof {
                assert(host_of(hp@) == hp@);
            }
            hp
        },
    };
    if host.as_str().unicode_len() == 0 {
        None
    } else {
        Some(host)
    }
}

/// With a last colon and no leading bracket, the host is what stands before
/// that colon.
proof fn lemma_host_of_plain(hp: Seq<char>, c: int)
    requires
        0 <= c < hp.len(),
        hp[c] == ':',
        forall|j: int| c < j < hp.len() ==> hp[j] != ':',
        hp.len() == 0 || hp[0] != '[',
    ensures
        host_of(hp) == hp.take(c),
{
    let c2 = choose|c2: int|
        0 <= c2 < hp.len() && hp[c2] == ':' && forall|j: int| c2 < j < hp.len() ==> hp[j] != ':';
    assert(c2 == c);
}

/// With a leading bracket, only a colon after the closing bracket cuts a
/// port off.
proof fn lemma_host_of_brackets(hp: Seq<char>, c: int, bracket: Option<int>)
    requires
        0 <= c < hp.len(),
        hp[c] == ':',
        forall|j: int| c < j < hp.len() ==> hp[j] != ':',
        hp.len() > 0 && hp[0] == '[',
        match bracket {
            Some(b) => {
                &&& 0 <= b < hp.len()
                &&& hp[b] == ']'
                &&& forall|j: int| 0 <= j < b ==> hp[j] != ']'
            },
            None => forall|j: int| 0 <= j < hp.len() ==> hp[j] != ']',
        },
    ensures
        host_of(hp) == match bracket {
            Some(b) => if c > b {
                hp.take(c)
            } else {
                hp
            },
            None => hp,
        },
{
    let c2 = choose|c2: int|
        0 <= c2 < hp.len() && hp[c2] == ':' && forall|j: int| c2 < j < hp.len() ==> hp[j] != ':';
    assert(c2 == c);
    match bracket {
        Some(b) => {
            let b2 = choose|b2: int|
                0 <= b2 < hp.len() && hp[b2] == ']' && forall|j: int| 0 <= j < b2 ==> hp[j] != ']';
            assert(b2 == b);
        },
        None => {},
    }
}

} // verus!
