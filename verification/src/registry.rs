//! Registry announcements: the container fact announced to the cluster
//! gateway, endpoint address parsing, the request texts sent over the wire,
//! and the at-least-one-success rule. Opening connections and moving bytes
//! is the caller's concern.

use vstd::prelude::*;

use crate::error::{CniError, CniErrorCode};
use crate::ipam::slash_free;
use vstd::string::StringSliceAdditionalSpecFns;

use crate::text::{
    dec_seq, dec_str, find_char, is_digit, lemma_dec_seq_canonical, parse_u16, str_eq,
};

verus! {

/// Seconds allowed per registry call.
pub const REGISTRY_TIMEOUT_SECS: u64 = 5;

/// The fact announced for one container: who it is, where it can be
/// reached, and on which host it runs.
pub struct ContainerInfo {
    /// Container ID.
    pub id: String,
    /// Allocated address.
    pub ip: String,
    /// Container hostname, if known.
    pub hostname: Option<String>,
    /// Exposed ports, if known.
    pub ports: Option<Vec<u16>>,
    /// Host the container runs on.
    pub host_id: u8,
    /// Creation time as seconds since the epoch, in decimal text.
    pub created_at: Option<String>,
}

/// Relies on std::time::SystemTime::now and duration_since: seconds elapsed
/// since the Unix epoch, or zero if the clock reads earlier than the epoch.
/// The value depends on the clock, so nothing is promised of it.
#[verifier::external_body]
fn unix_timestamp_secs() -> u64 {
    match std::time::SystemTime::now().duration_since(std::time::UNIX_EPOCH) {
        Ok(d) => d.as_secs(),
        Err(_) => 0,
    }
}

/// The current time as decimal text. The digits depend on the clock; the
/// text is always a non-empty canonical decimal.
pub fn chrono_now() -> (r: String)
    ensures
        r@.len() >= 1,
        exists|t: u64| r@ == dec_seq(t as nat),
{
    let t = unix_timestamp_secs();
    let s = dec_str(t);
    proof {
        crate::text::lemma_dec_seq_len(t as nat);
    }
    s
}

impl ContainerInfo {
    /// A fact for a freshly provisioned container, stamped with the current
    /// time.
    pub fn new(id: String, ip: String, host_id: u8) -> (r: Self)
        ensures
            r.id == id,
            r.ip == ip,
            r.host_id == host_id,
            r.hostname is None,
            r.ports is None,
            r.created_at matches Some(c) && c@.len() >= 1 && exists|t: u64| c@ == dec_seq(
                t as nat,
            ),
    {
        Self { id, ip, hostname: None, ports: None, host_id, created_at: Some(chrono_now()) }
    }

    /// Record the container's hostname.
    pub fn with_hostname(self, hostname: String) -> (r: Self)
        ensures
            r == (Self { hostname: Some(hostname), ..self }),
    {
        Self { hostname: Some(hostname), ..self }
    }

    /// Record the container's exposed ports.
    pub fn with_ports(self, ports: Vec<u16>) -> (r: Self)
        ensures
            r == (Self { ports: Some(ports), ..self }),
    {
        Self { ports: Some(ports), ..self }
    }
}

/// A client for announcing container facts to a set of registry endpoints.
pub struct RegistryClient {
    /// Endpoint addresses announced to.
    pub endpoints: Vec<String>,
    /// Seconds allowed per call.
    pub timeout_secs: u64,
}

impl RegistryClient {
    /// A client for the given endpoints with the default timeout.
    pub fn new(endpoints: Vec<String>) -> (r: Self)
        ensures
            r.endpoints == endpoints,
            r.timeout_secs == REGISTRY_TIMEOUT_SECS,
    {
        Self { endpoints, timeout_secs: REGISTRY_TIMEOUT_SECS }
    }

    /// The same client with another timeout.
    pub fn with_timeout(self, timeout_secs: u64) -> (r: Self)
        ensures
            r.endpoints == self.endpoints,
            r.timeout_secs == timeout_secs,
    {
        Self { endpoints: self.endpoints, timeout_secs }
    }
}

/// Announcement against several endpoints succeeds exactly when at least
/// one endpoint accepted.
pub fn registration_succeeded(outcomes: &Vec<bool>) -> (r: bool)
    ensures
        r == exists|i: int| 0 <= i < outcomes@.len() && outcomes@[i],
{
    let n = outcomes.len();
    let mut i: usize = 0;
    while i < n
        invariant
            i <= n,
            n == outcomes@.len(),
            forall|j: int| 0 <= j < i ==> !outcomes@[j],
        decreases n - i,
    {
        if outcomes[i] {
            return true;
        }
        i = i + 1;
    }
    false
}

/// Whether a sequence holds no colon.
pub open spec fn colon_free(s: Seq<char>) -> bool {
    forall|i: int| 0 <= i < s.len() ==> s[i] != ':'
}

/// How an endpoint text decomposes into host, port and path: the scheme
/// prefix, then the host, an optional explicit decimal port after a colon,
/// and an optional path beginning with a slash, the port defaulting to
/// eighty and the path to a single slash.
pub open spec fn endpoint_form(s: Seq<char>, host: Seq<char>, port: u16, path: Seq<char>) -> bool {
    &&& s.len() >= 7
    &&& s.take(7) == "http://"@
    &&& slash_free(host)
    &&& colon_free(host)
    &&& {
        let rest = s.skip(7);
        ||| (rest == host + seq![':'] + dec_seq(port as nat) + path && path.len() > 0 && path[0]
            == '/')
        ||| (rest == host + seq![':'] + dec_seq(port as nat) && path == seq!['/'])
        ||| (rest == host + path && port == 80 && path.len() > 0 && path[0] == '/')
        ||| (rest == host && port == 80 && path == seq!['/'])
    }
}

/// Parse an endpoint of the form `http://host[:port][/path]` into host,
/// port and path.
#[verifier::rlimit(100)]
#[verifier::spinoff_prover]
pub fn parse_endpoint(endpoint: &str) -> (r: Result<(String, u16, String), CniError>)
    ensures
        match r {
            Ok(t) => endpoint_form(endpoint@, t.0@, t.1, t.2@),
            Err(e) => {
                &&& e.spec_code() == CniErrorCode::InvalidNetworkConfig
                &&& forall|h: Seq<char>, p: u16, pa: Seq<char>|
                    !#[trigger] endpoint_form(endpoint@, h, p, pa)
            },
        },
{
    let n = endpoint.unicode_len();
    if n < 7 {
        return Err(CniError::new(CniErrorCode::InvalidNetworkConfig, "endpoint must use http://"));
    }
    let prefix = endpoint.substring_char(0, 7);
    if !str_eq(prefix, "http://") {
        return Err(CniError::new(CniErrorCode::InvalidNetworkConfig, "endpoint must use http://"));
    }
    let slash = find_char(endpoint, 7, '/');
    let colon = find_char(endpoint, 7, ':');
    let hp_end: usize = match slash {
        Some(i) => i,
        None => n,
    };
    let explicit: Option<usize> = match colon {
        Some(c) => if c < hp_end {
            Some(c)
        } else {
            None
        },
        None => None,
    };
    let (host, port): (&str, u16) = match explicit {
        Some(c) => {
            let p = match parse_u16(endpoint, c + 1, hp_end) {
                Some(p) => p,
                None => {
                    proof {
                        lemma_bad_port_no_form(endpoint@, c as int, hp_end as int, slash, colon);
                    }
                    return Err(
                        CniError::new(
                            CniErrorCode::InvalidNetworkConfig,
                            "invalid port in endpoint",
                        ),
                    );
                },
            };
            (endpoint.substring_char(7, c), p)
        },
        None => (endpoint.substring_char(7, hp_end), 80u16),
    };
    let path: String = match slash {
        Some(i) => String::from_str(endpoint.substring_char(i, n)),
        None => String::from_str("/"),
    };
    let host_s = String::from_str(host);
    proof {
        reveal_strlit("/");
        let s = endpoint@;
        let rest = s.skip(7);
        match explicit {
            Some(c) => {
                match slash {
                    Some(i) => {
                        assert(rest =~= host_s@ + seq![':'] + dec_seq(port as nat) + path@);
                    },
                    None => {
                        assert(rest =~= host_s@ + seq![':'] + dec_seq(port as nat));
                        assert(path@ =~= seq!['/']);
                    },
                }
            },
            None => {
                match slash {
                    Some(i) => {
                        assert(rest =~= host_s@ + path@);
                    },
                    None => {
                        assert(rest =~= host_s@);
                        assert(path@ =~= seq!['/']);
                    },
                }
            },
        }
    }
    Ok((host_s, port, path))
}

/// Decimal digits are neither slashes nor colons.
proof fn lemma_dec_special_free(p: nat)
    ensures
        forall|i: int|
            0 <= i < dec_seq(p).len() ==> dec_seq(p)[i] != '/' && dec_seq(p)[i] != ':',
{
    lemma_dec_seq_canonical(p);
    assert(forall|i: int| 0 <= i < dec_seq(p).len() ==> is_digit(#[trigger] dec_seq(p)[i]));
}

/// When an explicit port is present but its text is not a canonical decimal
/// value, the endpoint has no valid decomposition at all.
#[verifier::rlimit(100)]
#[verifier::spinoff_prover]
proof fn lemma_bad_port_no_form(
    s: Seq<char>,
    c: int,
    hp_end: int,
    slash: Option<usize>,
    colon: Option<usize>,
)
    requires
        s.len() >= 7,
        7 <= c < s.len(),
        s[c] == ':',
        forall|j: int| 7 <= j < c ==> s[j] != ':',
        match slash {
            Some(i) => {
                &&& 7 <= i < s.len()
                &&& s[i as int] == '/'
                &&& hp_end == i
                &&& forall|j: int| 7 <= j < i ==> s[j] != '/'
            },
            None => hp_end == s.len() && forall|j: int| 7 <= j < s.len() ==> s[j] != '/',
        },
        c < hp_end,
        forall|p: u16| s.subrange(c + 1, hp_end) != dec_seq(p as nat),
    ensures
        forall|h: Seq<char>, p: u16, pa: Seq<char>| !#[trigger] endpoint_form(s, h, p, pa),
{
    let rest = s.skip(7);
    assert forall|j: int| 0 <= j < rest.len() implies #[trigger] rest[j] == s[7 + j] by {}
    assert forall|h: Seq<char>, p: u16, pa: Seq<char>| !#[trigger] endpoint_form(s, h, p, pa) by {
        if endpoint_form(s, h, p, pa) {
            lemma_dec_special_free(p as nat);
            let d = dec_seq(p as nat);
            let hl = h.len() as int;
            let dl = d.len() as int;
            // the colon found by the scan, in tail coordinates
            let ct = c - 7;
            assert(rest[ct] == ':');
            assert(forall|j: int| 0 <= j < ct ==> #[trigger] rest[j] != ':');
            if rest == h + seq![':'] + d + pa && pa.len() > 0 && pa[0] == '/' {
                assert(rest[hl] == ':');
                assert(forall|j: int| 0 <= j < hl ==> #[trigger] rest[j] == h[j]);
                assert(ct == hl);
                assert(forall|j: int| 0 <= j < dl ==> #[trigger] rest[hl + 1 + j] == d[j]);
                assert(rest[hl + 1 + dl] == pa[0]);
                match slash {
                    Some(i) => {
                        let st = i - 7;
                        assert(rest[st] == '/');
                        assert(forall|j: int| 0 <= j < st ==> #[trigger] rest[j] != '/');
                        assert(st == hl + 1 + dl);
                        assert(s.subrange(c + 1, hp_end) =~= d) by {
                            assert forall|k: int|
                                0 <= k < dl implies s.subrange(c + 1, hp_end)[k] == d[k] by {
                                assert(s.subrange(c + 1, hp_end)[k] == s[c + 1 + k]);
                                assert(rest[hl + 1 + k] == s[7 + (hl + 1 + k)]);
                                assert(rest[hl + 1 + k] == d[k]);
                            }
                        }
                    },
                    None => {
                        assert(s[7 + hl + 1 + dl] == '/');
                    },
                }
            } else if rest == h + seq![':'] + d && pa == seq!['/'] {
                assert(rest[hl] == ':');
                assert(forall|j: int| 0 <= j < hl ==> #[trigger] rest[j] == h[j]);
                assert(ct == hl);
                assert(forall|j: int| 0 <= j < dl ==> #[trigger] rest[hl + 1 + j] == d[j]);
                match slash {
                    Some(i) => {
                        let st = i - 7;
                        assert(rest[st] == '/');
                        assert(st != hl);
                        if st < hl {
                            assert(rest[st] == h[st]);
                        } else {
                            assert(rest[st] == d[st - hl - 1]);
                        }
                    },
                    None => {
                        assert(hp_end == s.len());
                        assert(rest.len() == hl + 1 + dl);
                        assert(s.subrange(c + 1, hp_end) =~= d) by {
                            assert forall|k: int|
                                0 <= k < dl implies s.subrange(c + 1, hp_end)[k] == d[k] by {
                                assert(s.subrange(c + 1, hp_end)[k] == s[c + 1 + k]);
                                assert(rest[hl + 1 + k] == s[7 + (hl + 1 + k)]);
                                assert(rest[hl + 1 + k] == d[k]);
                            }
                        }
                    },
                }
            } else if rest == h + pa && p == 80 && pa.len() > 0 && pa[0] == '/' {
                assert(rest[hl] == pa[0]);
                assert(forall|j: int| 0 <= j < hl ==> #[trigger] rest[j] == h[j]);
                match slash {
                    Some(i) => {
                        let st = i - 7;
                        assert(rest[st] == '/');
                        assert(forall|j: int| 0 <= j < st ==> #[trigger] rest[j] != '/');
                        assert(st <= hl);
                        // the scan's colon lies before the slash, so inside the host
                        assert(ct < st);
                        assert(rest[ct] == h[ct]);
                    },
                    None => {
                        assert(s[7 + hl] == '/');
                    },
                }
            } else {
                assert(rest == h && p == 80 && pa == seq!['/']);
                assert(forall|j: int| 0 <= j < hl ==> #[trigger] rest[j] == h[j]);
                assert(rest[ct] == h[ct]);
            }
        }
    }
}

/// All trailing slashes removed.
pub open spec fn trim_slashes(s: Seq<char>) -> Seq<char>
    decreases s.len(),
{
    if s.len() > 0 && s.last() == '/' {
        trim_slashes(s.drop_last())
    } else {
        s
    }
}

/// The path a withdrawal is sent to: the endpoint path without trailing
/// slashes, then a slash and the container ID.
pub fn delete_path(path: &str, container_id: &str) -> (r: String)
    ensures
        r@ == trim_slashes(path@) + seq!['/'] + container_id@,
{
    let mut end = path.unicode_len();
    proof {
        assert(path@.subrange(0, path@.len() as int) =~= path@);
    }
    while end > 0 && path.get_char(end - 1) == '/'
        invariant
            end <= path@.len(),
            trim_slashes(path@) == trim_slashes(path@.subrange(0, end as int)),
        decreases end,
    {
        end = end - 1;
        proof {
            let cur = path@.subrange(0, end + 1);
            assert(cur.drop_last() =~= path@.subrange(0, end as int));
            assert(cur.last() == path@[end as int]);
        }
    }
    let mut out = String::from_str(path.substring_char(0, end));
    out.append("/");
    out.append(container_id);
    proof {
        reveal_strlit("/");
        let kept = path@.subrange(0, end as int);
        if end > 0 {
            assert(kept.last() == path@[end - 1]);
            assert(kept.last() != '/');
        }
        assert(trim_slashes(kept) == kept);
        assert(out@ =~= trim_slashes(path@) + seq!['/'] + container_id@);
    }
    out
}

/// The announcement request for one endpoint: a POST of the JSON body, with
/// its byte length declared, on a connection that closes after the answer.
pub fn post_request(host: &str, path: &str, body: &str) -> (r: String)
    ensures
        r@ == "POST "@ + path@ + " HTTP/1.1\r\nHost: "@ + host@
            + "\r\nContent-Type: application/json\r\nContent-Length: "@ + dec_seq(
            (body.spec_bytes().len() as usize) as nat,
        ) + "\r\nConnection: close\r\n\r\n"@ + body@,
{
    let len = body.len();
    let mut out = String::from_str("POST ");
    out.append(path);
    out.append(" HTTP/1.1\r\nHost: ");
    out.append(host);
    out.append("\r\nContent-Type: application/json\r\nContent-Length: ");
    let len_s = dec_str(len as u64);
    out.append(len_s.as_str());
    out.append("\r\nConnection: close\r\n\r\n");
    out.append(body);
    proof {
        assert(out@ =~= "POST "@ + path@ + " HTTP/1.1\r\nHost: "@ + host@
            + "\r\nContent-Type: application/json\r\nContent-Length: "@ + dec_seq(
            (body.spec_bytes().len() as usize) as nat,
        ) + "\r\nConnection: close\r\n\r\n"@ + body@);
    }
    out
}

/// The withdrawal request for one endpoint: a DELETE of the container's
/// resource, on a connection that closes after the answer.
pub fn delete_request(host: &str, delete_path: &str) -> (r: String)
    ensures
        r@ == "DELETE "@ + delete_path@ + " HTTP/1.1\r\nHost: "@ + host@
            + "\r\nConnection: close\r\n\r\n"@,
{
    let mut out = String::from_str("DELETE ");
    out.append(delete_path);
    out.append(" HTTP/1.1\r\nHost: ");
    out.append(host);
    out.append("\r\nConnection: close\r\n\r\n");
    out
}

/// The first line of a response: everything before the first newline, a
/// trailing carriage return removed.
pub open spec fn first_line(s: Seq<char>) -> Seq<char> {
    let cut = if exists|i: int| 0 <= i < s.len() && s[i] == '\n' {
        let i = choose|i: int| 0 <= i < s.len() && s[i] == '\n' && forall|j: int|
            0 <= j < i ==> s[j] != '\n';
        s.subrange(0, i)
    } else {
        s
    };
    if cut.len() > 0 && cut.last() == '\r' {
        cut.drop_last()
    } else {
        cut
    }
}

/// Whether a status line reports success: the field after its first
/// space is a three-digit code beginning with two.
pub open spec fn line_reports_success(line: Seq<char>) -> bool {
    exists|sp: int|
        {
            &&& 0 <= sp < line.len()
            &&& #[trigger] line[sp] == ' '
            &&& (forall|j: int| 0 <= j < sp ==> line[j] != ' ')
            &&& sp + 4 <= line.len()
            &&& line[sp + 1] == '2'
            &&& is_digit(line[sp + 2])
            &&& is_digit(line[sp + 3])
            &&& (sp + 4 == line.len() || line[sp + 4] == ' ')
        }
}

/// Whether a raw response reports success: its first line carries a
/// success code.
pub fn is_success_response(response: &str) -> (r: bool)
    ensures
        r == line_reports_success(first_line(response@)),
{
    let n = response.unicode_len();
    let cut_end = match find_char(response, 0, '\n') {
        Some(i) => i,
        None => n,
    };
    let line_end = if cut_end > 0 && response.get_char(cut_end - 1) == '\r' {
        cut_end - 1
    } else {
        cut_end
    };
    let line = response.substring_char(0, line_end);
    proof {
        let s = response@;
        assert(line@ =~= first_line(s)) by {
            if exists|i: int| 0 <= i < s.len() && s[i] == '\n' {
                let i = choose|i: int|
                    0 <= i < s.len() && s[i] == '\n' && forall|j: int| 0 <= j < i ==> s[j] != '\n';
                assert(cut_end == i);
                assert(s.subrange(0, i).len() == i);
                if i > 0 && s.subrange(0, i as int).last() == '\r' {
                    assert(s.subrange(0, i).drop_last() =~= s.subrange(0, i - 1));
                } else {
                }
            } else {
                if n > 0 && s.last() == '\r' {
                    assert(s.drop_last() =~= s.subrange(0, s.len() - 1));
                }
            }
        }
    }
    let m = line.unicode_len();
    let sp = match find_char(line, 0, ' ') {
        Some(i) => i,
        None => {
            return false;
        },
    };
    if m - sp < 4 {
        return false;
    }
    let ok = line.get_char(sp + 1) == '2' && {
        let c2 = line.get_char(sp + 2);
        '0' <= c2 && c2 <= '9'
    } && {
        let c3 = line.get_char(sp + 3);
        '0' <= c3 && c3 <= '9'
    } && (sp + 4 == m || line.get_char(sp + 4) == ' ');
    proof {
        if !ok && line_reports_success(line@) {
            let sp2 = choose|sp2: int|
                {
                    &&& 0 <= sp2 < line@.len()
                    &&& #[trigger] line@[sp2] == ' '
                    &&& (forall|j: int| 0 <= j < sp2 ==> line@[j] != ' ')
                    &&& sp2 + 4 <= line@.len()
                    &&& line@[sp2 + 1] == '2'
                    &&& is_digit(line@[sp2 + 2])
                    &&& is_digit(line@[sp2 + 3])
                    &&& (sp2 + 4 == line@.len() || line@[sp2 + 4] == ' ')
                };
            assert(sp2 == sp);
        }
    }
    ok
}

} // verus!
