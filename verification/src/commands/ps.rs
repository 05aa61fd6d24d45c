//! The listing command's pure pieces: shortening image names for display
//! and filtering the container list.

use vstd::prelude::*;

use crate::ipam::{lemma_lookup_at, lemma_lookup_none, model_lookup};
use crate::podman::PodmanContainer;
use crate::text::{
    ascii_lower, contains_seq, find_char, find_last_char, lower_seq, str_contains, str_eq,
};

verus! {

/// The image name after its last slash: the registry path dropped.
pub open spec fn image_tail(s: Seq<char>) -> Seq<char> {
    if exists|i: int| 0 <= i < s.len() && s[i] == '/' {
        let i = choose|i: int|
            0 <= i < s.len() && s[i] == '/' && forall|j: int| i < j < s.len() ==> s[j] != '/';
        s.skip(i + 1)
    } else {
        s
    }
}

/// The displayed image name: the tail, shortened to twenty-two characters
/// and an ellipsis when longer than twenty-five.
pub open spec fn spec_truncate_image(s: Seq<char>) -> Seq<char> {
    let t = image_tail(s);
    if t.len() > 25 {
        t.take(22) + "..."@
    } else {
        t
    }
}

/// Shorten an image name for display.
pub fn truncate_image(image: &str) -> (r: String)
    ensures
        r@ == spec_truncate_image(image@),
{
    let n = image.unicode_len();
    let start: usize = match find_last_char(image, '/') {
        Some(i) => i + 1,
        None => 0,
    };
    proof {
        let s = image@;
        if exists|i: int| 0 <= i < s.len() && s[i] == '/' {
            let i = choose|i: int|
                0 <= i < s.len() && s[i] == '/' && forall|j: int| i < j < s.len() ==> s[j] != '/';
            assert(i + 1 == start);
            assert(image_tail(s) =~= s.subrange(start as int, n as int));
        } else {
            assert(image_tail(s) =~= s.subrange(start as int, n as int));
        }
    }
    let tail_len = n - start;
    if tail_len > 25 {
        let mut out = String::from_str(image.substring_char(start, start + 22));
        out.append("...");
        proof {
            assert(image_tail(image@).take(22) =~= image@.subrange(
                start as int,
                start + 22 as int,
            ));
        }
        out
    } else {
        String::from_str(image.substring_char(start, n))
    }
}

/// The primary name a container is known by.
pub open spec fn name_of(c: PodmanContainer) -> Seq<char> {
    if c.names@.len() > 0 {
        c.names@[0]@
    } else {
        Seq::empty()
    }
}

/// Whether a container passes a filter word. A word `key=value` matches
/// the named field; a bare word matches name, ID or image.
pub open spec fn container_matches(c: PodmanContainer, f: Option<String>) -> bool {
    match f {
        None => true,
        Some(fs) => {
            let w = fs@;
            if exists|i: int| 0 <= i < w.len() && w[i] == '=' {
                let i = choose|i: int|
                    0 <= i < w.len() && w[i] == '=' && forall|j: int| 0 <= j < i ==> w[j] != '=';
                let key = lower_seq(w.take(i));
                let value = w.skip(i + 1);
                if key == "name"@ {
                    contains_seq(name_of(c), value)
                } else if key == "id"@ {
                    contains_seq(c.id@, value)
                } else if key == "image"@ {
                    contains_seq(c.image@, value)
                } else if key == "status"@ || key == "state"@ {
                    contains_seq(lower_seq(c.state@), lower_seq(value))
                } else {
                    true
                }
            } else {
                contains_seq(name_of(c), w) || contains_seq(c.id@, w) || contains_seq(c.image@, w)
            }
        },
    }
}

/// The containers of a list that pass a filter, in order.
pub open spec fn spec_apply_filters(s: Seq<PodmanContainer>, f: Option<String>) -> Seq<
    PodmanContainer,
>
    decreases s.len(),
{
    if s.len() == 0 {
        Seq::empty()
    } else {
        let pre = spec_apply_filters(s.drop_last(), f);
        if container_matches(s.last(), f) {
            pre.push(s.last())
        } else {
            pre
        }
    }
}

/// Whether one container passes the filter.
fn matches_filter(c: &PodmanContainer, filter: &Option<String>) -> (r: bool)
    ensures
        r == container_matches(*c, *filter),
{
    let fs = match filter {
        Some(fs) => fs,
        None => {
            return true;
        },
    };
    let w = fs.as_str();
    let n = w.unicode_len();
    match find_char(w, 0, '=') {
        Some(i) => {
            proof {
                let s = w@;
                let i2 = choose|i2: int|
                    0 <= i2 < s.len() && s[i2] == '=' && forall|j: int| 0 <= j < i2 ==> s[j] != '=';
                assert(0 <= i2 < s.len() && s[i2] == '=' && forall|j: int|
                    0 <= j < i2 ==> s[j] != '=') by {
                    assert(s[i as int] == '=' && forall|j: int| 0 <= j < i ==> s[j] != '=');
                }
                assert(i2 == i);
            }
            let key = ascii_lower(w.substring_char(0, i));
            let value = w.substring_char(i + 1, n);
            proof {
                assert(w@.take(i as int) =~= w@.subrange(0, i as int));
                assert(w@.skip(i + 1) =~= w@.subrange(i + 1, n as int));
            }
            if str_eq(key.as_str(), "name") {
                str_contains(c.name(), value)
            } else if str_eq(key.as_str(), "id") {
                str_contains(c.id.as_str(), value)
            } else if str_eq(key.as_str(), "image") {
                str_contains(c.image.as_str(), value)
            } else if str_eq(key.as_str(), "status") || str_eq(key.as_str(), "state") {
                let st = ascii_lower(c.state.as_str());
                let vl = ascii_lower(value);
                str_contains(st.as_str(), vl.as_str())
            } else {
                true
            }
        },
        None => {
            str_contains(c.name(), w) || str_contains(c.id.as_str(), w) || str_contains(
                c.image.as_str(),
                w,
            )
        },
    }
}

/// Keep the containers that pass the filter, in their order.
pub fn apply_filters<'a>(containers: &'a Vec<PodmanContainer>, filter: &Option<String>) -> (r: Vec<
    &'a PodmanContainer,
>)
    ensures
        r@.map_values(|c: &PodmanContainer| *c) == spec_apply_filters(containers@, *filter),
{
    let n = containers.len();
    let mut out: Vec<&PodmanContainer> = Vec::new();
    let mut i: usize = 0;
    while i < n
        invariant
            i <= n,
            n == containers@.len(),
            out@.map_values(|c: &PodmanContainer| *c) == spec_apply_filters(
                containers@.subrange(0, i as int),
                *filter,
            ),
        decreases n - i,
    {
        if matches_filter(&containers[i], filter) {
            out.push(&containers[i]);
        }
        i = i + 1;
        proof {
            let pre = containers@.subrange(0, i - 1);
            let cur = containers@.subrange(0, i as int);
            assert(cur.drop_last() =~= pre);
            assert(cur.last() == containers@[i - 1]);
            assert(out@.map_values(|c: &PodmanContainer| *c) =~= spec_apply_filters(
                cur,
                *filter,
            ));
        }
    }
    proof {
        assert(containers@.subrange(0, n as int) =~= containers@);
    }
    out
}

/// One row of the listing: a container with the address the registry knows
/// for it.
pub struct ContainerDisplay {
    /// Short container ID.
    pub id: String,
    /// Primary name.
    pub name: String,
    /// Image name, shortened for display.
    pub image: String,
    /// The container's registered address, or a dash.
    pub flatnet_ip: String,
    /// Human-readable status.
    pub status: String,
}

/// The short form of a container ID.
pub open spec fn short_id_seq(c: PodmanContainer) -> Seq<char> {
    if c.id@.len() >= 12 {
        c.id@.take(12)
    } else {
        c.id@
    }
}

/// The address displayed for a container: looked up by full ID, then by
/// name, then by short ID, and a dash when the registry knows none.
pub open spec fn display_ip(m: Seq<(Seq<char>, Seq<char>)>, c: PodmanContainer) -> Seq<char> {
    match model_lookup(m, c.id@) {
        Some(v) => v,
        None => match model_lookup(m, name_of(c)) {
            Some(v) => v,
            None => match model_lookup(m, short_id_seq(c)) {
                Some(v) => v,
                None => seq!['-'],
            },
        },
    }
}

/// The address map as key and value sequences.
pub open spec fn ip_map_model(ips: Seq<(String, String)>) -> Seq<(Seq<char>, Seq<char>)> {
    ips.map_values(|p: (String, String)| (p.0@, p.1@))
}

/// The first value stored under a key, if any.
fn assoc_value(ips: &Vec<(String, String)>, k: &str) -> (r: Option<String>)
    ensures
        match r {
            Some(v) => model_lookup(ip_map_model(ips@), k@) == Some(v@),
            None => model_lookup(ip_map_model(ips@), k@) is None,
        },
{
    let n = ips.len();
    let mut i: usize = 0;
    while i < n
        invariant
            i <= n,
            n == ips@.len(),
            forall|j: int| 0 <= j < i ==> ips@[j].0@ != k@,
        decreases n - i,
    {
        if str_eq(ips[i].0.as_str(), k) {
            proof {
                lemma_lookup_at(ip_map_model(ips@), k@, i as int);
            }
            return Some(String::from_str(ips[i].1.as_str()));
        }
        i = i + 1;
    }
    proof {
        lemma_lookup_none(ip_map_model(ips@), k@);
    }
    None
}

/// Build the displayed rows: every container in order, each with its
/// shortened names and its registered address, if any.
pub fn build_display_list(
    containers: &Vec<&PodmanContainer>,
    flatnet_ips: &Vec<(String, String)>,
) -> (r: Vec<ContainerDisplay>)
    ensures
        r@.len() == containers@.len(),
        forall|i: int|
            0 <= i < r@.len() ==> {
                let c = *containers@[i];
                &&& (#[trigger] r@[i]).id@ == short_id_seq(c)
                &&& r@[i].name@ == name_of(c)
                &&& r@[i].image@ == spec_truncate_image(c.image@)
                &&& r@[i].flatnet_ip@ == display_ip(ip_map_model(flatnet_ips@), c)
                &&& r@[i].status@ == c.status@
            },
{
    let n = containers.len();
    let mut out: Vec<ContainerDisplay> = Vec::new();
    let mut i: usize = 0;
    while i < n
        invariant
            i <= n,
            n == containers@.len(),
            out@.len() == i,
            forall|j: int|
                0 <= j < i ==> {
                    let c = *containers@[j];
                    &&& (#[trigger] out@[j]).id@ == short_id_seq(c)
                    &&& out@[j].name@ == name_of(c)
                    &&& out@[j].image@ == spec_truncate_image(c.image@)
                    &&& out@[j].flatnet_ip@ == display_ip(ip_map_model(flatnet_ips@), c)
                    &&& out@[j].status@ == c.status@
                },
        decreases n - i,
    {
        let c: &PodmanContainer = containers[i];
        let flatnet_ip: String = match assoc_value(flatnet_ips, c.id.as_str()) {
            Some(v) => v,
            None => match assoc_value(flatnet_ips, c.name()) {
                Some(v) => v,
                None => match assoc_value(flatnet_ips, c.short_id()) {
                    Some(v) => v,
                    None => {
                        proof {
                            reveal_strlit("-");
                        }
                        String::from_str("-")
                    },
                },
            },
        };
        let row = ContainerDisplay {
            id: String::from_str(c.short_id()),
            name: String::from_str(c.name()),
            image: truncate_image(c.image.as_str()),
            flatnet_ip,
            status: c.status.clone(),
        };
        out.push(row);
        i = i + 1;
    }
    out
}

} // verus!
