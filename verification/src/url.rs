//! Naive URL decomposition into host and route.
//!
//! The split is deliberately substring-based, not a URL grammar parser:
//! the host is the text between the first `//` and the next `/` (or, for a
//! URL without `//`, the text between the first `/` and the one after it),
//! and the route is whatever follows the first occurrence of that host
//! substring anywhere in the URL, up to its next occurrence. A host that
//! reoccurs elsewhere in the URL therefore skews the route; that quirk is
//! part of the contract, not corrected.

use vstd::prelude::*;

use crate::search::contains_from;
use crate::search::first_match_from;
use crate::search::is_first_match_from;
use crate::search::match_at;
use crate::search::find_from;
use crate::search::lemma_first_match_unique;

verus! {

/// The scheme separator `//`.
pub open spec fn scheme_sep() -> Seq<char> {
    seq!['/', '/']
}

/// A single `/`.
pub open spec fn slash() -> Seq<char> {
    seq!['/']
}

/// Index just past the separator that introduces the host: after the first
/// `//` when the URL has one, otherwise after the first `/`.
pub open spec fn domain_start(url: Seq<char>) -> int {
    if contains_from(url, scheme_sep(), 0) {
        first_match_from(url, scheme_sep(), 0) + 2
    } else {
        first_match_from(url, slash(), 0) + 1
    }
}

/// Index of the first `/` at or after `domain_start`, or the end of the URL.
pub open spec fn domain_end(url: Seq<char>) -> int {
    if contains_from(url, slash(), domain_start(url)) {
        first_match_from(url, slash(), domain_start(url))
    } else {
        url.len() as int
    }
}

/// The host substring the splitter extracts.
pub open spec fn domain_of(url: Seq<char>) -> Seq<char> {
    url.subrange(domain_start(url), domain_end(url))
}

/// The URLs the splitter accepts: there is a separator to start the host
/// from (`//`, or at least one `/`), and the host is non-empty.
pub open spec fn url_splittable(url: Seq<char>) -> bool {
    &&& contains_from(url, scheme_sep(), 0) || contains_from(url, slash(), 0)
    &&& domain_start(url) < domain_end(url)
}

/// Index just past the first occurrence of the host anywhere in the URL;
/// the route starts here.
pub open spec fn route_start(url: Seq<char>) -> int {
    first_match_from(url, domain_of(url), 0) + domain_of(url).len()
}

/// Index of the next occurrence of the host after `route_start`, or the end
/// of the URL; the route stops here.
pub open spec fn route_end(url: Seq<char>) -> int {
    if contains_from(url, domain_of(url), route_start(url)) {
        first_match_from(url, domain_of(url), route_start(url))
    } else {
        url.len() as int
    }
}

/// The route substring the splitter extracts.
pub open spec fn route_of(url: Seq<char>) -> Seq<char> {
    url.subrange(route_start(url), route_end(url))
}

/// Shared core of the two splitter laws: once the host is known to sit at
/// `start` (just past the separator), to contain no `/`, and to occur
/// nowhere else in the URL, the splitter's host is exactly that substring
/// and its route is exactly what follows.
proof fn lemma_split_exact(url: Seq<char>, start: int, host: Seq<char>, path: Seq<char>)
    requires
        0 <= start,
        url.len() == start + host.len() + path.len(),
        forall|k: int| 0 <= k < host.len() ==> url[start + k] == host[k],
        forall|k: int| 0 <= k < path.len() ==> url[start + host.len() + k] == path[k],
        host.len() > 0,
        forall|k: int| 0 <= k < host.len() ==> host[k] != '/',
        path.len() == 0 || path[0] == '/',
        contains_from(url, scheme_sep(), 0) || contains_from(url, slash(), 0),
        domain_start(url) == start,
        forall|j: int| 0 <= j < start ==> !match_at(url, host, j),
        !contains_from(url, host, start + host.len()),
    ensures
        url_splittable(url),
        domain_of(url) == host,
        route_of(url) == path,
{
    let hend = start + host.len();
    assert forall|j: int| start <= j < hend implies !match_at(url, slash(), j) by {
        if match_at(url, slash(), j) {
            assert(url.subrange(j, j + 1)[0] == url[j]);
            assert(url[j] == host[j - start]);
        }
    }
    if path.len() == 0 {
        assert forall|j: int| start <= j implies !match_at(url, slash(), j) by {
            if match_at(url, slash(), j) {
                assert(j < url.len());
            }
        }
        assert(!contains_from(url, slash(), start));
        assert(domain_end(url) == url.len());
    } else {
        assert(match_at(url, slash(), hend)) by {
            assert(url[hend] == path[0]);
            assert(url.subrange(hend, hend + 1) =~= slash());
        }
        assert(is_first_match_from(url, slash(), start, hend));
        lemma_first_match_unique(url, slash(), start, hend);
        assert(contains_from(url, slash(), start));
        assert(domain_end(url) == hend);
    }
    assert(domain_of(url) =~= host);
    assert(url_splittable(url));
    assert(match_at(url, host, start)) by {
        assert(url.subrange(start, hend) =~= host);
    }
    assert(is_first_match_from(url, host, 0, start));
    lemma_first_match_unique(url, host, 0, start);
    assert(route_start(url) == hend);
    assert(route_end(url) == url.len());
    assert(route_of(url) =~= path);
}

/// Law: a URL of the shape `scheme//host/path...` — with the scheme
/// separator `//` its first, a non-empty host free of `/`, and a host
/// substring that occurs nowhere else in the URL — splits into exactly
/// that host and exactly that path.
pub proof fn lemma_split_scheme_url(scheme: Seq<char>, host: Seq<char>, path: Seq<char>)
    requires
        host.len() > 0,
        forall|k: int| 0 <= k < host.len() ==> host[k] != '/',
        path.len() == 0 || path[0] == '/',
        forall|j: int| 0 <= j < scheme.len() ==> !match_at(
            scheme + scheme_sep() + host + path,
            scheme_sep(),
            j,
        ),
        forall|j: int| 0 <= j < scheme.len() + 2 ==> !match_at(
            scheme + scheme_sep() + host + path,
            host,
            j,
        ),
        !contains_from(
            scheme + scheme_sep() + host + path,
            host,
            scheme.len() + 2 + host.len() as int,
        ),
    ensures
        url_splittable(scheme + scheme_sep() + host + path),
        domain_of(scheme + scheme_sep() + host + path) == host,
        route_of(scheme + scheme_sep() + host + path) == path,
{
    let url = scheme + scheme_sep() + host + path;
    let sl = scheme.len() as int;
    assert(match_at(url, scheme_sep(), sl)) by {
        assert(url.subrange(sl, sl + 2) =~= scheme_sep());
    }
    assert(is_first_match_from(url, scheme_sep(), 0, sl));
    lemma_first_match_unique(url, scheme_sep(), 0, sl);
    assert(contains_from(url, scheme_sep(), 0));
    assert(domain_start(url) == sl + 2);
    lemma_split_exact(url, sl + 2, host, path);
}

/// Law: a URL without `//`, of the shape `head/host/path...` — with the
/// `/` before the host its first, a non-empty host free of `/`, and a
/// host substring that occurs nowhere else in the URL — splits into
/// exactly that host and exactly that path.
pub proof fn lemma_split_schemeless_url(head: Seq<char>, host: Seq<char>, path: Seq<char>)
    requires
        host.len() > 0,
        forall|k: int| 0 <= k < host.len() ==> host[k] != '/',
        path.len() == 0 || path[0] == '/',
        !contains_from(head + slash() + host + path, scheme_sep(), 0),
        forall|j: int| 0 <= j < head.len() ==> !match_at(
            head + slash() + host + path,
            slash(),
            j,
        ),
        forall|j: int| 0 <= j < head.len() + 1 ==> !match_at(
            head + slash() + host + path,
            host,
            j,
        ),
        !contains_from(head + slash() + host + path, host, head.len() + 1 + host.len() as int),
    ensures
        url_splittable(head + slash() + host + path),
        domain_of(head + slash() + host + path) == host,
        route_of(head + slash() + host + path) == path,
{
    let url = head + slash() + host + path;
    let hl = head.len() as int;
    assert(match_at(url, slash(), hl)) by {
        assert(url.subrange(hl, hl + 1) =~= slash());
    }
    assert(is_first_match_from(url, slash(), 0, hl));
    lemma_first_match_unique(url, slash(), 0, hl);
    assert(contains_from(url, slash(), 0));
    assert(domain_start(url) == hl + 1);
    lemma_split_exact(url, hl + 1, host, path);
}

/// Whether the splitter accepts this URL. A URL it does not accept (no `/`
/// at all, or an empty host) makes the split fail; callers must refuse such
/// input loudly instead of calling the splitter.
pub fn can_split_url(url: &str) -> (r: bool)
    ensures
        r == url_splittable(url@),
{
    proof {
        reveal_strlit("//");
        reveal_strlit("/");
        assert("//"@ =~= scheme_sep());
        assert("/"@ =~= slash());
    }
    let len = url.unicode_len();
    let ds: usize = match find_from(url, "//", 0) {
        Some(i) => {
            proof {
                lemma_first_match_unique(url@, scheme_sep(), 0, i as int);
            }
            i + 2
        },
        None => {
            match find_from(url, "/", 0) {
                Some(j) => {
                    proof {
                        lemma_first_match_unique(url@, slash(), 0, j as int);
                    }
                    j + 1
                },
                None => {
                    return false;
                },
            }
        },
    };
    if ds >= len {
        return false;
    }
    let de: usize = match find_from(url, "/", ds) {
        Some(k) => {
            proof {
                lemma_first_match_unique(url@, slash(), ds as int, k as int);
            }
            k
        },
        None => len,
    };
    ds < de
}

/// Split a URL into `(host, route)` exactly as described at module level.
pub fn url_domain_route_split<'a>(url: &'a str) -> (r: (&'a str, &'a str))
    requires
        url_splittable(url@),
    ensures
        r.0@ == domain_of(url@),
        r.1@ == route_of(url@),
{
    proof {
        reveal_strlit("//");
        reveal_strlit("/");
        assert("//"@ =~= scheme_sep());
        assert("/"@ =~= slash());
    }
    let len = url.unicode_len();
    let ds: usize = match find_from(url, "//", 0) {
        Some(i) => {
            proof {
                lemma_first_match_unique(url@, scheme_sep(), 0, i as int);
            }
            i + 2
        },
        None => {
            match find_from(url, "/", 0) {
                Some(j) => {
                    proof {
                        lemma_first_match_unique(url@, slash(), 0, j as int);
                    }
                    j + 1
                },
                None => {
                    proof {
                        assert(false);
                    }
                    vstd::pervasive::unreached()
                },
            }
        },
    };
    let de: usize = match find_from(url, "/", ds) {
        Some(k) => {
            proof {
                lemma_first_match_unique(url@, slash(), ds as int, k as int);
            }
            k
        },
        None => len,
    };
    let domain = url.substring_char(ds, de);
    proof {
        assert(domain@ == domain_of(url@));
        assert(match_at(url@, domain@, ds as int));
        assert(domain@.len() >= 1);
    }
    let m: usize = match find_from(url, domain, 0) {
        Some(m) => {
            proof {
                lemma_first_match_unique(url@, domain@, 0, m as int);
            }
            m
        },
        None => {
            proof {
                assert(contains_from(url@, domain@, 0));
                assert(false);
            }
            vstd::pervasive::unreached()
        },
    };
    let dlen = de - ds;
    let rs = m + dlen;
    proof {
        assert(rs as int == route_start(url@));
    }
    let re: usize = match find_from(url, domain, rs) {
        Some(x) => {
            proof {
                lemma_first_match_unique(url@, domain@, rs as int, x as int);
            }
            x
        },
        None => len,
    };
    let route = url.substring_char(rs, re);
    (domain, route)
}

} // verus!
