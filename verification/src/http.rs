//! The pure core of the typed HTTP transport.
//!
//! Every request carries a fixed default header set, overlaid by per-call
//! headers: a call-supplied header with the same name replaces the default
//! for that call only, and no name is ever sent twice. Responses branch on
//! the HTTP status: a success status means the body is to be decoded, any
//! other status becomes a structured API error that keeps the raw body text
//! verbatim (or a fixed placeholder when the body could not be read).

use crate::error::ClobError;
use vstd::prelude::*;
use vstd::string::StringExecFns;

verus! {

/// One request header: a name and a value.
#[derive(Debug)]
pub struct Header {
    pub name: String,
    pub value: String,
}

/// `a` and `b` carry the same header name and the same value.
pub open spec fn same_entry(a: Header, b: Header) -> bool {
    a.name@ == b.name@ && a.value@ == b.value@
}

/// Some header of `s` has the name `name`.
pub open spec fn contains_name(s: Seq<Header>, name: Seq<char>) -> bool {
    exists|i: int| 0 <= i < s.len() && (#[trigger] s[i]).name@ == name
}

/// Some header of `s` has the same name and value as `h`.
pub open spec fn header_in(s: Seq<Header>, h: Header) -> bool {
    exists|i: int| 0 <= i < s.len() && same_entry(#[trigger] s[i], h)
}

/// No header name occurs twice in `s`.
pub open spec fn unique_names(s: Seq<Header>) -> bool {
    forall|i: int, j: int|
        0 <= i < j < s.len() ==> (#[trigger] s[i]).name@ != (#[trigger] s[j]).name@
}

/// Appending a header keeps every entry that was present, and makes the new
/// one present.
proof fn lemma_header_in_push(s: Seq<Header>, h: Header, g: Header)
    requires
        header_in(s, g) || same_entry(h, g),
    ensures
        header_in(s.push(h), g),
{
    if header_in(s, g) {
        let k = choose|k: int| 0 <= k < s.len() && same_entry(#[trigger] s[k], g);
        assert(same_entry(s.push(h)[k], g));
    } else {
        assert(same_entry(s.push(h)[s.len() as int], g));
    }
}

/// Appending a header whose name is fresh preserves name uniqueness.
proof fn lemma_unique_names_push(s: Seq<Header>, h: Header)
    requires
        unique_names(s),
        forall|k: int| 0 <= k < s.len() ==> (#[trigger] s[k]).name@ != h.name@,
    ensures
        unique_names(s.push(h)),
{
    assert forall|i: int, j: int| 0 <= i < j < s.push(h).len() implies (#[trigger] s.push(h)[i]).name@
        != (#[trigger] s.push(h)[j]).name@ by {
        if j < s.len() {
            assert(s.push(h)[i] == s[i] && s.push(h)[j] == s[j]);
        } else {
            assert(s.push(h)[i] == s[i] && s.push(h)[j] == h);
        }
    }
}

/// Whether some header of `headers` carries the name `name`.
pub fn contains_header_name(headers: &Vec<Header>, name: &String) -> (b: bool)
    ensures
        b == contains_name(headers@, name@),
{
    let mut i: usize = 0;
    while i < headers.len()
        invariant
            0 <= i <= headers@.len(),
            forall|j: int| 0 <= j < i ==> (#[trigger] headers@[j]).name@ != name@,
        decreases headers@.len() - i,
    {
        if headers[i].name == *name {
            return true;
        }
        i = i + 1;
    }
    false
}

/// The fixed header set applied to every request.
pub fn default_headers() -> (r: Vec<Header>)
    ensures
        r@.len() == 4,
        r@[0].name@ == "User-Agent"@ && r@[0].value@ == "py_clob_client"@,
        r@[1].name@ == "Accept"@ && r@[1].value@ == "*/*"@,
        r@[2].name@ == "Connection"@ && r@[2].value@ == "keep-alive"@,
        r@[3].name@ == "Content-Type"@ && r@[3].value@ == "application/json"@,
        unique_names(r@),
{
    let mut r: Vec<Header> = Vec::new();
    r.push(
        Header { name: String::from_str("User-Agent"), value: String::from_str("py_clob_client") },
    );
    r.push(Header { name: String::from_str("Accept"), value: String::from_str("*/*") });
    r.push(Header { name: String::from_str("Connection"), value: String::from_str("keep-alive") });
    r.push(
        Header {
            name: String::from_str("Content-Type"),
            value: String::from_str("application/json"),
        },
    );
    proof {
        reveal_strlit("User-Agent");
        reveal_strlit("Accept");
        reveal_strlit("Connection");
        reveal_strlit("Content-Type");
        assert("User-Agent"@.len() == 10);
        assert("Accept"@.len() == 6);
        assert("Connection"@.len() == 10);
        assert("Content-Type"@.len() == 12);
        assert("User-Agent"@[0] == 'U');
        assert("Connection"@[0] == 'C');
    }
    r
}

/// Overlay per-call headers on the default header set.
///
/// The result maps every name a call-supplied header carries to that header's
/// value, keeps each default header whose name no call-supplied header
/// carries, holds nothing else, and never repeats a name: an override is
/// observed in place of the default, never beside it.
#[verifier::loop_isolation(false)]
pub fn merge_headers(defaults: &Vec<Header>, overrides: &Vec<Header>) -> (r: Vec<Header>)
    requires
        unique_names(defaults@),
        unique_names(overrides@),
    ensures
        unique_names(r@),
        forall|o: int| 0 <= o < overrides@.len() ==> header_in(r@, #[trigger] overrides@[o]),
        forall|d: int|
            0 <= d < defaults@.len() && !contains_name(
                overrides@,
                (#[trigger] defaults@[d]).name@,
            ) ==> header_in(r@, defaults@[d]),
        forall|k: int|
            0 <= k < r@.len() ==> (if contains_name(overrides@, (#[trigger] r@[k]).name@) {
                header_in(overrides@, r@[k])
            } else {
                header_in(defaults@, r@[k])
            }),
        forall|o: int, k: int|
            0 <= o < overrides@.len() && 0 <= k < r@.len() && (#[trigger] r@[k]).name@ == (
            #[trigger] overrides@[o]).name@ ==> r@[k].value@ == overrides@[o].value@,
{
    let mut r: Vec<Header> = Vec::new();
    let mut i: usize = 0;
    while i < defaults.len()
        invariant
            i <= defaults@.len(),
            unique_names(r@),
            forall|k: int|
                0 <= k < r@.len() ==> exists|d: int|
                    0 <= d < i && same_entry(#[trigger] defaults@[d], #[trigger] r@[k]),
            forall|k: int|
                0 <= k < r@.len() ==> !contains_name(overrides@, (#[trigger] r@[k]).name@),
            forall|d: int|
                0 <= d < i && !contains_name(overrides@, (#[trigger] defaults@[d]).name@)
                    ==> header_in(r@, defaults@[d]),
        decreases defaults@.len() - i,
    {
        if !contains_header_name(overrides, &defaults[i].name) {
            let ghost r0 = r@;
            let h = Header {
                name: defaults[i].name.clone(),
                value: defaults[i].value.clone(),
            };
            proof {
                assert(same_entry(h, defaults@[i as int]));
                assert forall|k: int| 0 <= k < r0.len() implies (#[trigger] r0[k]).name@
                    != h.name@ by {
                    let d = choose|d: int|
                        0 <= d < i && same_entry(#[trigger] defaults@[d], r0[k]);
                    assert(defaults@[d].name@ != defaults@[i as int].name@);
                }
            }
            r.push(h);
            proof {
                lemma_unique_names_push(r0, h);
                assert forall|k: int| 0 <= k < r@.len() implies exists|d: int|
                    0 <= d < i + 1 && same_entry(#[trigger] defaults@[d], #[trigger] r@[k]) by {
                    if k < r0.len() {
                        let d = choose|d: int|
                            0 <= d < i && same_entry(#[trigger] defaults@[d], r0[k]);
                        assert(same_entry(defaults@[d], r@[k]));
                    } else {
                        assert(same_entry(defaults@[i as int], r@[k]));
                    }
                }
                assert forall|d: int|
                    0 <= d < i + 1 && !contains_name(
                        overrides@,
                        (#[trigger] defaults@[d]).name@,
                    ) implies header_in(r@, defaults@[d]) by {
                    if d < i {
                        lemma_header_in_push(r0, h, defaults@[d]);
                    } else {
                        lemma_header_in_push(r0, h, defaults@[d]);
                    }
                }
            }
        }
        i = i + 1;
    }
    let ghost base = r@;
    let mut j: usize = 0;
    while j < overrides.len()
        invariant
            j <= overrides@.len(),
            unique_names(r@),
            base.len() <= r@.len(),
            forall|k: int| 0 <= k < base.len() ==> r@[k] == base[k],
            forall|k: int|
                base.len() <= k < r@.len() ==> exists|o: int|
                    0 <= o < j && same_entry(#[trigger] overrides@[o], #[trigger] r@[k]),
            forall|o: int| 0 <= o < j ==> header_in(r@, #[trigger] overrides@[o]),
        decreases overrides@.len() - j,
    {
        let ghost r0 = r@;
        let h = Header {
            name: overrides[j].name.clone(),
            value: overrides[j].value.clone(),
        };
        proof {
            assert(same_entry(h, overrides@[j as int]));
            assert forall|k: int| 0 <= k < r0.len() implies (#[trigger] r0[k]).name@
                != h.name@ by {
                if k < base.len() {
                    assert(r0[k] == base[k]);
                    assert(!contains_name(overrides@, base[k].name@));
                    assert(overrides@[j as int].name@ == overrides@[j as int].name@);
                } else {
                    let o = choose|o: int|
                        0 <= o < j && same_entry(#[trigger] overrides@[o], r0[k]);
                    assert(overrides@[o].name@ != overrides@[j as int].name@);
                }
            }
        }
        r.push(h);
        proof {
            lemma_unique_names_push(r0, h);
            assert forall|k: int|
                base.len() <= k < r@.len() implies exists|o: int|
                    0 <= o < j + 1 && same_entry(#[trigger] overrides@[o], #[trigger] r@[k]) by {
                if k < r0.len() {
                    let o = choose|o: int|
                        0 <= o < j && same_entry(#[trigger] overrides@[o], r0[k]);
                    assert(same_entry(overrides@[o], r@[k]));
                } else {
                    assert(same_entry(overrides@[j as int], r@[k]));
                }
            }
            assert forall|o: int| 0 <= o < j + 1 implies header_in(r@, #[trigger] overrides@[o]) by {
                if o < j {
                    lemma_header_in_push(r0, h, overrides@[o]);
                } else {
                    lemma_header_in_push(r0, h, overrides@[o]);
                }
            }
        }
        j = j + 1;
    }
    proof {
        assert forall|d: int|
            0 <= d < defaults@.len() && !contains_name(
                overrides@,
                (#[trigger] defaults@[d]).name@,
            ) implies header_in(r@, defaults@[d]) by {
            let k = choose|k: int| 0 <= k < base.len() && same_entry(#[trigger] base[k], defaults@[d]);
            assert(same_entry(r@[k], defaults@[d]));
        }
        assert forall|k: int|
            0 <= k < r@.len() implies (if contains_name(overrides@, (#[trigger] r@[k]).name@) {
            header_in(overrides@, r@[k])
        } else {
            header_in(defaults@, r@[k])
        }) by {
            if k < base.len() {
                assert(r@[k] == base[k]);
                let d = choose|d: int|
                    0 <= d < defaults@.len() && same_entry(#[trigger] defaults@[d], base[k]);
                assert(same_entry(defaults@[d], r@[k]));
                assert(!contains_name(overrides@, r@[k].name@));
            } else {
                let o = choose|o: int|
                    0 <= o < overrides@.len() && same_entry(#[trigger] overrides@[o], r@[k]);
                assert(same_entry(overrides@[o], r@[k]));
                assert(overrides@[o].name@ == r@[k].name@);
            }
        }
        assert forall|o: int, k: int|
            0 <= o < overrides@.len() && 0 <= k < r@.len() && (#[trigger] r@[k]).name@ == (
            #[trigger] overrides@[o]).name@ implies r@[k].value@ == overrides@[o].value@ by {
            assert(contains_name(overrides@, r@[k].name@));
            assert(header_in(overrides@, r@[k]));
            let o2 = choose|o2: int|
                0 <= o2 < overrides@.len() && same_entry(#[trigger] overrides@[o2], r@[k]);
            if o2 != o {
                assert(overrides@[o2].name@ != overrides@[o].name@);
            }
        }
    }
    r
}

/// Whether an HTTP status code counts as success (the 2xx range).
pub fn is_success_status(status: u16) -> (b: bool)
    ensures
        b == (200 <= status < 300),
{
    200 <= status && status < 300
}

/// The structured error for a non-success response: the status code together
/// with the raw body text, or a fixed placeholder when reading the body
/// failed. The body is never reinterpreted as JSON.
pub fn api_error(status: u16, body: Option<String>) -> (e: ClobError)
    ensures
        (e matches ClobError::Api { status: st, message: m } && st == status && m@ == (match body {
            Some(b) => b@,
            None => "Unknown error"@,
        })),
{
    match body {
        Some(b) => ClobError::Api { status, message: b },
        None => ClobError::Api { status, message: String::from_str("Unknown error") },
    }
}

/// The request URL: the path appended verbatim to the base URL.
pub fn build_url(base_url: &str, path: &str) -> (r: String)
    ensures
        r@ == base_url@ + path@,
{
    let mut r = base_url.to_owned();
    r.append(path);
    r
}

} // verus!
