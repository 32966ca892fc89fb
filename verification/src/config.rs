//! Configuration for the servers and the load client.
//!
//! Both sides are configured once at startup and the configuration is
//! immutable thereafter. Worker/thread counts and request counts are
//! positive: a configured value below one is clamped to one.

use vstd::prelude::*;
use vstd::slice::slice_subrange;
use crate::codec::{
    dec_digits, dec_value, is_canonical_dec, is_dec_digit, lemma_dec_digits_wf,
    lemma_dec_value_of_digits, lemma_digits_of_value, parse_u64,
};

verus! {

/// A configured worker, thread or request count, clamped to at least one.
pub open spec fn clamped(n: u32) -> u32 {
    if n == 0 {
        1u32
    } else {
        n
    }
}

/// Clamp a configured count to the minimum of one.
pub fn clamp_to_positive(n: u32) -> (r: u32)
    ensures
        r == clamped(n),
        r >= 1,
{
    if n == 0 {
        1
    } else {
        n
    }
}

/// An IPv4 socket address, held as plain values: four octets and a port.
#[derive(Clone, Copy, Debug, PartialEq, Eq, Structural)]
pub struct Endpoint {
    pub a: u8,
    pub b: u8,
    pub c: u8,
    pub d: u8,
    pub port: u16,
}

/// The default address the service binds to and the client targets:
/// 127.0.0.1:37000.
pub fn default_endpoint() -> (r: Endpoint)
    ensures
        r == (Endpoint { a: 127u8, b: 0u8, c: 0u8, d: 1u8, port: 37000u16 }),
{
    Endpoint { a: 127, b: 0, c: 0, d: 1, port: 37000 }
}

/// What a server configuration holds for a requested worker count.
pub open spec fn server_config_spec(bind: Endpoint, workers: u32) -> ServerConfig {
    ServerConfig { bind, workers: clamped(workers) }
}

/// A server's resolved configuration: bind address and worker count.
#[derive(Clone, Copy, Debug, PartialEq, Eq, Structural)]
pub struct ServerConfig {
    pub bind: Endpoint,
    pub workers: u32,
}

impl ServerConfig {
    /// Build a server configuration; a requested worker count below one is
    /// clamped to one.
    pub fn new(bind: Endpoint, workers: u32) -> (r: Self)
        ensures
            r == server_config_spec(bind, workers),
            r.workers >= 1,
    {
        ServerConfig { bind, workers: clamp_to_positive(workers) }
    }
}

/// What a client configuration holds for requested worker and request counts.
pub open spec fn client_config_spec(target: Endpoint, workers: u32, requests: u32) -> ClientConfig {
    ClientConfig { target, workers: clamped(workers), requests: clamped(requests) }
}

/// The load client's resolved configuration: target address, number of
/// concurrent workers, and number of requests each worker makes.
#[derive(Clone, Copy, Debug, PartialEq, Eq, Structural)]
pub struct ClientConfig {
    pub target: Endpoint,
    pub workers: u32,
    pub requests: u32,
}

impl ClientConfig {
    /// Build a client configuration; requested counts below one are clamped
    /// to one.
    pub fn new(target: Endpoint, workers: u32, requests: u32) -> (r: Self)
        ensures
            r == client_config_spec(target, workers, requests),
            r.workers >= 1,
            r.requests >= 1,
    {
        ClientConfig {
            target,
            workers: clamp_to_positive(workers),
            requests: clamp_to_positive(requests),
        }
    }
}

/// The canonical text of an endpoint: the four octets and the port in
/// base-10 with no leading zeros, the octets separated by dots, the port set
/// off by a colon — as in `127.0.0.1:37000`.
pub open spec fn endpoint_text(e: Endpoint) -> Seq<u8> {
    dec_digits(e.a as nat) + seq![46u8] + dec_digits(e.b as nat) + seq![46u8] + dec_digits(
        e.c as nat,
    ) + seq![46u8] + dec_digits(e.d as nat) + seq![58u8] + dec_digits(e.port as nat)
}

/// Where the first dot stands in an endpoint's text.
pub open spec fn dot1_pos(e: Endpoint) -> int {
    dec_digits(e.a as nat).len() as int
}

/// Where the second dot stands in an endpoint's text.
pub open spec fn dot2_pos(e: Endpoint) -> int {
    dot1_pos(e) + 1 + dec_digits(e.b as nat).len()
}

/// Where the third dot stands in an endpoint's text.
pub open spec fn dot3_pos(e: Endpoint) -> int {
    dot2_pos(e) + 1 + dec_digits(e.c as nat).len()
}

/// Where the colon stands in an endpoint's text.
pub open spec fn colon_pos(e: Endpoint) -> int {
    dot3_pos(e) + 1 + dec_digits(e.d as nat).len()
}

/// The shape of an endpoint's text: a separator at each of the four fixed
/// positions, each field the canonical digits of its value, and nothing but
/// digits inside the fields.
proof fn lemma_endpoint_text_structure(e: Endpoint)
    ensures
        endpoint_text(e).len() == colon_pos(e) + 1 + dec_digits(e.port as nat).len(),
        0 < dot1_pos(e) < dot2_pos(e) < dot3_pos(e) < colon_pos(e) < endpoint_text(e).len() - 1,
        endpoint_text(e)[dot1_pos(e)] == 46,
        endpoint_text(e)[dot2_pos(e)] == 46,
        endpoint_text(e)[dot3_pos(e)] == 46,
        endpoint_text(e)[colon_pos(e)] == 58,
        endpoint_text(e).subrange(0, dot1_pos(e)) == dec_digits(e.a as nat),
        endpoint_text(e).subrange(dot1_pos(e) + 1, dot2_pos(e)) == dec_digits(e.b as nat),
        endpoint_text(e).subrange(dot2_pos(e) + 1, dot3_pos(e)) == dec_digits(e.c as nat),
        endpoint_text(e).subrange(dot3_pos(e) + 1, colon_pos(e)) == dec_digits(e.d as nat),
        endpoint_text(e).subrange(colon_pos(e) + 1, endpoint_text(e).len() as int) == dec_digits(
            e.port as nat,
        ),
        forall|k: int| 0 <= k < dot1_pos(e) ==> is_dec_digit(#[trigger] endpoint_text(e)[k]),
        forall|k: int|
            dot1_pos(e) < k < dot2_pos(e) ==> is_dec_digit(#[trigger] endpoint_text(e)[k]),
        forall|k: int|
            dot2_pos(e) < k < dot3_pos(e) ==> is_dec_digit(#[trigger] endpoint_text(e)[k]),
        forall|k: int|
            dot3_pos(e) < k < colon_pos(e) ==> is_dec_digit(#[trigger] endpoint_text(e)[k]),
        forall|k: int|
            colon_pos(e) < k < endpoint_text(e).len() ==> is_dec_digit(
                #[trigger] endpoint_text(e)[k],
            ),
{
    lemma_dec_digits_wf(e.a as nat);
    lemma_dec_digits_wf(e.b as nat);
    lemma_dec_digits_wf(e.c as nat);
    lemma_dec_digits_wf(e.d as nat);
    lemma_dec_digits_wf(e.port as nat);
    let t = endpoint_text(e);
    assert(t.subrange(0, dot1_pos(e)) =~= dec_digits(e.a as nat));
    assert(t.subrange(dot1_pos(e) + 1, dot2_pos(e)) =~= dec_digits(e.b as nat));
    assert(t.subrange(dot2_pos(e) + 1, dot3_pos(e)) =~= dec_digits(e.c as nat));
    assert(t.subrange(dot3_pos(e) + 1, colon_pos(e)) =~= dec_digits(e.d as nat));
    assert(t.subrange(colon_pos(e) + 1, t.len() as int) =~= dec_digits(e.port as nat));
    assert forall|k: int| 0 <= k < dot1_pos(e) implies is_dec_digit(#[trigger] t[k]) by {
        assert(t[k] == t.subrange(0, dot1_pos(e))[k]);
    }
    assert forall|k: int| dot1_pos(e) < k < dot2_pos(e) implies is_dec_digit(#[trigger] t[k]) by {
        assert(t[k] == t.subrange(dot1_pos(e) + 1, dot2_pos(e))[k - dot1_pos(e) - 1]);
    }
    assert forall|k: int| dot2_pos(e) < k < dot3_pos(e) implies is_dec_digit(#[trigger] t[k]) by {
        assert(t[k] == t.subrange(dot2_pos(e) + 1, dot3_pos(e))[k - dot2_pos(e) - 1]);
    }
    assert forall|k: int| dot3_pos(e) < k < colon_pos(e) implies is_dec_digit(#[trigger] t[k]) by {
        assert(t[k] == t.subrange(dot3_pos(e) + 1, colon_pos(e))[k - dot3_pos(e) - 1]);
    }
    assert forall|k: int| colon_pos(e) < k < t.len() implies is_dec_digit(#[trigger] t[k]) by {
        assert(t[k] == t.subrange(colon_pos(e) + 1, t.len() as int)[k - colon_pos(e) - 1]);
    }
}

/// Find the first occurrence of a byte at or after `from`.
fn find_byte(bytes: &[u8], from: usize, target: u8) -> (r: Option<usize>)
    requires
        from <= bytes@.len(),
    ensures
        match r {
            Some(i) => from <= i < bytes@.len() && bytes@[i as int] == target && forall|k: int|
                from <= k < i ==> bytes@[k] != target,
            None => forall|k: int| from <= k < bytes@.len() ==> bytes@[k] != target,
        },
{
    let mut i: usize = from;
    while i < bytes.len()
        invariant
            from <= i <= bytes@.len(),
            forall|k: int| from <= k < i ==> bytes@[k] != target,
        decreases bytes@.len() - i,
    {
        if bytes[i] == target {
            return Some(i);
        }
        i = i + 1;
    }
    None
}

/// Parse one field of an endpoint's text: the canonical digits of a value
/// of at most `max`.
fn parse_bounded_field(bytes: &[u8], max: u64) -> (r: Option<u64>)
    ensures
        match r {
            Some(v) => is_canonical_dec(bytes@) && dec_value(bytes@) == v && v <= max,
            None => !(is_canonical_dec(bytes@) && dec_value(bytes@) <= max),
        },
{
    if bytes.len() > 1 && bytes[0] == 48 {
        return None;
    }
    match parse_u64(bytes) {
        Some(v) => if v <= max {
            Some(v)
        } else {
            None
        },
        None => None,
    }
}

/// Two first occurrences over the same range are the same position.
proof fn lemma_first_occurrence_unique(s: Seq<u8>, target: u8, from: int, i: int, j: int)
    requires
        from <= i < s.len(),
        from <= j < s.len(),
        s[i] == target,
        s[j] == target,
        forall|k: int| from <= k < i ==> s[k] != target,
        forall|k: int| from <= k < j ==> s[k] != target,
    ensures
        i == j,
{
}

/// Parse the text of an endpoint, as `127.0.0.1:37000` is given on a
/// command line. The result is exactly the endpoint whose canonical text
/// the input is; any other input — a missing or misplaced separator, an
/// empty field, a leading zero, an octet over 255 or a port over 65535 — is
/// rejected.
#[verifier::rlimit(100)]
pub fn parse_endpoint(bytes: &[u8]) -> (r: Option<Endpoint>)
    ensures
        match r {
            Some(e) => bytes@ == endpoint_text(e),
            None => forall|e: Endpoint| bytes@ != endpoint_text(e),
        },
{
    let n = bytes.len();
    let p1 = match find_byte(bytes, 0, 46) {
        Some(i) => i,
        None => {
            proof {
                assert forall|e: Endpoint| bytes@ != endpoint_text(e) by {
                    if bytes@ == endpoint_text(e) {
                        lemma_endpoint_text_structure(e);
                    }
                }
            }
            return None;
        },
    };
    let p2 = match find_byte(bytes, p1 + 1, 46) {
        Some(i) => i,
        None => {
            proof {
                assert forall|e: Endpoint| bytes@ != endpoint_text(e) by {
                    if bytes@ == endpoint_text(e) {
                        lemma_endpoint_text_structure(e);
                        lemma_first_occurrence_unique(bytes@, 46, 0, p1 as int, dot1_pos(e));
                    }
                }
            }
            return None;
        },
    };
    let p3 = match find_byte(bytes, p2 + 1, 46) {
        Some(i) => i,
        None => {
            proof {
                assert forall|e: Endpoint| bytes@ != endpoint_text(e) by {
                    if bytes@ == endpoint_text(e) {
                        lemma_endpoint_text_structure(e);
                        lemma_first_occurrence_unique(bytes@, 46, 0, p1 as int, dot1_pos(e));
                        lemma_first_occurrence_unique(
                            bytes@,
                            46,
                            p1 + 1,
                            p2 as int,
                            dot2_pos(e),
                        );
                    }
                }
            }
            return None;
        },
    };
    let pc = match find_byte(bytes, p3 + 1, 58) {
        Some(i) => i,
        None => {
            proof {
                assert forall|e: Endpoint| bytes@ != endpoint_text(e) by {
                    if bytes@ == endpoint_text(e) {
                        lemma_endpoint_text_structure(e);
                        lemma_first_occurrence_unique(bytes@, 46, 0, p1 as int, dot1_pos(e));
                        lemma_first_occurrence_unique(
                            bytes@,
                            46,
                            p1 + 1,
                            p2 as int,
                            dot2_pos(e),
                        );
                        lemma_first_occurrence_unique(
                            bytes@,
                            46,
                            p2 + 1,
                            p3 as int,
                            dot3_pos(e),
                        );
                    }
                }
            }
            return None;
        },
    };
    proof {
        assert forall|e: Endpoint|
            bytes@ == endpoint_text(e) implies p1 == dot1_pos(e) && p2 == dot2_pos(e) && p3
            == dot3_pos(e) && pc == colon_pos(e) by {
            lemma_endpoint_text_structure(e);
            lemma_first_occurrence_unique(bytes@, 46, 0, p1 as int, dot1_pos(e));
            lemma_first_occurrence_unique(bytes@, 46, p1 + 1, p2 as int, dot2_pos(e));
            lemma_first_occurrence_unique(bytes@, 46, p2 + 1, p3 as int, dot3_pos(e));
            lemma_first_occurrence_unique(bytes@, 58, p3 + 1, pc as int, colon_pos(e));
        }
    }
    let f1 = slice_subrange(bytes, 0, p1);
    let a = match parse_bounded_field(f1, 255) {
        Some(v) => v,
        None => {
            proof {
                assert forall|e: Endpoint| bytes@ != endpoint_text(e) by {
                    if bytes@ == endpoint_text(e) {
                        lemma_endpoint_text_structure(e);
                        lemma_dec_digits_wf(e.a as nat);
                        lemma_dec_value_of_digits(e.a as nat);
                    }
                }
            }
            return None;
        },
    };
    let f2 = slice_subrange(bytes, p1 + 1, p2);
    let b = match parse_bounded_field(f2, 255) {
        Some(v) => v,
        None => {
            proof {
                assert forall|e: Endpoint| bytes@ != endpoint_text(e) by {
                    if bytes@ == endpoint_text(e) {
                        lemma_endpoint_text_structure(e);
                        lemma_dec_digits_wf(e.b as nat);
                        lemma_dec_value_of_digits(e.b as nat);
                    }
                }
            }
            return None;
        },
    };
    let f3 = slice_subrange(bytes, p2 + 1, p3);
    let c = match parse_bounded_field(f3, 255) {
        Some(v) => v,
        None => {
            proof {
                assert forall|e: Endpoint| bytes@ != endpoint_text(e) by {
                    if bytes@ == endpoint_text(e) {
                        lemma_endpoint_text_structure(e);
                        lemma_dec_digits_wf(e.c as nat);
                        lemma_dec_value_of_digits(e.c as nat);
                    }
                }
            }
            return None;
        },
    };
    let f4 = slice_subrange(bytes, p3 + 1, pc);
    let d = match parse_bounded_field(f4, 255) {
        Some(v) => v,
        None => {
            proof {
                assert forall|e: Endpoint| bytes@ != endpoint_text(e) by {
                    if bytes@ == endpoint_text(e) {
                        lemma_endpoint_text_structure(e);
                        lemma_dec_digits_wf(e.d as nat);
                        lemma_dec_value_of_digits(e.d as nat);
                    }
                }
            }
            return None;
        },
    };
    let f5 = slice_subrange(bytes, pc + 1, n);
    let port = match parse_bounded_field(f5, 65535) {
        Some(v) => v,
        None => {
            proof {
                assert forall|e: Endpoint| bytes@ != endpoint_text(e) by {
                    if bytes@ == endpoint_text(e) {
                        lemma_endpoint_text_structure(e);
                        lemma_dec_digits_wf(e.port as nat);
                        lemma_dec_value_of_digits(e.port as nat);
                    }
                }
            }
            return None;
        },
    };
    let found = Endpoint {
        a: a as u8,
        b: b as u8,
        c: c as u8,
        d: d as u8,
        port: port as u16,
    };
    proof {
        lemma_digits_of_value(f1@);
        lemma_digits_of_value(f2@);
        lemma_digits_of_value(f3@);
        lemma_digits_of_value(f4@);
        lemma_digits_of_value(f5@);
        assert(bytes@ =~= f1@ + seq![46u8] + f2@ + seq![46u8] + f3@ + seq![46u8] + f4@
            + seq![58u8] + f5@);
        assert(endpoint_text(found) == bytes@);
    }
    Some(found)
}

/// A count configured as zero behaves exactly as a count configured as one:
/// the two requests resolve to the same configuration.
pub proof fn lemma_zero_count_as_one(bind: Endpoint, target: Endpoint)
    ensures
        server_config_spec(bind, 0) == server_config_spec(bind, 1),
        forall|r: u32|
            client_config_spec(target, 0, r) == client_config_spec(target, 1, r),
        forall|w: u32|
            client_config_spec(target, w, 0) == client_config_spec(target, w, 1),
{
}

} // verus!
