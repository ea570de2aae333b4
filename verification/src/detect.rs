//! Card-surface / A2A-variant classification of a request.
use vstd::prelude::*;
use vstd::string::*;
use vstd::utf8::*;

use crate::a2a::{EXT_CARD_HTTPJSON_PATH, EXT_CARD_LEGACY, EXT_CARD_V1, WELL_KNOWN_PATH};
use crate::governor::Surface;
use crate::text::{ends_with_bytes, ends_with_in, find_byte, find_byte_in, str_equals};

verus! {

broadcast use vstd::utf8::group_utf8_lib;

/// HTTP method of a card fetch over the well-known and HTTP+JSON bindings.
pub const GET_METHOD: &'static str = "GET";

/// The byte `?` that starts a query string.
pub const QUERY_MARK: u8 = 0x3Fu8;

/// Which wire binding produced the card-fetch request; it decides where the
/// card sits in the response.
#[derive(Clone, Copy, Debug, PartialEq, Eq, Structural)]
pub enum Variant {
    /// Legacy JSON-RPC `agent/getAuthenticatedExtendedCard` (also the fallback
    /// when the V1 method name is seen without an `A2A-Version: 1.0` signal).
    Legacy,
    /// V1 JSON-RPC `GetExtendedAgentCard`.
    V1JsonRpc,
    /// V1 HTTP+JSON binding: `GET /extendedAgentCard`.
    V1HttpJson,
    /// Unauthenticated public well-known card: `GET /.well-known/agent-card.json`.
    PublicGet,
}

/// The bytes of a request path before its query string: everything before
/// the first `?`, or the whole path when there is none.
pub open spec fn path_without_query(path: Seq<u8>) -> Seq<u8> {
    match find_byte(path, QUERY_MARK) {
        Some(k) => path.subrange(0, k),
        None => path,
    }
}

/// Strip a query string, returning just the path portion.
pub fn path_no_query(path: &str) -> (r: &str)
    ensures
        r.spec_bytes() == path_without_query(path.spec_bytes()),
{
    let bytes = path.as_bytes();
    assert(bytes@.subrange(0, bytes@.len() as int) =~= bytes@);
    match find_byte_in(bytes, 0, bytes.len(), QUERY_MARK) {
        Some(k) => {
            proof {
                crate::text::lemma_find_byte(bytes@, QUERY_MARK);
                is_char_boundary_iff_not_is_continuation_byte(bytes@, k as int);
            }
            let (head, _tail) = path.split_at(k);
            head
        },
        None => path,
    }
}

/// The classification of a request: `None` when it is not an Agent Card
/// fetch, otherwise the card surface and the binding that carries the card.
/// Paths are compared on their UTF-8 bytes, as `str::ends_with` does.
pub open spec fn surface_of_request(
    method: Seq<char>,
    path: Seq<u8>,
    is_v1: bool,
    jsonrpc_method: Option<Seq<char>>,
) -> Option<(Surface, Variant)> {
    let p = path_without_query(path);
    if method == GET_METHOD@ && ends_with_bytes(p, WELL_KNOWN_PATH.spec_bytes()) {
        Some((Surface::Public, Variant::PublicGet))
    } else if method == GET_METHOD@ && is_v1 && ends_with_bytes(
        p,
        EXT_CARD_HTTPJSON_PATH.spec_bytes(),
    ) {
        Some((Surface::Extended, Variant::V1HttpJson))
    } else {
        match jsonrpc_method {
            Some(m) => if m == EXT_CARD_LEGACY@ {
                Some((Surface::Extended, Variant::Legacy))
            } else if m == EXT_CARD_V1@ {
                Some(
                    (
                        Surface::Extended,
                        if is_v1 {
                            Variant::V1JsonRpc
                        } else {
                            Variant::Legacy
                        },
                    ),
                )
            } else {
                None
            },
            None => None,
        }
    }
}

/// The view of an optional string slice.
pub open spec fn opt_str_view(s: Option<&str>) -> Option<Seq<char>> {
    match s {
        Some(v) => Some(v@),
        None => None,
    }
}

/// Returns `(surface, variant)` for a card-fetch request, or `None` if the
/// request is not an Agent Card fetch (the response then passes through).
/// - `method`: HTTP method (`"GET"`, `"POST"`, ...).
/// - `path`: request path (a query string is tolerated and ignored).
/// - `is_v1`: whether `A2A-Version: 1.0` was signalled (header or query).
/// - `jsonrpc_method`: the JSON-RPC `method` when the body is a JSON-RPC
///   envelope, else `None`.
pub fn classify_surface(method: &str, path: &str, is_v1: bool, jsonrpc_method: Option<&str>) -> (r:
    Option<(Surface, Variant)>)
    ensures
        r == surface_of_request(method@, path.spec_bytes(), is_v1, opt_str_view(jsonrpc_method)),
{
    let p = path_no_query(path);
    let pb = p.as_bytes();
    let is_get = str_equals(method, GET_METHOD);
    assert(pb@.subrange(0, pb@.len() as int) =~= pb@);
    if is_get && ends_with_in(pb, pb.len(), WELL_KNOWN_PATH.as_bytes()) {
        return Some((Surface::Public, Variant::PublicGet));
    }
    if is_get && is_v1 && ends_with_in(pb, pb.len(), EXT_CARD_HTTPJSON_PATH.as_bytes()) {
        return Some((Surface::Extended, Variant::V1HttpJson));
    }
    match jsonrpc_method {
        Some(m) => {
            if str_equals(m, EXT_CARD_LEGACY) {
                Some((Surface::Extended, Variant::Legacy))
            } else if str_equals(m, EXT_CARD_V1) {
                Some(
                    (
                        Surface::Extended,
                        if is_v1 {
                            Variant::V1JsonRpc
                        } else {
                            Variant::Legacy
                        },
                    ),
                )
            } else {
                None
            }
        },
        None => None,
    }
}

/// Classification laws: the public surface is exactly the well-known binding;
/// a V1 binding is reported only when the V1 signal was present; a request
/// that names no JSON-RPC method and is not a `GET` is never a card fetch.
pub proof fn lemma_classification_laws(
    method: Seq<char>,
    path: Seq<u8>,
    is_v1: bool,
    jsonrpc_method: Option<Seq<char>>,
)
    ensures
        ({
            let r = surface_of_request(method, path, is_v1, jsonrpc_method);
            &&& (r matches Some((s, v)) ==> (s == Surface::Public <==> v == Variant::PublicGet))
            &&& (r matches Some((_, v)) && (v == Variant::V1JsonRpc || v == Variant::V1HttpJson)
                ==> is_v1)
            &&& (r matches Some((_, v)) && (v == Variant::PublicGet || v == Variant::V1HttpJson)
                ==> method == GET_METHOD@)
            &&& (jsonrpc_method is None && method != GET_METHOD@ ==> r is None)
        }),
{
}

} // verus!
