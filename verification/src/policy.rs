//! The request-side decisions of the policy: the A2A version signal, the
//! caller identity, and the card context that the response side reshapes by.
use vstd::prelude::*;
use vstd::string::*;

use crate::a2a::{items_view, json_member, lemma_json_view_children, JsonValue, JsonView};
use crate::detect::{classify_surface, opt_str_view, surface_of_request, Variant, QUERY_MARK};
use crate::generated::config::Config;
use crate::governor::{anonymous, Identity, IdentityView, Surface};
use crate::text::{
    bytes_eq_range, contains_bytes, contains_in, eq_ignore_ascii_case,
    eq_ignore_ascii_case_range, find_byte, find_byte_in, push_char, str_equals, trim_str,
    trim_white_space,
};

verus! {

/// HTTP method of a JSON-RPC card fetch.
pub const POST_METHOD: &'static str = "POST";

/// Text that marks a JSON content type.
pub const JSON_CONTENT_MARK: &'static str = "json";

/// Value of the `A2A-Version` header or query parameter that signals V1.
pub const A2A_VERSION_V1: &'static str = "1.0";

/// Query parameter that signals the A2A version (matched ignoring ASCII case).
pub const A2A_VERSION_QUERY_KEY: &'static str = "a2a-version";

/// Authentication property read when the configuration names none.
pub const DEFAULT_SCOPE_CLAIM_KEY: &'static str = "scope";

/// Authentication properties that may carry the SLA tier, in the order tried:
/// the two the SLA-tier policy propagates, then the older spellings.
pub const SLA_TIER_NAME_KEY: &'static str = "sla-tier-name";

pub const SLA_TIER_ID_KEY: &'static str = "sla-tier-id";

pub const TIER_KEY: &'static str = "tier";

pub const SLA_TIER_KEY: &'static str = "sla_tier";

pub const SLA_TIER_CAMEL_KEY: &'static str = "slaTier";

/// The byte `&` that separates query parameters.
pub const QUERY_PAIR_SEPARATOR: u8 = 0x26u8;

/// The byte `=` that separates a query key from its value.
pub const QUERY_KEY_VALUE_SEPARATOR: u8 = 0x3Du8;

/// Everything the response side needs to reshape the card: the surface, the
/// wire binding, and (on the extended surface) the caller.
#[derive(Clone, Debug)]
pub struct CardContext {
    pub surface: Surface,
    pub variant: Variant,
    pub identity: Identity,
}

/// Authentication data that an upstream authentication policy set: the
/// client and the custom properties.
#[derive(Debug)]
pub struct AuthData {
    pub client_id: Option<String>,
    pub client_name: Option<String>,
    pub properties: JsonValue,
}

/// The mathematical model of [`AuthData`].
pub struct AuthDataView {
    pub client_id: Option<Seq<char>>,
    pub client_name: Option<Seq<char>>,
    pub properties: JsonView,
}

impl View for AuthData {
    type V = AuthDataView;

    open spec fn view(&self) -> AuthDataView {
        AuthDataView {
            client_id: self.client_id.deep_view(),
            client_name: self.client_name.deep_view(),
            properties: self.properties@,
        }
    }
}

// ---------------------------------------------------------------------------
// A2A version signal
// ---------------------------------------------------------------------------

/// Whether one `key=value` query pair is `a2a-version=1.0` (key ignoring
/// ASCII case); a pair without `=` has an empty value.
pub open spec fn pair_signals_v1(kv: Seq<u8>) -> bool {
    let (k, v) = match find_byte(kv, QUERY_KEY_VALUE_SEPARATOR) {
        Some(e) => (kv.subrange(0, e), kv.subrange(e + 1, kv.len() as int)),
        None => (kv, Seq::<u8>::empty()),
    };
    eq_ignore_ascii_case(k, A2A_VERSION_QUERY_KEY.spec_bytes()) && v == A2A_VERSION_V1.spec_bytes()
}

/// Whether some `&`-separated pair of query string `q` signals V1.
pub open spec fn query_signals_v1(q: Seq<u8>) -> bool
    decreases q.len(),
{
    match find_byte(q, QUERY_PAIR_SEPARATOR) {
        Some(k) => if 0 <= k < q.len() {
            pair_signals_v1(q.subrange(0, k)) || query_signals_v1(q.subrange(k + 1, q.len() as int))
        } else {
            false
        },
        None => pair_signals_v1(q),
    }
}

/// Whether a request signals A2A protocol V1: its `A2A-Version` header value,
/// trimmed of white space, is `1.0`, or a query parameter of its path is.
pub open spec fn version_signalled(header: Option<Seq<char>>, path: Seq<u8>) -> bool {
    (match header {
        Some(h) => trim_white_space(h) == A2A_VERSION_V1@,
        None => false,
    }) || match find_byte(path, QUERY_MARK) {
        Some(q) => query_signals_v1(path.subrange(q + 1, path.len() as int)),
        None => false,
    }
}

fn pair_is_v1(b: &[u8], from: usize, to: usize) -> (r: bool)
    requires
        from <= to <= b@.len(),
    ensures
        r == pair_signals_v1(b@.subrange(from as int, to as int)),
{
    let ghost kv = b@.subrange(from as int, to as int);
    match find_byte_in(b, from, to, QUERY_KEY_VALUE_SEPARATOR) {
        Some(e) => {
            assert(kv.subrange(0, e - from) =~= b@.subrange(from as int, e as int));
            assert(kv.subrange(e - from + 1, kv.len() as int) =~= b@.subrange(e + 1, to as int));
            eq_ignore_ascii_case_range(b, from, e, A2A_VERSION_QUERY_KEY.as_bytes()) && bytes_eq_range(
                b,
                e + 1,
                to,
                A2A_VERSION_V1.as_bytes(),
            )
        },
        None => {
            assert(b@.subrange(to as int, to as int) =~= Seq::<u8>::empty());
            eq_ignore_ascii_case_range(b, from, to, A2A_VERSION_QUERY_KEY.as_bytes()) && bytes_eq_range(
                b,
                to,
                to,
                A2A_VERSION_V1.as_bytes(),
            )
        },
    }
}

fn query_is_v1(b: &[u8], from: usize) -> (r: bool)
    requires
        from <= b@.len(),
    ensures
        r == query_signals_v1(b@.subrange(from as int, b@.len() as int)),
{
    let end = b.len();
    let mut start = from;
    loop
        invariant
            from <= start <= end == b@.len(),
            query_signals_v1(b@.subrange(from as int, end as int)) == query_signals_v1(
                b@.subrange(start as int, end as int),
            ),
        decreases end - start,
    {
        let ghost q = b@.subrange(start as int, end as int);
        match find_byte_in(b, start, end, QUERY_PAIR_SEPARATOR) {
            Some(k) => {
                assert(q.subrange(0, k - start) =~= b@.subrange(start as int, k as int));
                assert(q.subrange(k - start + 1, q.len() as int) =~= b@.subrange(
                    k + 1,
                    end as int,
                ));
                if pair_is_v1(b, start, k) {
                    return true;
                }
                start = k + 1;
            },
            None => {
                return pair_is_v1(b, start, end);
            },
        }
    }
}

/// True when the request signals A2A protocol v1.0 via the `A2A-Version: 1.0`
/// header (`header` is its value, trimmed here) or the `?A2A-Version=1.0`
/// query parameter of `path` (key matched ignoring ASCII case).
pub fn a2a_version_is_v1(header: Option<&str>, path: &str) -> (r: bool)
    ensures
        r == version_signalled(opt_str_view(header), path.spec_bytes()),
{
    let header_v1 = match header {
        Some(h) => str_equals(trim_str(h), A2A_VERSION_V1),
        None => false,
    };
    if header_v1 {
        return true;
    }
    let b = path.as_bytes();
    assert(b@.subrange(0, b@.len() as int) =~= b@);
    match find_byte_in(b, 0, b.len(), QUERY_MARK) {
        Some(q) => query_is_v1(b, q + 1),
        None => false,
    }
}

// ---------------------------------------------------------------------------
// Scopes and identity
// ---------------------------------------------------------------------------

/// Characters that separate scopes in a scope claim.
pub open spec fn is_scope_separator(c: char) -> bool {
    c == ' ' || c == '\t' || c == '\n' || c == '\r' || c == ','
}

/// The scopes of `s` when the scope being read so far is `cur`: the maximal
/// non-empty runs of characters that are not separators, in order.
pub open spec fn scope_tokens(s: Seq<char>, cur: Seq<char>) -> Seq<Seq<char>>
    decreases s.len(),
{
    if s.len() == 0 {
        if cur.len() > 0 {
            seq![cur]
        } else {
            Seq::empty()
        }
    } else if is_scope_separator(s[0]) {
        (if cur.len() > 0 {
            seq![cur]
        } else {
            Seq::empty()
        }) + scope_tokens(s.drop_first(), Seq::empty())
    } else {
        scope_tokens(s.drop_first(), cur.push(s[0]))
    }
}

/// The scopes of a scope claim.
pub open spec fn scopes_in(raw: Seq<char>) -> Seq<Seq<char>> {
    scope_tokens(raw, Seq::empty())
}

/// Split a scope string into individual scopes on whitespace and commas,
/// dropping empties (`"a b c"`, `"a,b,c"`, mixed).
pub fn split_scopes(raw: &str) -> (r: Vec<String>)
    ensures
        r.deep_view() == scopes_in(raw@),
{
    let mut out: Vec<String> = Vec::new();
    let mut cur = String::new();
    let ghost chars = raw@;
    assert(chars.skip(0) =~= chars);
    assert(out.deep_view() + scope_tokens(chars, cur@) =~= scopes_in(chars));
    for c in it: raw.chars()
        invariant
            chars == raw@,
            it.seq() == chars,
            out.deep_view() + scope_tokens(chars.skip(it.index() as int), cur@) == scopes_in(chars),
    {
        let ghost i = it.index() as int;
        let ghost rest = chars.skip(i);
        let ghost out0 = out.deep_view();
        assert(rest[0] == c);
        assert(rest.drop_first() =~= chars.skip(i + 1));
        if c == ' ' || c == '\t' || c == '\n' || c == '\r' || c == ',' {
            if !cur.as_str().is_empty() {
                let done = cur;
                let ghost dv = done@;
                out.push(done);
                assert(out.deep_view() =~= out0.push(dv));
                assert(out0 + (seq![dv] + scope_tokens(chars.skip(i + 1), Seq::empty())) =~= out0.push(
                    dv,
                ) + scope_tokens(chars.skip(i + 1), Seq::empty()));
                cur = String::new();
            } else {
                assert(Seq::<Seq<char>>::empty() + scope_tokens(chars.skip(i + 1), Seq::empty())
                    =~= scope_tokens(chars.skip(i + 1), Seq::empty()));
                cur = String::new();
            }
        } else {
            push_char(&mut cur, c);
        }
    }
    assert(chars.skip(chars.len() as int) =~= Seq::<char>::empty());
    let ghost out0 = out.deep_view();
    if !cur.as_str().is_empty() {
        let ghost dv = cur@;
        out.push(cur);
        assert(out.deep_view() =~= out0.push(dv));
    } else {
        assert(out0 + Seq::<Seq<char>>::empty() =~= out0);
    }
    out
}

/// The scopes of the strings among `items`, in order.
pub open spec fn array_scopes(items: Seq<JsonView>) -> Seq<Seq<char>>
    decreases items.len(),
{
    if items.len() == 0 {
        Seq::empty()
    } else {
        array_scopes(items.drop_last()) + match items.last() {
            JsonView::Str(s) => scopes_in(s),
            _ => Seq::empty(),
        }
    }
}

/// The scopes that a scope claim carries: a string is split, an array of
/// strings is split item by item, anything else carries none.
pub open spec fn claim_scopes(claim: Option<JsonView>) -> Seq<Seq<char>> {
    match claim {
        Some(JsonView::Str(s)) => scopes_in(s),
        Some(JsonView::Array(items)) => array_scopes(items),
        _ => Seq::empty(),
    }
}

/// The text of a property when it is a string.
pub open spec fn string_member(props: JsonView, key: Seq<char>) -> Option<Seq<char>> {
    match json_member(props, key) {
        Some(JsonView::Str(s)) => Some(s),
        _ => None,
    }
}

/// The text of a property when it is a non-empty string.
pub open spec fn nonempty_string_member(props: JsonView, key: Seq<char>) -> Option<Seq<char>> {
    match string_member(props, key) {
        Some(t) if t.len() > 0 => Some(t),
        _ => None,
    }
}

/// The first of `keys` whose property is a non-empty string, and its text.
pub open spec fn first_nonempty_member(props: JsonView, keys: Seq<Seq<char>>) -> Option<Seq<char>>
    decreases keys.len(),
{
    if keys.len() == 0 {
        None
    } else {
        match nonempty_string_member(props, keys[0]) {
            Some(t) => Some(t),
            None => first_nonempty_member(props, keys.drop_first()),
        }
    }
}

/// The properties that may carry the SLA tier, in the order tried.
pub open spec fn tier_keys() -> Seq<Seq<char>> {
    seq![SLA_TIER_NAME_KEY@, SLA_TIER_ID_KEY@, TIER_KEY@, SLA_TIER_KEY@, SLA_TIER_CAMEL_KEY@]
}

/// The SLA tier: the first non-empty string among `sla-tier-name`,
/// `sla-tier-id`, `tier`, `sla_tier` and `slaTier`.
pub open spec fn tier_of(props: JsonView) -> Option<Seq<char>> {
    first_nonempty_member(props, tier_keys())
}

/// The caller that authentication data describes; with no data, the
/// anonymous caller.
pub open spec fn identity_of(auth: Option<AuthDataView>, scope_claim_key: Seq<char>) -> IdentityView {
    match auth {
        None => anonymous(),
        Some(d) => IdentityView {
            client_id: d.client_id,
            client_name: d.client_name,
            tier: tier_of(d.properties),
            scopes: claim_scopes(json_member(d.properties, scope_claim_key)),
        },
    }
}

/// The view of optional authentication data.
pub open spec fn auth_opt_view(auth: Option<&AuthData>) -> Option<AuthDataView> {
    match auth {
        Some(a) => Some(a@),
        None => None,
    }
}

fn string_property(props: &JsonValue, key: &str) -> (r: Option<String>)
    ensures
        r.deep_view() == string_member(props@, key@),
{
    match props.get(key) {
        Some(v) => match v.as_str() {
            Some(s) => Some(s.to_owned()),
            None => None,
        },
        None => None,
    }
}

/// The text of a property when it is a non-empty string.
fn nonempty_string_property(props: &JsonValue, key: &str) -> (r: Option<String>)
    ensures
        r.deep_view() == nonempty_string_member(props@, key@),
{
    match string_property(props, key) {
        Some(t) => if t.as_str().is_empty() {
            None
        } else {
            Some(t)
        },
        None => None,
    }
}

/// The SLA tier among the properties.
fn read_tier(props: &JsonValue) -> (r: Option<String>)
    ensures
        r.deep_view() == tier_of(props@),
{
    let keys = [SLA_TIER_NAME_KEY, SLA_TIER_ID_KEY, TIER_KEY, SLA_TIER_KEY, SLA_TIER_CAMEL_KEY];
    let ghost kv = tier_keys();
    assert(forall|j: int| 0 <= j < 5 ==> #[trigger] keys@[j]@ == kv[j]);
    let mut i: usize = 0;
    assert(kv.skip(0) =~= kv);
    while i < 5
        invariant
            0 <= i <= 5,
            kv == tier_keys(),
            forall|j: int| 0 <= j < 5 ==> #[trigger] keys@[j]@ == kv[j],
            first_nonempty_member(props@, kv.skip(i as int)) == tier_of(props@),
        decreases 5 - i,
    {
        assert(kv.skip(i as int)[0] == kv[i as int]);
        assert(kv.skip(i as int).drop_first() =~= kv.skip(i + 1));
        match nonempty_string_property(props, keys[i]) {
            Some(t) => {
                return Some(t);
            },
            None => {},
        }
        i = i + 1;
    }
    assert(kv.skip(5) =~= Seq::<Seq<char>>::empty());
    None
}

fn scopes_of_claim(claim: Option<&JsonValue>) -> (r: Vec<String>)
    ensures
        r.deep_view() == claim_scopes(
            match claim {
                Some(v) => Some(v@),
                None => None,
            },
        ),
{
    proof {
        if let Some(v) = claim {
            lemma_json_view_children(*v);
        }
    }
    match claim {
        Some(JsonValue::Str(s)) => split_scopes(s.as_str()),
        Some(JsonValue::Array(items)) => {
            let mut out: Vec<String> = Vec::new();
            let mut i: usize = 0;
            let ghost iv = items_view(items@);
            assert(iv.take(0) =~= Seq::<JsonView>::empty());
            while i < items.len()
                invariant
                    0 <= i <= items@.len(),
                    iv == items_view(items@),
                    out.deep_view() == array_scopes(iv.take(i as int)),
                decreases items@.len() - i,
            {
                assert(iv.take(i + 1).drop_last() =~= iv.take(i as int));
                assert(iv.take(i + 1).last() == items@[i as int]@);
                proof {
                    lemma_json_view_children(items@[i as int]);
                }
                let ghost before = out.deep_view();
                match &items[i] {
                    JsonValue::Str(s) => {
                        let mut part = split_scopes(s.as_str());
                        let ghost pv = part.deep_view();
                        out.append(&mut part);
                        assert(out.deep_view() =~= before + pv);
                    },
                    _ => {
                        assert(before + Seq::<Seq<char>>::empty() =~= before);
                    },
                }
                i = i + 1;
            }
            assert(iv.take(items@.len() as int) =~= iv);
            out
        },
        _ => {
            let out: Vec<String> = Vec::new();
            assert(out.deep_view() =~= Seq::<Seq<char>>::empty());
            out
        },
    }
}

/// Build a caller [`Identity`] from authentication data: the client id and
/// name, the scopes under `scope_claim_key`, and the SLA tier property when
/// present. Missing fields degrade to `None` / empty rather than failing.
pub fn read_identity(auth: Option<&AuthData>, scope_claim_key: &str) -> (r: Identity)
    ensures
        r@ == identity_of(auth_opt_view(auth), scope_claim_key@),
{
    match auth {
        None => Identity::default(),
        Some(data) => {
            let scopes = scopes_of_claim(data.properties.get(scope_claim_key));
            let tier = read_tier(&data.properties);
            Identity {
                client_id: data.client_id.clone(),
                client_name: data.client_name.clone(),
                tier,
                scopes,
            }
        },
    }
}

// ---------------------------------------------------------------------------
// Request decisions
// ---------------------------------------------------------------------------

/// Whether the request body is read for a JSON-RPC `method`: only for a
/// `POST` whose content type mentions `json`.
pub open spec fn reads_jsonrpc_body(method: Seq<char>, content_type: Option<&str>) -> bool {
    method == POST_METHOD@ && match content_type {
        Some(c) => contains_bytes(c.spec_bytes(), JSON_CONTENT_MARK.spec_bytes()),
        None => false,
    }
}

/// Whether to peek the JSON-RPC `method` of the request body.
pub fn should_read_jsonrpc_method(method: &str, content_type: Option<&str>) -> (r: bool)
    ensures
        r == reads_jsonrpc_body(method@, content_type),
{
    str_equals(method, POST_METHOD) && match content_type {
        Some(c) => contains_in(c.as_bytes(), JSON_CONTENT_MARK.as_bytes()),
        None => false,
    }
}

/// The card context of a request: none when the request is no card fetch;
/// otherwise its surface and binding, and the caller on the extended surface
/// (identity rules never bind on the public card, whose caller is anonymous).
pub fn card_context(
    method: &str,
    path: &str,
    a2a_version_header: Option<&str>,
    jsonrpc_method: Option<&str>,
    auth: Option<&AuthData>,
    scope_claim_key: &str,
) -> (r: Option<CardContext>)
    ensures
        match surface_of_request(
            method@,
            path.spec_bytes(),
            version_signalled(opt_str_view(a2a_version_header), path.spec_bytes()),
            opt_str_view(jsonrpc_method),
        ) {
            None => r is None,
            Some((s, v)) => r matches Some(c) && c.surface == s && c.variant == v && c.identity@ == (
            if s == Surface::Extended {
                identity_of(auth_opt_view(auth), scope_claim_key@)
            } else {
                anonymous()
            }),
        },
{
    let is_v1 = a2a_version_is_v1(a2a_version_header, path);
    match classify_surface(method, path, is_v1, jsonrpc_method) {
        None => None,
        Some((surface, variant)) => {
            let identity = if surface == Surface::Extended {
                read_identity(auth, scope_claim_key)
            } else {
                Identity::default()
            };
            Some(CardContext { surface, variant, identity })
        },
    }
}

/// The authentication property that carries scopes: the configured one, or
/// `scope`.
pub fn scope_claim_key(config: &Config) -> (r: String)
    ensures
        r@ == match config@.scope_claim_key {
            Some(k) => k,
            None => DEFAULT_SCOPE_CLAIM_KEY@,
        },
{
    match &config.scope_claim_key {
        Some(k) => k.clone(),
        None => DEFAULT_SCOPE_CLAIM_KEY.to_owned(),
    }
}

} // verus!
