use vstd::prelude::*;

use crate::bytes::{copy_bytes, same_bytes};
use crate::proxy::{not_found, OutgoingResponse};

verus! {

/// The name-value pairs that a query string decodes to, percent-escapes and
/// `+` resolved, in the order they stand; `None` where it cannot be decoded.
pub uninterp spec fn form_pairs(q: Seq<u8>) -> Option<Seq<(Seq<u8>, Seq<u8>)>>;

/// `token`, the query key that carries the shared secret.
pub open spec fn token_key() -> Seq<u8> {
    seq![116u8, 111, 107, 101, 110]
}

pub open spec fn pairs_view(v: Seq<(Vec<u8>, Vec<u8>)>) -> Seq<(Seq<u8>, Seq<u8>)> {
    v.map_values(|p: (Vec<u8>, Vec<u8>)| (p.0@, p.1@))
}

/// Pair `i` is the one and only pair whose key is `token`.
pub open spec fn sole_token_at(p: Seq<(Seq<u8>, Seq<u8>)>, i: int) -> bool {
    0 <= i < p.len() && p[i].0 == token_key() && forall|j: int|
        0 <= j < p.len() && j != i ==> #[trigger] p[j].0 != token_key()
}

/// The token a query carries: the value of its only `token` pair. A query with
/// no such pair, or with two or more, carries none.
pub open spec fn token_in(p: Seq<(Seq<u8>, Seq<u8>)>) -> Option<Seq<u8>> {
    if exists|i: int| sole_token_at(p, i) {
        Some(p[choose|i: int| sole_token_at(p, i)].1)
    } else {
        None
    }
}

/// Whether the access check lets a request with this raw query string through: always
/// when no token is configured; otherwise only when the query decodes and
/// carries exactly the configured token.
pub open spec fn gate_allows(token: Option<Seq<u8>>, query: Option<Seq<u8>>) -> bool {
    match token {
        None => true,
        Some(t) => match query {
            None => false,
            Some(q) => match form_pairs(q) {
                None => false,
                Some(p) => token_in(p) == Some(t),
            },
        },
    }
}

pub open spec fn opt_view(o: Option<Vec<u8>>) -> Option<Seq<u8>> {
    match o {
        Some(v) => Some(v@),
        None => None,
    }
}

/// Relies on serde_urlencoded::from_bytes into a sequence of string pairs: the
/// result is a function of the query bytes alone.
#[verifier::external_body]
fn decode_query(q: &[u8]) -> (r: Option<Vec<(Vec<u8>, Vec<u8>)>>)
    ensures
        match r {
            Some(v) => form_pairs(q@) == Some(pairs_view(v@)),
            None => form_pairs(q@) is None,
        },
{
    match serde_urlencoded::from_bytes::<Vec<(String, String)>>(q) {
        Ok(v) => Some(v.into_iter().map(|(k, x)| (k.into_bytes(), x.into_bytes())).collect()),
        Err(_) => None,
    }
}

fn token_key_bytes() -> (r: Vec<u8>)
    ensures
        r@ == token_key(),
{
    let r: Vec<u8> = vec![116u8, 111, 107, 101, 110];
    assert(r@ =~= token_key());
    r
}

/// The value of the only `token` pair among `pairs`, if there is exactly one.
pub fn find_token(pairs: &Vec<(Vec<u8>, Vec<u8>)>) -> (r: Option<Vec<u8>>)
    ensures
        opt_view(r) == token_in(pairs_view(pairs@)),
{
    let ghost p = pairs_view(pairs@);
    let key = token_key_bytes();
    let mut found: Option<usize> = None;
    let mut twice = false;
    let mut i: usize = 0;
    while i < pairs.len()
        invariant
            p == pairs_view(pairs@),
            key@ == token_key(),
            i <= pairs@.len(),
            !twice ==> match found {
                Some(f) => f < i && p[f as int].0 == token_key() && forall|j: int|
                    0 <= j < i && j != f ==> #[trigger] p[j].0 != token_key(),
                None => forall|j: int| 0 <= j < i ==> #[trigger] p[j].0 != token_key(),
            },
            twice ==> exists|a: int, b: int|
                0 <= a < b < p.len() && #[trigger] p[a].0 == token_key() && #[trigger] p[b].0
                    == token_key(),
        decreases pairs@.len() - i,
    {
        if same_bytes(pairs[i].0.as_slice(), key.as_slice()) {
            match found {
                Some(f) => {
                    if !twice {
                        assert(p[f as int].0 == token_key() && p[i as int].0 == token_key());
                    }
                    twice = true;
                },
                None => {
                    found = Some(i);
                },
            }
        }
        i = i + 1;
    }
    if twice {
        assert forall|k: int| !sole_token_at(p, k) by {
            let (a, b) = choose|a: int, b: int|
                0 <= a < b < p.len() && #[trigger] p[a].0 == token_key() && #[trigger] p[b].0
                    == token_key();
            if sole_token_at(p, k) {
                if k != a {
                    assert(p[a].0 != token_key());
                } else {
                    assert(p[b].0 != token_key());
                }
            }
        }
        return None;
    }
    match found {
        Some(f) => {
            assert(sole_token_at(p, f as int));
            assert forall|k: int| sole_token_at(p, k) implies k == f by {
                if k != f {
                    assert(p[f as int].0 != token_key());
                }
            }
            Some(copy_bytes(&pairs[f].1))
        },
        None => {
            assert forall|k: int| !sole_token_at(p, k) by {
                if 0 <= k < p.len() {
                    assert(p[k].0 != token_key());
                }
            }
            None
        },
    }
}

/// Whether decoded query `pairs` carry exactly the configured `token`.
pub fn pairs_admit(token: &[u8], pairs: &Vec<(Vec<u8>, Vec<u8>)>) -> (r: bool)
    ensures
        r == (token_in(pairs_view(pairs@)) == Some(token@)),
{
    match find_token(pairs) {
        Some(v) => same_bytes(v.as_slice(), token),
        None => false,
    }
}

/// Whether a request whose raw query string is `query` may be forwarded.
pub fn admits(token: &Option<Vec<u8>>, query: &Option<Vec<u8>>) -> (r: bool)
    ensures
        r == gate_allows(opt_view(*token), opt_view(*query)),
{
    match token {
        None => true,
        Some(t) => match query {
            None => false,
            Some(q) => match decode_query(q.as_slice()) {
                None => false,
                Some(pairs) => pairs_admit(t.as_slice(), &pairs),
            },
        },
    }
}

fn copy_token(token: &Option<Vec<u8>>) -> (r: Option<Vec<u8>>)
    ensures
        opt_view(r) == opt_view(*token),
{
    match token {
        Some(t) => Some(copy_bytes(t)),
        None => None,
    }
}

/// Builds the access gate that wraps a service.
pub struct TokenLayer {
    pub token: Option<Vec<u8>>,
}

impl TokenLayer {
    /// A layer that gates on `token`; with `None` every request passes.
    pub fn new(token: Option<Vec<u8>>) -> (r: TokenLayer)
        ensures
            opt_view(r.token) == opt_view(token),
    {
        TokenLayer { token }
    }

    /// Wraps `inner` in a gate on this layer's token.
    pub fn layer<S>(&self, inner: S) -> (r: TokenMiddleware<S>)
        ensures
            r.inner == inner,
            opt_view(r.token) == opt_view(self.token),
    {
        TokenMiddleware { inner, token: copy_token(&self.token) }
    }
}

/// A service behind the access gate.
pub struct TokenMiddleware<S> {
    pub inner: S,
    pub token: Option<Vec<u8>>,
}

impl<S> TokenMiddleware<S> {
    /// Whether a request whose raw query string is `query` reaches the inner service.
    pub fn admits(&self, query: &Option<Vec<u8>>) -> (r: bool)
        ensures
            r == gate_allows(opt_view(self.token), opt_view(*query)),
    {
        admits(&self.token, query)
    }
}

/// What the access check does with one request.
pub enum Kind<F> {
    /// The inner service's pending work.
    Future { future: F },
    /// The request was refused.
    Invalid,
}

/// The outcome of the access check: the inner service's work, or a refusal.
pub struct TokenFuture<F> {
    pub kind: Kind<F>,
}

impl<F> TokenFuture<F> {
    /// The request passed; `future` is the inner service's work on it.
    pub fn future(future: F) -> (r: Self)
        ensures
            r.kind == (Kind::Future { future }),
    {
        TokenFuture { kind: Kind::Future { future } }
    }

    /// The request was refused.
    pub fn invalid() -> (r: Self)
        ensures
            r.kind is Invalid,
    {
        TokenFuture { kind: Kind::Invalid }
    }

    /// The inner service's work, or, for a refused request, the response that
    /// ends it: `404 Not Found`, no headers, an empty body.
    pub fn resolve(self) -> (r: Result<F, OutgoingResponse>)
        ensures
            match self.kind {
                Kind::Future { future } => r == Ok::<F, OutgoingResponse>(future),
                Kind::Invalid => r matches Err(resp) && resp.status == 404 && resp.headers@.len()
                    == 0 && resp.body@.len() == 0,
            },
    {
        match self.kind {
            Kind::Future { future } => Ok(future),
            Kind::Invalid => Err(not_found()),
        }
    }
}

} // verus!

verus! {

/// With no token configured, every request passes, whatever its query.
pub proof fn lemma_open_gate(query: Option<Seq<u8>>)
    ensures
        gate_allows(None, query),
{
}

/// With a token configured, a request without a query, or whose query does not
/// decode to exactly that token, is refused.
pub proof fn lemma_closed_gate(token: Seq<u8>, query: Option<Seq<u8>>)
    requires
        !(query matches Some(q) && form_pairs(q) matches Some(p) && token_in(p) == Some(token)),
    ensures
        !gate_allows(Some(token), query),
{
}

} // verus!
