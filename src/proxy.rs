use vstd::prelude::*;

use crate::bytes::{copy_bytes, eq_ignore_case, same_ignoring_case};
use crate::gate::{admits, gate_allows, opt_view};
use crate::rewrite::{https_origin, is_xml, replace_origin, rewrite_body, RewriteError};
use vstd::utf8::valid_utf8;

verus! {

/// One header: its name and its value, as bytes.
pub struct Header {
    pub name: Vec<u8>,
    pub value: Vec<u8>,
}

/// A request as the listener received it. `path` is what follows the leading
/// `/` (`None` for the root); `query` is the raw query string without `?`.
pub struct InboundRequest {
    pub method: Vec<u8>,
    pub path: Option<Vec<u8>>,
    pub query: Option<Vec<u8>>,
    pub headers: Vec<Header>,
    pub body: Vec<u8>,
}

/// The request to send to the upstream origin.
pub struct OutboundRequest {
    pub method: Vec<u8>,
    pub url: Vec<u8>,
    pub headers: Vec<Header>,
    pub body: Vec<u8>,
}

/// What the upstream origin answered.
pub struct UpstreamResponse {
    pub status: u16,
    pub headers: Vec<Header>,
    pub body: Vec<u8>,
}

/// A response handed back to the listener.
pub struct OutgoingResponse {
    pub status: u16,
    pub headers: Vec<Header>,
    pub body: Vec<u8>,
}

/// What to do with an inbound request.
pub enum Step {
    /// Answer at once; nothing is sent upstream.
    Reject(OutgoingResponse),
    /// Send this request upstream.
    Forward(OutboundRequest),
}

pub type HeaderView = (Seq<u8>, Seq<u8>);

pub open spec fn headers_view(hs: Seq<Header>) -> Seq<HeaderView> {
    hs.map_values(|h: Header| (h.name@, h.value@))
}

/// `https://mikanani.me/`, the origin every request is forwarded to.
pub open spec fn upstream_base() -> Seq<u8> {
    https_origin().push(47u8)
}

/// The upstream URL: the origin, then the path, then `?` and the query if any.
pub open spec fn target(path: Option<Seq<u8>>, query: Option<Seq<u8>>) -> Seq<u8> {
    let with_path = match path {
        Some(p) => upstream_base() + p,
        None => upstream_base(),
    };
    match query {
        Some(q) => with_path.push(63u8) + q,
        None => with_path,
    }
}

pub open spec fn x_forwarded_host() -> Seq<u8> {
    seq![120u8, 45, 102, 111, 114, 119, 97, 114, 100, 101, 100, 45, 104, 111, 115, 116]
}

pub open spec fn cf_connecting_ip() -> Seq<u8> {
    seq![99u8, 102, 45, 99, 111, 110, 110, 101, 99, 116, 105, 110, 103, 45, 105, 112]
}

pub open spec fn cf_ipcountry() -> Seq<u8> {
    seq![99u8, 102, 45, 105, 112, 99, 111, 117, 110, 116, 114, 121]
}

pub open spec fn accept_encoding() -> Seq<u8> {
    seq![97u8, 99, 99, 101, 112, 116, 45, 101, 110, 99, 111, 100, 105, 110, 103]
}

pub open spec fn brotli() -> Seq<u8> {
    seq![98u8, 114]
}

pub open spec fn content_type() -> Seq<u8> {
    seq![99u8, 111, 110, 116, 101, 110, 116, 45, 116, 121, 112, 101]
}

/// A header set by an edge layer in front of the proxy, never sent upstream.
pub open spec fn is_edge_header(name: Seq<u8>) -> bool {
    same_ignoring_case(name, x_forwarded_host()) || same_ignoring_case(name, cf_connecting_ip())
        || same_ignoring_case(name, cf_ipcountry())
}

/// A header that the outbound request does not take from the inbound one.
pub open spec fn is_dropped(name: Seq<u8>) -> bool {
    is_edge_header(name) || same_ignoring_case(name, accept_encoding())
}

/// The inbound headers that go upstream, in their order.
pub open spec fn kept_headers(hs: Seq<HeaderView>) -> Seq<HeaderView>
    decreases hs.len(),
{
    if hs.len() == 0 {
        hs
    } else if is_dropped(hs.last().0) {
        kept_headers(hs.drop_last())
    } else {
        kept_headers(hs.drop_last()).push(hs.last())
    }
}

/// The outbound headers: the kept ones, then `accept-encoding: br`.
pub open spec fn outbound_headers(hs: Seq<HeaderView>) -> Seq<HeaderView> {
    kept_headers(hs).push((accept_encoding(), brotli()))
}

/// The value of the first `content-type` header, or nothing.
pub open spec fn content_type_of(hs: Seq<HeaderView>) -> Seq<u8>
    decreases hs.len(),
{
    if hs.len() == 0 {
        Seq::empty()
    } else if same_ignoring_case(hs[0].0, content_type()) {
        hs[0].1
    } else {
        content_type_of(hs.skip(1))
    }
}

/// `out` is the upstream request for `req`: same method and body, the
/// upstream URL, the sanitized headers.
pub open spec fn forwards(req: InboundRequest, out: OutboundRequest) -> bool {
    &&& out.method@ == req.method@
    &&& out.url@ == target(opt_view(req.path), opt_view(req.query))
    &&& headers_view(out.headers@) == outbound_headers(headers_view(req.headers@))
    &&& out.body@ == req.body@
}

fn append_bytes(out: &mut Vec<u8>, src: &[u8])
    ensures
        final(out)@ == old(out)@ + src@,
{
    let mut k: usize = 0;
    while k < src.len()
        invariant
            k <= src@.len(),
            out@ == old(out)@ + src@.subrange(0, k as int),
        decreases src@.len() - k,
    {
        out.push(src[k]);
        k = k + 1;
        assert(out@ =~= old(out)@ + src@.subrange(0, k as int));
    }
    assert(src@.subrange(0, src@.len() as int) =~= src@);
}

fn upstream_base_bytes() -> (r: Vec<u8>)
    ensures
        r@ == upstream_base(),
{
    let r: Vec<u8> = vec![104u8, 116, 116, 112, 115, 58, 47, 47, 109, 105, 107, 97, 110, 97, 110, 105, 46, 109, 101, 47];
    assert(r@ =~= upstream_base());
    r
}

/// The upstream URL for a request with this path and raw query string.
pub fn target_url(path: &Option<Vec<u8>>, query: &Option<Vec<u8>>) -> (r: Vec<u8>)
    ensures
        r@ == target(opt_view(*path), opt_view(*query)),
{
    let mut url = upstream_base_bytes();
    match path {
        Some(p) => append_bytes(&mut url, p.as_slice()),
        None => {},
    }
    match query {
        Some(q) => {
            url.push(63u8);
            append_bytes(&mut url, q.as_slice());
        },
        None => {},
    }
    url
}

fn name_bytes_edge_free() -> (r: (Vec<u8>, Vec<u8>, Vec<u8>, Vec<u8>))
    ensures
        r.0@ == x_forwarded_host(),
        r.1@ == cf_connecting_ip(),
        r.2@ == cf_ipcountry(),
        r.3@ == accept_encoding(),
{
    let a: Vec<u8> = vec![120u8, 45, 102, 111, 114, 119, 97, 114, 100, 101, 100, 45, 104, 111, 115, 116];
    let b: Vec<u8> = vec![99u8, 102, 45, 99, 111, 110, 110, 101, 99, 116, 105, 110, 103, 45, 105, 112];
    let c: Vec<u8> = vec![99u8, 102, 45, 105, 112, 99, 111, 117, 110, 116, 114, 121];
    let d: Vec<u8> = vec![97u8, 99, 99, 101, 112, 116, 45, 101, 110, 99, 111, 100, 105, 110, 103];
    assert(a@ =~= x_forwarded_host());
    assert(b@ =~= cf_connecting_ip());
    assert(c@ =~= cf_ipcountry());
    assert(d@ =~= accept_encoding());
    (a, b, c, d)
}

fn brotli_bytes() -> (r: Vec<u8>)
    ensures
        r@ == brotli(),
{
    let r: Vec<u8> = vec![98u8, 114];
    assert(r@ =~= brotli());
    r
}

/// The headers to send upstream: the inbound ones without the edge headers
/// and without `accept-encoding`, then `accept-encoding: br`.
pub fn sanitize_headers(headers: &Vec<Header>) -> (r: Vec<Header>)
    ensures
        headers_view(r@) == outbound_headers(headers_view(headers@)),
{
    let ghost hs = headers_view(headers@);
    let (xfh, cci, cfc, ae) = name_bytes_edge_free();
    let mut out: Vec<Header> = Vec::new();
    let mut i: usize = 0;
    while i < headers.len()
        invariant
            hs == headers_view(headers@),
            xfh@ == x_forwarded_host(),
            cci@ == cf_connecting_ip(),
            cfc@ == cf_ipcountry(),
            ae@ == accept_encoding(),
            i <= headers@.len(),
            headers_view(out@) == kept_headers(hs.take(i as int)),
        decreases headers@.len() - i,
    {
        let name = headers[i].name.as_slice();
        let drop = eq_ignore_case(name, xfh.as_slice()) || eq_ignore_case(name, cci.as_slice())
            || eq_ignore_case(name, cfc.as_slice()) || eq_ignore_case(name, ae.as_slice());
        assert(hs.take(i + 1).drop_last() =~= hs.take(i as int));
        assert(hs.take(i + 1).last() == hs[i as int]);
        if !drop {
            let h = Header { name: copy_bytes(&headers[i].name), value: copy_bytes(&headers[i].value) };
            out.push(h);
            assert(headers_view(out@) =~= kept_headers(hs.take(i as int)).push(hs[i as int]));
        }
        i = i + 1;
    }
    assert(hs.take(headers@.len() as int) =~= hs);
    let br = brotli_bytes();
    out.push(Header { name: ae, value: br });
    assert(headers_view(out@) =~= outbound_headers(hs));
    out
}

/// The upstream request for `req`.
pub fn forward(req: InboundRequest) -> (r: OutboundRequest)
    ensures
        forwards(req, r),
{
    let url = target_url(&req.path, &req.query);
    let headers = sanitize_headers(&req.headers);
    OutboundRequest { method: req.method, url, headers, body: req.body }
}

/// The access check's refusal: `404 Not Found`, no headers, an empty body.
pub fn not_found() -> (r: OutgoingResponse)
    ensures
        r.status == 404,
        r.headers@.len() == 0,
        r.body@.len() == 0,
{
    OutgoingResponse { status: 404, headers: Vec::new(), body: Vec::new() }
}

/// `text/plain; charset=utf-8`.
pub open spec fn plain_text() -> Seq<u8> {
    seq![116u8, 101, 120, 116, 47, 112, 108, 97, 105, 110, 59, 32, 99, 104, 97, 114, 115, 101, 116, 61, 117, 116, 102, 45, 56]
}

/// The answer to a failed request: `500 Internal Server Error` carrying
/// `message` as plain text.
pub fn failure(message: Vec<u8>) -> (r: OutgoingResponse)
    ensures
        r.status == 500,
        headers_view(r.headers@) == seq![(content_type(), plain_text())],
        r.body@ == message@,
{
    let value: Vec<u8> = vec![116u8, 101, 120, 116, 47, 112, 108, 97, 105, 110, 59, 32, 99, 104, 97, 114, 115, 101, 116, 61, 117, 116, 102, 45, 56];
    assert(value@ =~= plain_text());
    let mut headers: Vec<Header> = Vec::new();
    headers.push(Header { name: content_type_bytes(), value });
    assert(headers_view(headers@) =~= seq![(content_type(), plain_text())]);
    OutgoingResponse { status: 500, headers, body: message }
}

/// Decides an inbound request: with `token` configured, a request whose query
/// does not carry it is refused with a 404 and nothing goes upstream; any other
/// request becomes its upstream request.
pub fn handle(token: &Option<Vec<u8>>, req: InboundRequest) -> (r: Step)
    ensures
        gate_allows(opt_view(*token), opt_view(req.query)) ==> (r matches Step::Forward(out)
            && forwards(req, out)),
        !gate_allows(opt_view(*token), opt_view(req.query)) ==> (r matches Step::Reject(resp)
            && resp.status == 404 && resp.headers@.len() == 0 && resp.body@.len() == 0),
{
    if admits(token, &req.query) {
        Step::Forward(forward(req))
    } else {
        Step::Reject(not_found())
    }
}

fn content_type_bytes() -> (r: Vec<u8>)
    ensures
        r@ == content_type(),
{
    let r: Vec<u8> = vec![99u8, 111, 110, 116, 101, 110, 116, 45, 116, 121, 112, 101];
    assert(r@ =~= content_type());
    r
}

/// The value of the first `content-type` header, or an empty value.
pub fn find_content_type(headers: &Vec<Header>) -> (r: Vec<u8>)
    ensures
        r@ == content_type_of(headers_view(headers@)),
{
    let ghost hs = headers_view(headers@);
    let ct = content_type_bytes();
    assert(hs.skip(0) =~= hs);
    let mut i: usize = 0;
    while i < headers.len()
        invariant
            hs == headers_view(headers@),
            ct@ == content_type(),
            i <= headers@.len(),
            content_type_of(hs) == content_type_of(hs.skip(i as int)),
        decreases headers@.len() - i,
    {
        assert(hs.skip(i as int)[0] == hs[i as int]);
        if eq_ignore_case(headers[i].name.as_slice(), ct.as_slice()) {
            return copy_bytes(&headers[i].value);
        }
        assert(hs.skip(i as int).skip(1) =~= hs.skip(i + 1));
        i = i + 1;
    }
    assert(hs.skip(i as int).len() == 0);
    Vec::new()
}

/// The response to hand back for `upstream`: its status and headers as they
/// came, and its body rewritten as `rewrite_body` says. The headers are not
/// touched, so a `content-length` from upstream is kept even where the
/// rewritten body has another length.
pub fn assemble(public_origin: &[u8], upstream: UpstreamResponse) -> (r: Result<
    OutgoingResponse,
    RewriteError,
>)
    ensures
        ({
            let ct = content_type_of(headers_view(upstream.headers@));
            &&& !is_xml(ct) ==> (r matches Ok(resp) && resp.status == upstream.status
                && resp.headers@ == upstream.headers@ && resp.body@ == upstream.body@)
            &&& is_xml(ct) && !valid_utf8(upstream.body@) ==> r == Err::<
                OutgoingResponse,
                RewriteError,
            >(RewriteError::Decode)
            &&& is_xml(ct) && valid_utf8(upstream.body@) ==> (r matches Ok(resp) && resp.status
                == upstream.status && resp.headers@ == upstream.headers@ && resp.body@
                == replace_origin(upstream.body@, public_origin@))
        }),
{
    let ct = find_content_type(&upstream.headers);
    match rewrite_body(ct.as_slice(), upstream.body, public_origin) {
        Ok(body) => Ok(OutgoingResponse { status: upstream.status, headers: upstream.headers, body }),
        Err(e) => Err(e),
    }
}

} // verus!

verus! {

proof fn lemma_kept_clean(hs: Seq<HeaderView>)
    ensures
        forall|k: int|
            0 <= k < kept_headers(hs).len() ==> !is_dropped(#[trigger] kept_headers(hs)[k].0),
    decreases hs.len(),
{
    if hs.len() > 0 {
        let prev = kept_headers(hs.drop_last());
        lemma_kept_clean(hs.drop_last());
        assert forall|k: int| 0 <= k < kept_headers(hs).len() implies !is_dropped(
            #[trigger] kept_headers(hs)[k].0,
        ) by {
            if !is_dropped(hs.last().0) && k == prev.len() {
                assert(kept_headers(hs)[k] == hs.last());
            } else {
                assert(kept_headers(hs)[k] == prev[k]);
            }
        }
    }
}

/// None of the edge headers ever reaches the upstream origin.
pub proof fn lemma_no_edge_header_upstream(hs: Seq<HeaderView>)
    ensures
        forall|k: int|
            0 <= k < outbound_headers(hs).len() ==> !is_edge_header(
                #[trigger] outbound_headers(hs)[k].0,
            ),
{
    lemma_kept_clean(hs);
    let o = outbound_headers(hs);
    assert forall|k: int| 0 <= k < o.len() implies !is_edge_header(#[trigger] o[k].0) by {
        if k < kept_headers(hs).len() {
            assert(o[k] == kept_headers(hs)[k]);
        } else {
            assert(o[k].0 == accept_encoding());
        }
    }
}

} // verus!
