use vstd::prelude::*;

use vstd::utf8::valid_utf8;

use crate::bytes::{contains_ignore_case, contains_ignoring_case};

verus! {

/// `https://mikanani.me`, the upstream origin as it is spelled over TLS.
pub open spec fn https_origin() -> Seq<u8> {
    seq![104u8, 116, 116, 112, 115, 58, 47, 47, 109, 105, 107, 97, 110, 97, 110, 105, 46, 109, 101]
}

/// `http://mikanani.me`, the upstream origin as it is spelled in clear.
pub open spec fn http_origin() -> Seq<u8> {
    seq![104u8, 116, 116, 112, 58, 47, 47, 109, 105, 107, 97, 110, 97, 110, 105, 46, 109, 101]
}

/// `application/xml`, the media type whose bodies are rewritten.
pub open spec fn xml_media_type() -> Seq<u8> {
    seq![97u8, 112, 112, 108, 105, 99, 97, 116, 105, 111, 110, 47, 120, 109, 108]
}

pub open spec fn starts_with(s: Seq<u8>, p: Seq<u8>) -> bool {
    p.len() <= s.len() && s.subrange(0, p.len() as int) == p
}

/// The body text after every occurrence of the upstream origin is replaced by
/// `rep`: scanning from the left, a match at the current position (the `https`
/// spelling first, then `http`) is replaced and skipped; any other byte is kept.
pub open spec fn replace_origin(s: Seq<u8>, rep: Seq<u8>) -> Seq<u8>
    decreases s.len(),
{
    if s.len() == 0 {
        s
    } else if starts_with(s, https_origin()) {
        rep + replace_origin(s.skip(19), rep)
    } else if starts_with(s, http_origin()) {
        rep + replace_origin(s.skip(18), rep)
    } else {
        seq![s[0]] + replace_origin(s.skip(1), rep)
    }
}

/// A response whose content type holds `application/xml` (in any case) is rewritten.
pub open spec fn is_xml(content_type: Seq<u8>) -> bool {
    contains_ignoring_case(content_type, xml_media_type())
}

/// The regular expression that finds the upstream origin in a body.
pub const ORIGIN_PATTERN: &'static str = "https?://mikanani\\.me";

/// Why an XML body could not be rewritten.
#[derive(Debug, Clone, Copy, PartialEq, Eq, Structural)]
pub enum RewriteError {
    /// The body is not valid UTF-8 text.
    Decode,
}

/// Relies on std::str::from_utf8: it succeeds exactly on well-formed UTF-8.
#[verifier::external_body]
fn is_utf8(b: &[u8]) -> (r: bool)
    ensures
        r == valid_utf8(b@),
{
    std::str::from_utf8(b).is_ok()
}

/// Relies on regex::bytes::Regex::new, which compiles this fixed, valid `pattern`
/// without error, and on
/// Regex::replace_all with NoExpand, which replaces the leftmost non-overlapping
/// matches, each the longest the greedy `s?` allows, by `rep` taken literally.
#[verifier::external_body]
fn replace_all_literal(pattern: &str, hay: &[u8], rep: &[u8]) -> (r: Vec<u8>)
    requires
        pattern@ == ORIGIN_PATTERN@,
    ensures
        r@ == replace_origin(hay@, rep@),
{
    regex::bytes::Regex::new(pattern).unwrap().replace_all(hay, regex::bytes::NoExpand(rep)).into_owned()
}

fn xml_media_type_bytes() -> (r: Vec<u8>)
    ensures
        r@ == xml_media_type(),
{
    let r: Vec<u8> = vec![97u8, 112, 112, 108, 105, 99, 97, 116, 105, 111, 110, 47, 120, 109, 108];
    assert(r@ =~= xml_media_type());
    r
}

/// Whether a response with this `Content-Type` value gets its body rewritten.
pub fn content_is_xml(content_type: &[u8]) -> (r: bool)
    ensures
        r == is_xml(content_type@),
{
    let xml = xml_media_type_bytes();
    contains_ignore_case(content_type, xml.as_slice())
}

/// The body to send on: an XML body has the upstream origin replaced by
/// `public_origin`; any other body is handed back as it came, byte for byte.
pub fn rewrite_body(content_type: &[u8], body: Vec<u8>, public_origin: &[u8]) -> (r: Result<
    Vec<u8>,
    RewriteError,
>)
    ensures
        !is_xml(content_type@) ==> (r matches Ok(v) && v@ == body@),
        is_xml(content_type@) && !valid_utf8(body@) ==> r == Err::<Vec<u8>, RewriteError>(
            RewriteError::Decode,
        ),
        is_xml(content_type@) && valid_utf8(body@) ==> (r matches Ok(v) && v@ == replace_origin(
            body@,
            public_origin@,
        )),
{
    if !content_is_xml(content_type) {
        return Ok(body);
    }
    if !is_utf8(body.as_slice()) {
        return Err(RewriteError::Decode);
    }
    proof {
        reveal_strlit("https?://mikanani\\.me");
    }
    Ok(replace_all_literal(ORIGIN_PATTERN, body.as_slice(), public_origin))
}

} // verus!

verus! {

/// An occurrence of the upstream origin at the front of the body, in either
/// spelling, becomes the public origin, and the rest is rewritten on its own.
pub proof fn lemma_origin_replaced(t: Seq<u8>, rep: Seq<u8>)
    ensures
        replace_origin(https_origin() + t, rep) == rep + replace_origin(t, rep),
        replace_origin(http_origin() + t, rep) == rep + replace_origin(t, rep),
{
    let s = https_origin() + t;
    assert(s.subrange(0, 19) =~= https_origin());
    assert(s.skip(19) =~= t);
    let h = http_origin() + t;
    assert(h[4] != https_origin()[4]);
    if h.len() >= 19 {
        assert(h.subrange(0, 19)[4] == h[4]);
    }
    assert(h.subrange(0, 18) =~= http_origin());
    assert(h.skip(18) =~= t);
}

/// No occurrence of the upstream origin starts at any position of `s`.
pub open spec fn origin_free(s: Seq<u8>) -> bool {
    forall|i: int|
        0 <= i < s.len() ==> !starts_with(#[trigger] s.skip(i), https_origin()) && !starts_with(
            s.skip(i),
            http_origin(),
        )
}

/// A body in which the upstream origin does not occur is left byte for byte.
pub proof fn lemma_origin_free_kept(s: Seq<u8>, rep: Seq<u8>)
    requires
        origin_free(s),
    ensures
        replace_origin(s, rep) == s,
    decreases s.len(),
{
    if s.len() > 0 {
        assert(s.skip(0) =~= s);
        let r = s.skip(1);
        assert forall|i: int| 0 <= i < r.len() implies !starts_with(
            #[trigger] r.skip(i),
            https_origin(),
        ) && !starts_with(r.skip(i), http_origin()) by {
            assert(r.skip(i) =~= s.skip(i + 1));
        }
        lemma_origin_free_kept(r, rep);
        assert(seq![s[0]] + r =~= s);
    }
}

/// A byte that does not start an occurrence of the upstream origin is kept,
/// and the rest is rewritten on its own.
pub proof fn lemma_other_byte_kept(s: Seq<u8>, rep: Seq<u8>)
    requires
        s.len() > 0,
        !starts_with(s, https_origin()),
        !starts_with(s, http_origin()),
    ensures
        replace_origin(s, rep) == seq![s[0]] + replace_origin(s.skip(1), rep),
{
}

proof fn lemma_h_leads_only(l: int)
    requires
        1 <= l < 19,
    ensures
        https_origin()[l] != 104u8,
        l < 18 ==> http_origin()[l] != 104u8,
{
}

proof fn lemma_no_match_across_one(a: Seq<u8>, o: Seq<u8>, b: Seq<u8>, p: Seq<u8>)
    requires
        a.len() > 0,
        origin_free(a),
        o == https_origin() || o == http_origin(),
        p == https_origin() || p == http_origin(),
    ensures
        !starts_with(a + o + b, p),
{
    let s = a + o + b;
    assert(a.skip(0) =~= a);
    if starts_with(s, p) {
        if a.len() >= p.len() {
            assert(a.subrange(0, p.len() as int) =~= s.subrange(0, p.len() as int));
        } else {
            let l = a.len() as int;
            assert(s[l] == o[0]);
            assert(s.subrange(0, p.len() as int)[l] == s[l]);
            lemma_h_leads_only(l);
        }
    }
}

proof fn lemma_no_match_across(a: Seq<u8>, o: Seq<u8>, b: Seq<u8>)
    requires
        a.len() > 0,
        origin_free(a),
        o == https_origin() || o == http_origin(),
    ensures
        !starts_with(a + o + b, https_origin()),
        !starts_with(a + o + b, http_origin()),
{
    lemma_no_match_across_one(a, o, b, https_origin());
    lemma_no_match_across_one(a, o, b, http_origin());
}

/// Text free of the upstream origin, then one occurrence of it, then anything:
/// the free text is kept, the occurrence becomes the public origin, and the
/// rest is rewritten on its own.
pub proof fn lemma_rewrite_splits(a: Seq<u8>, o: Seq<u8>, b: Seq<u8>, rep: Seq<u8>)
    requires
        origin_free(a),
        o == https_origin() || o == http_origin(),
    ensures
        replace_origin(a + o + b, rep) == a + rep + replace_origin(b, rep),
    decreases a.len(),
{
    if a.len() == 0 {
        assert(a + o + b =~= o + b);
        lemma_origin_replaced(b, rep);
        assert(a + rep =~= rep);
    } else {
        let s = a + o + b;
        lemma_no_match_across(a, o, b);
        let t = a.skip(1);
        assert forall|i: int| 0 <= i < t.len() implies !starts_with(
            #[trigger] t.skip(i),
            https_origin(),
        ) && !starts_with(t.skip(i), http_origin()) by {
            assert(t.skip(i) =~= a.skip(i + 1));
        }
        assert(s.skip(1) =~= t + o + b);
        lemma_rewrite_splits(t, o, b, rep);
        assert(s[0] == a[0]);
        assert(seq![a[0]] + (t + rep + replace_origin(b, rep)) =~= a + rep + replace_origin(b, rep));
    }
}

} // verus!
