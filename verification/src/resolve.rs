use vstd::prelude::*;

use crypto::digest::Digest;

use crate::bytes::{
    bytes_match_at, lit_bytes, lit_vec, matches_at, push_all, push_range, BACKSLASH, DOT, HASH,
    QUOTE, SLASH,
};
use crate::ArchiveError;

verus! {

// The link cache resolver. A captured URL arrives in its JSON-escaped form;
// it is unescaped, parsed, and split into the request URL (fragment dropped)
// and the cache key URL (fragment and query dropped). The cache key is
// hashed, and the hash names the on-disk cache path; the replacement text
// carries that path and the percent-encoded cache key.

/// `s` with every `\/` pair turned back into `/`, scanning left to right.
pub open spec fn spec_unescape(s: Seq<u8>) -> Seq<u8>
    decreases s.len(),
{
    if s.len() >= 2 && s[0] == BACKSLASH && s[1] == SLASH {
        seq![SLASH] + spec_unescape(s.subrange(2, s.len() as int))
    } else if s.len() > 0 {
        seq![s[0]] + spec_unescape(s.subrange(1, s.len() as int))
    } else {
        Seq::empty()
    }
}

/// `s` with every `/` replaced by the escaped pair `\/`.
pub open spec fn spec_escape_slashes(s: Seq<u8>) -> Seq<u8>
    decreases s.len(),
{
    if s.len() == 0 {
        Seq::empty()
    } else if s[0] == SLASH {
        seq![BACKSLASH, SLASH] + spec_escape_slashes(s.subrange(1, s.len() as int))
    } else {
        seq![s[0]] + spec_escape_slashes(s.subrange(1, s.len() as int))
    }
}

/// Bytes that percent-encoding passes through unchanged: ASCII letters and
/// digits and `-`, `.`, `_`, `~`.
pub open spec fn is_unreserved(b: u8) -> bool {
    (97 <= b && b <= 122) || (65 <= b && b <= 90) || (48 <= b && b <= 57) || b == 45 || b == 46
        || b == 95 || b == 126
}

/// The upper-case hex digit for a value below 16.
pub open spec fn hex_upper(d: u8) -> u8 {
    if d < 10 {
        (48 + d) as u8
    } else {
        (55 + d) as u8
    }
}

/// Percent-encoding of a byte string: unreserved bytes stand as themselves,
/// every other byte becomes `%` and two upper-case hex digits.
pub open spec fn spec_percent_encode(s: Seq<u8>) -> Seq<u8>
    decreases s.len(),
{
    if s.len() == 0 {
        Seq::empty()
    } else if is_unreserved(s[0]) {
        seq![s[0]] + spec_percent_encode(s.subrange(1, s.len() as int))
    } else {
        seq![37u8, hex_upper(s[0] / 16), hex_upper(s[0] % 16)] + spec_percent_encode(
            s.subrange(1, s.len() as int),
        )
    }
}

/// Whether the bytes, read as UTF-8 text, parse as a URL.
pub uninterp spec fn url_parses(s: Seq<u8>) -> bool;

/// The serialization of the parsed URL with its fragment dropped: the
/// address the fetch is sent to.
pub uninterp spec fn url_request_of(s: Seq<u8>) -> Seq<u8>;

/// The serialization of the parsed URL with fragment and query dropped:
/// the cache key.
pub uninterp spec fn url_base_of(s: Seq<u8>) -> Seq<u8>;

/// The request URL and the cache key URL of one parsed address.
pub struct UrlParts {
    pub request: Vec<u8>,
    pub base: Vec<u8>,
}

/// Relies on url::Url::parse, Url::set_fragment, Url::set_query and
/// Url::as_str: parsing fails exactly on text that is not UTF-8 or not a
/// valid URL; clearing the fragment and then the query truncates the
/// serialization at the `#` and the `?`; the result is a function of the
/// input bytes alone.
#[verifier::external_body]
fn split_url(raw: &Vec<u8>) -> (r: Option<UrlParts>)
    ensures
        (r is Some) == url_parses(raw@),
        r is Some ==> (r->Some_0).request@ == url_request_of(raw@),
        r is Some ==> (r->Some_0).base@ == url_base_of(raw@),
{
    let s = match std::str::from_utf8(raw) {
        Ok(s) => s,
        Err(_) => return None,
    };
    let mut u = match url::Url::parse(s) {
        Ok(u) => u,
        Err(_) => return None,
    };
    u.set_fragment(None);
    let request = u.as_str().as_bytes().to_vec();
    u.set_query(None);
    let base = u.as_str().as_bytes().to_vec();
    Some(UrlParts { request, base })
}

/// The 40-character lowercase hex SHA-1 digest of a byte string.
pub uninterp spec fn sha1_hex_of(data: Seq<u8>) -> Seq<u8>;

/// Relies on crypto::sha1::Sha1 through crypto::digest::Digest: `result_str`
/// returns the SHA-1 digest of the input bytes as 40 lowercase hex
/// characters, a function of the input alone.
#[verifier::external_body]
fn sha1_hex(data: &Vec<u8>) -> (r: Vec<u8>)
    ensures
        r@ == sha1_hex_of(data@),
        r@.len() == 40,
{
    let mut d = crypto::sha1::Sha1::new();
    d.input(data);
    d.result_str().into_bytes()
}

/// Relies on urlencoding::encode_binary: percent-encodes every byte except
/// ASCII alphanumerics and `-`, `.`, `_`, `~`, with upper-case hex digits.
#[verifier::external_body]
fn percent_encode(data: &Vec<u8>) -> (r: Vec<u8>)
    ensures
        r@ == spec_percent_encode(data@),
{
    urlencoding::encode_binary(data).into_owned().into_bytes()
}

/// Turns the JSON-escaped `\/` pairs of `s` back into plain slashes.
pub fn unescape(s: &Vec<u8>) -> (r: Vec<u8>)
    ensures
        r@ == spec_unescape(s@),
{
    let n = s.len();
    let mut r: Vec<u8> = Vec::new();
    let mut i: usize = 0;
    proof {
        assert(s@.subrange(0, n as int) =~= s@);
        assert(Seq::<u8>::empty() + spec_unescape(s@) =~= spec_unescape(s@));
    }
    while i < n
        invariant
            0 <= i <= n,
            n == s@.len(),
            spec_unescape(s@) == r@ + spec_unescape(s@.subrange(i as int, n as int)),
        decreases n - i,
    {
        let ghost t = s@.subrange(i as int, n as int);
        if s[i] == BACKSLASH && i + 1 < n && s[i + 1] == SLASH {
            proof {
                assert(t.subrange(2, t.len() as int) =~= s@.subrange(i + 2, n as int));
                assert(r@ + (seq![SLASH] + spec_unescape(s@.subrange(i + 2, n as int))) =~= (r@
                    + seq![SLASH]) + spec_unescape(s@.subrange(i + 2, n as int)));
            }
            r.push(SLASH);
            i += 2;
        } else {
            proof {
                assert(t.subrange(1, t.len() as int) =~= s@.subrange(i + 1, n as int));
                assert(r@ + (seq![t[0]] + spec_unescape(s@.subrange(i + 1, n as int))) =~= (r@
                    + seq![s@[i as int]]) + spec_unescape(s@.subrange(i + 1, n as int)));
            }
            r.push(s[i]);
            i += 1;
        }
    }
    proof {
        assert(spec_unescape(s@.subrange(n as int, n as int)) =~= Seq::<u8>::empty());
        assert(r@ + Seq::<u8>::empty() =~= r@);
    }
    r
}

/// Replaces every `/` of `s` by the escaped pair `\/`.
pub fn escape_slashes(s: &Vec<u8>) -> (r: Vec<u8>)
    ensures
        r@ == spec_escape_slashes(s@),
{
    let n = s.len();
    let mut r: Vec<u8> = Vec::new();
    let mut i: usize = 0;
    proof {
        assert(s@.subrange(0, n as int) =~= s@);
        assert(Seq::<u8>::empty() + spec_escape_slashes(s@) =~= spec_escape_slashes(s@));
    }
    while i < n
        invariant
            0 <= i <= n,
            n == s@.len(),
            spec_escape_slashes(s@) == r@ + spec_escape_slashes(s@.subrange(i as int, n as int)),
        decreases n - i,
    {
        let ghost t = s@.subrange(i as int, n as int);
        proof {
            assert(t.subrange(1, t.len() as int) =~= s@.subrange(i + 1, n as int));
        }
        if s[i] == SLASH {
            proof {
                assert(r@ + (seq![BACKSLASH, SLASH] + spec_escape_slashes(
                    s@.subrange(i + 1, n as int),
                )) =~= (r@ + seq![BACKSLASH, SLASH]) + spec_escape_slashes(
                    s@.subrange(i + 1, n as int),
                ));
            }
            r.push(BACKSLASH);
            r.push(SLASH);
        } else {
            proof {
                assert(r@ + (seq![t[0]] + spec_escape_slashes(s@.subrange(i + 1, n as int))) =~= (
                r@ + seq![s@[i as int]]) + spec_escape_slashes(s@.subrange(i + 1, n as int)));
            }
            r.push(s[i]);
        }
        i += 1;
    }
    proof {
        assert(spec_escape_slashes(s@.subrange(n as int, n as int)) =~= Seq::<u8>::empty());
        assert(r@ + Seq::<u8>::empty() =~= r@);
    }
    r
}


/// The position of the first `://` in `s`, from `i` on, or the length of `s`.
pub open spec fn dslash_pos(s: Seq<u8>, i: int) -> int
    decreases s.len() - i,
{
    if i < 0 || i >= s.len() {
        s.len() as int
    } else if matches_at(s, i, lit_bytes("://")) {
        i
    } else {
        dslash_pos(s, i + 1)
    }
}

/// The position of the first `/` at or after `i`, or the length of `s`.
pub open spec fn slash_from(s: Seq<u8>, i: int) -> int
    decreases s.len() - i,
{
    if i < 0 || i >= s.len() {
        s.len() as int
    } else if s[i] == SLASH {
        i
    } else {
        slash_from(s, i + 1)
    }
}

/// The path part of a serialized URL without query or fragment: everything
/// from the first slash after the `://` separator.
pub open spec fn path_of_base(s: Seq<u8>) -> Seq<u8> {
    s.subrange(slash_from(s, dslash_pos(s, 0) + 3), s.len() as int)
}

/// `s` without its trailing slashes.
pub open spec fn strip_trailing_slashes(s: Seq<u8>) -> Seq<u8>
    decreases s.len(),
{
    if s.len() > 0 && s[s.len() - 1] == SLASH {
        strip_trailing_slashes(s.drop_last())
    } else {
        s
    }
}

/// The index of the last occurrence of `b` in `s`, or -1.
pub open spec fn last_index_of(s: Seq<u8>, b: u8) -> int
    decreases s.len(),
{
    if s.len() == 0 {
        -1
    } else if s[s.len() - 1] == b {
        s.len() - 1
    } else {
        last_index_of(s.drop_last(), b)
    }
}

proof fn lemma_last_index_of(t: Seq<u8>, b: u8)
    ensures
        -1 <= last_index_of(t, b) < t.len(),
        last_index_of(t, b) >= 0 ==> t[last_index_of(t, b)] == b,
        forall|k: int| last_index_of(t, b) < k < t.len() ==> t[k] != b,
    decreases t.len(),
{
    if t.len() == 0 {
    } else if t[t.len() - 1] == b {
    } else {
        lemma_last_index_of(t.drop_last(), b);
        assert forall|k: int| last_index_of(t, b) < k < t.len() implies t[k] != b by {
            if k < t.len() - 1 {
                assert(t.drop_last()[k] == t[k]);
            }
        }
    }
}

/// The file name the path ends with: the part of the path after the last
/// slash, trailing slashes ignored.
pub open spec fn file_segment(path: Seq<u8>) -> Seq<u8> {
    let t = strip_trailing_slashes(path);
    t.subrange(last_index_of(t, SLASH) + 1, t.len() as int)
}

/// The extension of the path's file name: the part after the last dot,
/// none when the name has no dot, starts with its only dot, or is `..`.
pub open spec fn spec_ext(path: Seq<u8>) -> Option<Seq<u8>> {
    let seg = file_segment(path);
    if seg == seq![DOT, DOT] {
        None
    } else {
        let d = last_index_of(seg, DOT);
        if d <= 0 {
            None
        } else {
            Some(seg.subrange(d + 1, seg.len() as int))
        }
    }
}

/// The suffix the cache file name carries: a dot and the extension of the
/// cache key URL's path, when that extension exists and has at most four
/// bytes; empty otherwise.
pub open spec fn ext_suffix_spec(base: Seq<u8>) -> Seq<u8> {
    match spec_ext(path_of_base(base)) {
        Some(e) => if e.len() <= 4 {
            seq![DOT] + e
        } else {
            Seq::empty()
        },
        None => Seq::empty(),
    }
}

fn dslash_pos_exec(s: &Vec<u8>) -> (r: usize)
    ensures
        r == dslash_pos(s@, 0),
        r <= s@.len(),
{
    let n = s.len();
    let p = lit_vec("://");
    let mut j: usize = 0;
    while j < n
        invariant
            0 <= j <= n,
            n == s@.len(),
            p@ == lit_bytes("://"),
            dslash_pos(s@, 0) == dslash_pos(s@, j as int),
        decreases n - j,
    {
        if bytes_match_at(s, j, &p) {
            return j;
        }
        j += 1;
    }
    j
}

fn slash_from_exec(s: &Vec<u8>, i: usize) -> (r: usize)
    ensures
        r == slash_from(s@, i as int),
        r <= s@.len(),
{
    let n = s.len();
    if i >= n {
        return n;
    }
    let mut j: usize = i;
    while j < n
        invariant
            i <= j <= n,
            n == s@.len(),
            slash_from(s@, i as int) == slash_from(s@, j as int),
        decreases n - j,
    {
        if s[j] == SLASH {
            return j;
        }
        j += 1;
    }
    j
}

/// The extension of a path's file name, if any: mirrors `spec_ext`.
pub fn path_ext(p: &Vec<u8>) -> (r: Option<Vec<u8>>)
    ensures
        (r is Some) == (spec_ext(p@) is Some),
        r is Some ==> (r->Some_0)@ == (spec_ext(p@)->Some_0),
{
    // Drop trailing slashes of the path.
    let m = p.len();
    let mut e: usize = m;
    let mut done = false;
    proof {
        assert(p@.subrange(0, m as int) =~= p@);
    }
    while e > 0 && !done
        invariant
            0 <= e <= m,
            m == p@.len(),
            strip_trailing_slashes(p@) == strip_trailing_slashes(p@.subrange(0, e as int)),
            done ==> e > 0 && p@[e - 1] != SLASH,
        decreases e + if done {
            0int
        } else {
            1int
        },
    {
        if p[e - 1] != SLASH {
            done = true;
        } else {
            proof {
                let t = p@.subrange(0, e as int);
                assert(t.drop_last() =~= p@.subrange(0, e - 1));
            }
            e -= 1;
        }
    }
    let ghost t = p@.subrange(0, e as int);
    proof {
        assert(strip_trailing_slashes(p@) == t);
    }
    // Find the start of the file name: one past the last slash before `e`.
    let mut d: usize = 0;
    let mut j: usize = 0;
    while j < e
        invariant
            0 <= d <= j <= e <= p@.len(),
            t == p@.subrange(0, e as int),
            d > 0 ==> p@[d - 1] == SLASH,
            forall|k: int| d <= k < j ==> p@[k] != SLASH,
        decreases e - j,
    {
        if p[j] == SLASH {
            d = j + 1;
        }
        j += 1;
    }
    proof {
        lemma_last_index_of(t, SLASH);
        assert forall|k: int| d <= k < e implies t[k] != SLASH by {
            assert(t[k] == p@[k]);
        }
        if d > 0 {
            assert(t[d - 1] == p@[d - 1]);
        }
        assert(last_index_of(t, SLASH) == d - 1) by {
            if last_index_of(t, SLASH) > d - 1 {
                assert(t[last_index_of(t, SLASH)] == SLASH);
            }
            if last_index_of(t, SLASH) < d - 1 {
                assert(t[d - 1] != SLASH);
            }
        }
        assert(file_segment(p@) =~= p@.subrange(d as int, e as int));
    }
    let ghost seg = file_segment(p@);
    // The names `.` and `..` have no extension.
    if e - d == 2 && p[d] == DOT && p[d + 1] == DOT {
        proof {
            assert(seg =~= seq![DOT, DOT]);
        }
        return None;
    }
    proof {
        assert(seg != seq![DOT, DOT]) by {
            if seg =~= seq![DOT, DOT] {
                assert(p@[d as int] == seg[0]);
                assert(p@[d + 1] == seg[1]);
            }
        }
    }
    // Find the last dot of the file name.
    let mut q: usize = d;
    let mut j2: usize = d;
    while j2 < e
        invariant
            d <= q <= j2 <= e <= p@.len(),
            seg == p@.subrange(d as int, e as int),
            q > d ==> p@[q - 1] == DOT,
            forall|k: int| q <= k < j2 ==> p@[k] != DOT,
        decreases e - j2,
    {
        if p[j2] == DOT {
            q = j2 + 1;
        }
        j2 += 1;
    }
    proof {
        lemma_last_index_of(seg, DOT);
        assert forall|k: int| q - d <= k < e - d implies seg[k] != DOT by {
            assert(seg[k] == p@[d + k]);
        }
        if q > d {
            assert(seg[q - d - 1] == p@[q - 1]);
        }
        assert(last_index_of(seg, DOT) == q - d - 1) by {
            if last_index_of(seg, DOT) > q - d - 1 {
                assert(seg[last_index_of(seg, DOT)] == DOT);
            }
            if last_index_of(seg, DOT) < q - d - 1 {
                assert(seg[q - d - 1] != DOT);
            }
        }
    }
    if q <= d + 1 {
        // No dot, or the name starts with its only dot.
        return None;
    }
    let ext = crate::bytes::copy_range(p, q, e);
    proof {
        assert(seg.subrange(q - d, seg.len() as int) =~= p@.subrange(q as int, e as int));
    }
    Some(ext)
}

/// The dot-and-extension suffix of the cache file name for this cache key
/// URL, possibly empty.
pub fn ext_suffix(base: &Vec<u8>) -> (r: Vec<u8>)
    ensures
        r@ == ext_suffix_spec(base@),
{
    let n = base.len();
    let ds = dslash_pos_exec(base);
    let i0 = if n - ds < 3 {
        n
    } else {
        ds + 3
    };
    let ps = slash_from_exec(base, i0);
    let p = crate::bytes::copy_range(base, ps, n);
    proof {
        assert(p@ =~= path_of_base(base@));
    }
    match path_ext(&p) {
        Some(ext) => {
            if ext.len() <= 4 {
                let mut r: Vec<u8> = Vec::new();
                r.push(DOT);
                push_all(&mut r, &ext);
                proof {
                    assert(r@ =~= ext_suffix_spec(base@));
                }
                r
            } else {
                Vec::new()
            }
        },
        None => Vec::new(),
    }
}

/// The cache key URL of a raw captured URL value.
pub open spec fn spec_base_of(raw: Seq<u8>) -> Seq<u8> {
    url_base_of(spec_unescape(raw))
}

/// The on-disk cache path a cache key URL maps to: `content/`, the first
/// three hex digits of the key's SHA-1 digest, a slash, the remaining
/// thirty-seven digits, and the key path's short extension if any.
pub open spec fn cache_path_of_base(base: Seq<u8>) -> Seq<u8> {
    lit_bytes("content/") + sha1_hex_of(base).subrange(0, 3) + seq![SLASH] + sha1_hex_of(
        base,
    ).subrange(3, 40) + ext_suffix_spec(base)
}

/// The cache path of a raw captured URL value.
pub open spec fn spec_cache_path(raw: Seq<u8>) -> Seq<u8> {
    cache_path_of_base(spec_base_of(raw))
}

/// The replacement for a captured URL value, quotes included: the cache
/// path with slashes re-escaped, a `#`, and the percent-encoded cache key.
pub open spec fn spec_fragment(raw: Seq<u8>) -> Seq<u8> {
    seq![QUOTE] + spec_escape_slashes(spec_cache_path(raw)) + seq![HASH] + spec_percent_encode(
        spec_base_of(raw),
    ) + seq![QUOTE]
}

/// Builds the cache path for a cache key URL.
pub fn cache_path(base: &Vec<u8>) -> (r: Vec<u8>)
    ensures
        r@ == cache_path_of_base(base@),
{
    let h = sha1_hex(base);
    let mut r = lit_vec("content/");
    push_range(&mut r, &h, 0, 3);
    r.push(SLASH);
    push_range(&mut r, &h, 3, 40);
    let sfx = ext_suffix(base);
    push_all(&mut r, &sfx);
    proof {
        assert(r@ =~= cache_path_of_base(base@));
    }
    r
}

/// What the resolver decides for one captured URL: the replacement text,
/// the cache path the content lives under, and the URL to fetch if the
/// cache file is newly created.
#[derive(Debug)]
pub struct Resolution {
    pub fragment: Vec<u8>,
    pub cache_path: Vec<u8>,
    pub request_url: Vec<u8>,
}

/// Resolves one captured URL value (JSON-escaped form) to its replacement
/// fragment, cache path and request URL. Fails exactly when the unescaped
/// value does not parse as a URL.
pub fn resolve(raw: &Vec<u8>) -> (r: Result<Resolution, ArchiveError>)
    ensures
        (r is Ok) == url_parses(spec_unescape(raw@)),
        r is Ok ==> (r->Ok_0).fragment@ == spec_fragment(raw@),
        r is Ok ==> (r->Ok_0).cache_path@ == spec_cache_path(raw@),
        r is Ok ==> (r->Ok_0).request_url@ == url_request_of(spec_unescape(raw@)),
        r is Err ==> r->Err_0 == ArchiveError::UrlParse,
{
    let un = unescape(raw);
    let parts = match split_url(&un) {
        Some(p) => p,
        None => {
            return Err(ArchiveError::UrlParse);
        },
    };
    let path = cache_path(&parts.base);
    let mut frag: Vec<u8> = Vec::new();
    frag.push(QUOTE);
    let esc = escape_slashes(&path);
    push_all(&mut frag, &esc);
    frag.push(HASH);
    let enc = percent_encode(&parts.base);
    push_all(&mut frag, &enc);
    frag.push(QUOTE);
    proof {
        assert(frag@ =~= spec_fragment(raw@));
    }
    Ok(Resolution { fragment: frag, cache_path: path, request_url: parts.request })
}

/// Law: the cache path depends on the cache key URL alone. Two captured
/// URLs whose unescaped forms share a cache key (for instance, two URLs
/// identical but for their query strings) map to the same cache path, and
/// their replacement fragments are equal as well.
pub proof fn lemma_cache_key_determines_path(raw1: Seq<u8>, raw2: Seq<u8>)
    requires
        spec_base_of(raw1) == spec_base_of(raw2),
    ensures
        spec_cache_path(raw1) == spec_cache_path(raw2),
        spec_fragment(raw1) == spec_fragment(raw2),
{
}

} // verus!
