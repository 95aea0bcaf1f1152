use vstd::prelude::*;

use crate::bytes::{
    bytes_match_at, is_word_byte, lit_bytes, lit_vec, matches_at, word_byte, BACKSLASH, COLON, DOT,
    LF, QUOTE, SLASH, SPACE,
};

verus! {

// A line is scanned for quoted `"field": "url"` pairs whose URL uses the
// JSON-escaped form `https:\/\/host\/...` and whose host is one of the
// recognised hosting domains, optionally below one extra subdomain label.

/// Positions of one recognised pair, at the mathematical level.
/// `field_start..field_end` is the field name; `url_start..url_end` is the
/// captured URL value; the byte at `url_end` is its closing quote.
pub ghost struct MatchPos {
    pub field_start: int,
    pub field_end: int,
    pub url_start: int,
    pub url_end: int,
}

/// Positions of one recognised pair, as held by executable code.
#[derive(Clone, Copy)]
pub struct LinkMatch {
    pub field_start: usize,
    pub field_end: usize,
    pub url_start: usize,
    pub url_end: usize,
}

impl View for LinkMatch {
    type V = MatchPos;

    open spec fn view(&self) -> MatchPos {
        MatchPos {
            field_start: self.field_start as int,
            field_end: self.field_end as int,
            url_start: self.url_start as int,
            url_end: self.url_end as int,
        }
    }
}

/// The end of the run of word bytes that starts at `i`: the least index at or
/// after `i` that is out of range or holds a non-word byte.
pub open spec fn word_run_end(s: Seq<u8>, i: int) -> int
    decreases s.len() - i,
{
    if i < 0 || i >= s.len() || !is_word_byte(s[i]) {
        i
    } else {
        word_run_end(s, i + 1)
    }
}

/// The least index at or after `i` holding a quote or a line feed, or the
/// length of `s` if there is none.
pub open spec fn find_stop(s: Seq<u8>, i: int) -> int
    decreases s.len() - i,
{
    if i < 0 || i >= s.len() {
        s.len() as int
    } else if s[i] == QUOTE || s[i] == LF {
        i
    } else {
        find_stop(s, i + 1)
    }
}

/// The escaped slash `\/` as it stands in the JSON text.
pub open spec fn esc_slash() -> Seq<u8> {
    seq![BACKSLASH, SLASH]
}

/// Two escaped slashes, the `\/\/` after the URL scheme.
pub open spec fn esc_slash2() -> Seq<u8> {
    seq![BACKSLASH, SLASH, BACKSLASH, SLASH]
}

/// Length of the recognised `<domain>.com` suffix starting at `i`, or -1.
pub open spec fn host_tail_len(s: Seq<u8>, i: int) -> int {
    if matches_at(s, i, lit_bytes("slack-files.com")) {
        lit_bytes("slack-files.com").len() as int
    } else if matches_at(s, i, lit_bytes("slack-edge.com")) {
        lit_bytes("slack-edge.com").len() as int
    } else if matches_at(s, i, lit_bytes("files.slack.com")) {
        lit_bytes("files.slack.com").len() as int
    } else if matches_at(s, i, lit_bytes("gravatar.com")) {
        lit_bytes("gravatar.com").len() as int
    } else {
        -1
    }
}

/// Length of a whole allowed host starting at `i`: an optional single
/// subdomain label and dot, then a recognised domain under `.com`; -1 when
/// no allowed host starts there.
pub open spec fn host_len(s: Seq<u8>, i: int) -> int {
    let w = word_run_end(s, i);
    if w > i && w < s.len() && s[w] == DOT && host_tail_len(s, w + 1) >= 0 {
        w + 1 + host_tail_len(s, w + 1) - i
    } else if host_tail_len(s, i) >= 0 {
        host_tail_len(s, i)
    } else {
        -1
    }
}

/// Length of the URL scheme prefix `http:` or `https:` at `i`, or -1.
pub open spec fn scheme_len(s: Seq<u8>, i: int) -> int {
    if matches_at(s, i, lit_bytes("https:")) {
        lit_bytes("https:").len() as int
    } else if matches_at(s, i, lit_bytes("http:")) {
        lit_bytes("http:").len() as int
    } else {
        -1
    }
}

/// The pair recognised at position `i` (the opening quote of the field name),
/// or None. The captured URL runs to the first following quote, must not
/// cross a line feed, and must have at least one byte after the host.
pub open spec fn spec_match_at(s: Seq<u8>, i: int) -> Option<MatchPos> {
    let fs = i + 1;
    let fe = word_run_end(s, fs);
    if !(0 <= i && i < s.len() && s[i] == QUOTE && fe > fs && fe + 1 < s.len() && s[fe] == QUOTE
        && s[fe + 1] == COLON) {
        None
    } else {
        let vs = if fe + 2 < s.len() && s[fe + 2] == SPACE {
            fe + 3
        } else {
            fe + 2
        };
        if !(vs < s.len() && s[vs] == QUOTE) {
            None
        } else {
            let u0 = vs + 1;
            let sl = scheme_len(s, u0);
            if !(sl >= 0 && matches_at(s, u0 + sl, esc_slash2())) {
                None
            } else {
                let h = u0 + sl + 4;
                let hl = host_len(s, h);
                if !(hl >= 0 && matches_at(s, h + hl, esc_slash())) {
                    None
                } else {
                    let rs = h + hl + 2;
                    let qe = find_stop(s, rs);
                    if qe < s.len() && s[qe] == QUOTE && qe > rs {
                        Some(MatchPos { field_start: fs, field_end: fe, url_start: u0, url_end: qe })
                    } else {
                        None
                    }
                }
            }
        }
    }
}

/// All pairs recognised from position `i` on, leftmost first and
/// non-overlapping: after a pair the scan resumes past its closing quote.
pub open spec fn spec_scan(s: Seq<u8>, i: int) -> Seq<MatchPos>
    decreases s.len() - i,
{
    if i < 0 || i >= s.len() {
        Seq::empty()
    } else {
        match spec_match_at(s, i) {
            Some(m) => seq![m] + spec_scan(s, m.url_end + 1),
            None => spec_scan(s, i + 1),
        }
    }
}

/// The positions any recognised pair list satisfies: each span is in bounds
/// and the pairs stand left to right without overlap.
pub open spec fn scan_wf(s: Seq<u8>, ms: Seq<MatchPos>) -> bool {
    &&& forall|k: int|
        0 <= k < ms.len() ==> {
            &&& 1 <= #[trigger] ms[k].field_start < ms[k].field_end
            &&& ms[k].field_end + 3 <= ms[k].url_start
            &&& ms[k].url_start < ms[k].url_end < s.len()
            &&& s[ms[k].url_end] == QUOTE
        }
    &&& forall|k: int| 0 < k < ms.len() ==> #[trigger] ms[k].field_start > ms[k - 1].url_end + 1
}

/// Every recognised pair list is well formed in the sense of `scan_wf`.
pub proof fn lemma_scan_props(s: Seq<u8>, i: int)
    ensures
        scan_wf(s, spec_scan(s, i)),
        spec_scan(s, i).len() > 0 ==> spec_scan(s, i)[0].field_start > i,
    decreases s.len() - i,
{
    if i < 0 || i >= s.len() {
    } else {
        match spec_match_at(s, i) {
            Some(m) => {
                lemma_scan_props(s, m.url_end + 1);
            },
            None => {
                lemma_scan_props(s, i + 1);
            },
        }
    }
}

/// The end of the word run starting at `i`.
pub fn word_run_end_exec(s: &Vec<u8>, i: usize) -> (r: usize)
    requires
        i <= s@.len(),
    ensures
        r == word_run_end(s@, i as int),
        i <= r <= s@.len(),
{
    let n = s.len();
    let mut j = i;
    while j < n
        invariant
            i <= j <= n,
            n == s@.len(),
            word_run_end(s@, i as int) == word_run_end(s@, j as int),
        decreases n - j,
    {
        if !word_byte(s[j]) {
            return j;
        }
        j += 1;
    }
    j
}

/// The first quote or line feed at or after `i`, or the length of `s`.
pub fn find_stop_exec(s: &Vec<u8>, i: usize) -> (r: usize)
    requires
        i <= s@.len(),
    ensures
        r == find_stop(s@, i as int),
        i <= r <= s@.len(),
{
    let n = s.len();
    let mut j = i;
    while j < n
        invariant
            i <= j <= n,
            n == s@.len(),
            find_stop(s@, i as int) == find_stop(s@, j as int),
        decreases n - j,
    {
        if s[j] == QUOTE || s[j] == LF {
            return j;
        }
        j += 1;
    }
    j
}

fn host_tail_exec(s: &Vec<u8>, i: usize) -> (r: Option<usize>)
    ensures
        (r is Some) == (host_tail_len(s@, i as int) >= 0),
        r is Some ==> r->Some_0 == host_tail_len(s@, i as int) && i + r->Some_0 <= s@.len(),
{
    let p = lit_vec("slack-files.com");
    if bytes_match_at(s, i, &p) {
        return Some(p.len());
    }
    let p = lit_vec("slack-edge.com");
    if bytes_match_at(s, i, &p) {
        return Some(p.len());
    }
    let p = lit_vec("files.slack.com");
    if bytes_match_at(s, i, &p) {
        return Some(p.len());
    }
    let p = lit_vec("gravatar.com");
    if bytes_match_at(s, i, &p) {
        return Some(p.len());
    }
    None
}

fn host_len_exec(s: &Vec<u8>, i: usize) -> (r: Option<usize>)
    requires
        i <= s@.len(),
    ensures
        (r is Some) == (host_len(s@, i as int) >= 0),
        r is Some ==> r->Some_0 == host_len(s@, i as int) && i + r->Some_0 <= s@.len(),
{
    let n = s.len();
    let w = word_run_end_exec(s, i);
    if w > i && w < n && s[w] == DOT {
        if let Some(t) = host_tail_exec(s, w + 1) {
            return Some(w + 1 + t - i);
        }
    }
    host_tail_exec(s, i)
}

fn scheme_len_exec(s: &Vec<u8>, i: usize) -> (r: Option<usize>)
    ensures
        (r is Some) == (scheme_len(s@, i as int) >= 0),
        r is Some ==> r->Some_0 == scheme_len(s@, i as int) && i + r->Some_0 <= s@.len(),
{
    let p = lit_vec("https:");
    if bytes_match_at(s, i, &p) {
        return Some(p.len());
    }
    let p = lit_vec("http:");
    if bytes_match_at(s, i, &p) {
        return Some(p.len());
    }
    None
}

fn esc_slash_vec() -> (v: Vec<u8>)
    ensures
        v@ == esc_slash(),
{
    let mut v: Vec<u8> = Vec::new();
    v.push(BACKSLASH);
    v.push(SLASH);
    assert(v@ =~= esc_slash());
    v
}

fn esc_slash2_vec() -> (v: Vec<u8>)
    ensures
        v@ == esc_slash2(),
{
    let mut v: Vec<u8> = Vec::new();
    v.push(BACKSLASH);
    v.push(SLASH);
    v.push(BACKSLASH);
    v.push(SLASH);
    assert(v@ =~= esc_slash2());
    v
}

fn match_at_exec(s: &Vec<u8>, i: usize) -> (r: Option<LinkMatch>)
    requires
        i < s@.len(),
    ensures
        (r is Some) == (spec_match_at(s@, i as int) is Some),
        r is Some ==> r->Some_0@ == spec_match_at(s@, i as int)->Some_0,
{
    let n = s.len();
    if s[i] != QUOTE {
        return None;
    }
    let fs = i + 1;
    let fe = word_run_end_exec(s, fs);
    if !(fe > fs) {
        return None;
    }
    if n - fe < 2 {
        return None;
    }
    if s[fe] != QUOTE || s[fe + 1] != COLON {
        return None;
    }
    let vs = if fe + 2 < n && s[fe + 2] == SPACE {
        fe + 3
    } else {
        fe + 2
    };
    if vs >= n || s[vs] != QUOTE {
        return None;
    }
    let u0 = vs + 1;
    let sl = match scheme_len_exec(s, u0) {
        Some(v) => v,
        None => {
            return None;
        },
    };
    let e0 = u0 + sl;
    let esc2 = esc_slash2_vec();
    if !bytes_match_at(s, e0, &esc2) {
        return None;
    }
    let h = e0 + 4;
    let hl = match host_len_exec(s, h) {
        Some(v) => v,
        None => {
            return None;
        },
    };
    let he = h + hl;
    let esc1 = esc_slash_vec();
    if !bytes_match_at(s, he, &esc1) {
        return None;
    }
    let rs = he + 2;
    let qe = find_stop_exec(s, rs);
    if qe >= n || s[qe] != QUOTE || qe <= rs {
        return None;
    }
    Some(LinkMatch { field_start: fs, field_end: fe, url_start: u0, url_end: qe })
}

/// The pair list a vector of executable matches stands for.
pub open spec fn views_of(ms: Seq<LinkMatch>) -> Seq<MatchPos> {
    ms.map_values(|m: LinkMatch| m@)
}

/// Finds every recognised field/URL pair of the line, leftmost first.
pub fn scan_line(s: &Vec<u8>) -> (r: Vec<LinkMatch>)
    ensures
        views_of(r@) == spec_scan(s@, 0),
        scan_wf(s@, views_of(r@)),
{
    let n = s.len();
    let mut r: Vec<LinkMatch> = Vec::new();
    let mut i: usize = 0;
    while i < n
        invariant
            0 <= i <= n,
            n == s@.len(),
            spec_scan(s@, 0) == views_of(r@) + spec_scan(s@, i as int),
        decreases n - i,
    {
        match match_at_exec(s, i) {
            Some(m) => {
                let next = m.url_end + 1;
                proof {
                    assert(spec_scan(s@, i as int) == seq![m@] + spec_scan(s@, m.url_end + 1));
                    assert(views_of(r@.push(m)) =~= views_of(r@) + seq![m@]);
                    assert(views_of(r@) + (seq![m@] + spec_scan(s@, m.url_end + 1)) =~= (views_of(
                        r@,
                    ) + seq![m@]) + spec_scan(s@, m.url_end + 1));
                }
                r.push(m);
                i = next;
            },
            None => {
                i += 1;
            },
        }
    }
    proof {
        assert(spec_scan(s@, i as int) =~= Seq::<MatchPos>::empty());
        assert(views_of(r@) + Seq::<MatchPos>::empty() =~= views_of(r@));
        lemma_scan_props(s@, 0);
    }
    r
}

} // verus!
