use vstd::prelude::*;

use crate::bytes::{bytes_eq, copy_range, lit_bytes, lit_vec, push_all, push_range};
use crate::resolve::{
    resolve, spec_cache_path, spec_fragment, spec_unescape, url_parses, url_request_of,
};
use crate::scan::{lemma_scan_props, scan_line, scan_wf, spec_scan, views_of, MatchPos};
use crate::ArchiveError;

verus! {

// The field-aware line rewriter. Every recognised `"field": "url"` pair of a
// line is either copied through verbatim (fields on the fixed keep-list of
// thumbnail and permalink names) or has its URL value replaced by the
// resolver's fragment; the text between pairs is copied verbatim.

/// The field names whose URLs are left untouched.
pub open spec fn is_skip_name(f: Seq<u8>) -> bool {
    ||| f == lit_bytes("url_private")
    ||| f == lit_bytes("permalink")
    ||| f == lit_bytes("permalink_public")
    ||| f == lit_bytes("from_url")
    ||| f == lit_bytes("thumb_64")
    ||| f == lit_bytes("thumb_80")
    ||| f == lit_bytes("thumb_160")
    ||| f == lit_bytes("thumb_360")
    ||| f == lit_bytes("thumb_480")
    ||| f == lit_bytes("thumb_720")
    ||| f == lit_bytes("thumb_800")
    ||| f == lit_bytes("thumb_960")
    ||| f == lit_bytes("thumb_1024")
    ||| f == lit_bytes("image_24")
    ||| f == lit_bytes("image_32")
    ||| f == lit_bytes("image_48")
    ||| f == lit_bytes("image_72")
    ||| f == lit_bytes("image_192")
    ||| f == lit_bytes("image_512")
    ||| f == lit_bytes("image_1024")
}

/// Whether this field name is kept verbatim.
pub fn is_skip_field(f: &Vec<u8>) -> (r: bool)
    ensures
        r == is_skip_name(f@),
{
    bytes_eq(f, &lit_vec("url_private")) || bytes_eq(f, &lit_vec("permalink")) || bytes_eq(
        f,
        &lit_vec("permalink_public"),
    ) || bytes_eq(f, &lit_vec("from_url")) || bytes_eq(f, &lit_vec("thumb_64")) || bytes_eq(
        f,
        &lit_vec("thumb_80"),
    ) || bytes_eq(f, &lit_vec("thumb_160")) || bytes_eq(f, &lit_vec("thumb_360")) || bytes_eq(
        f,
        &lit_vec("thumb_480"),
    ) || bytes_eq(f, &lit_vec("thumb_720")) || bytes_eq(f, &lit_vec("thumb_800")) || bytes_eq(
        f,
        &lit_vec("thumb_960"),
    ) || bytes_eq(f, &lit_vec("thumb_1024")) || bytes_eq(f, &lit_vec("image_24")) || bytes_eq(
        f,
        &lit_vec("image_32"),
    ) || bytes_eq(f, &lit_vec("image_48")) || bytes_eq(f, &lit_vec("image_72")) || bytes_eq(
        f,
        &lit_vec("image_192"),
    ) || bytes_eq(f, &lit_vec("image_512")) || bytes_eq(f, &lit_vec("image_1024"))
}

/// The field name a match captures.
pub open spec fn field_of(s: Seq<u8>, m: MatchPos) -> Seq<u8> {
    s.subrange(m.field_start, m.field_end)
}

/// The URL value a match captures.
pub open spec fn url_of(s: Seq<u8>, m: MatchPos) -> Seq<u8> {
    s.subrange(m.url_start, m.url_end)
}

/// One pending download, at the mathematical level.
pub ghost struct JobSpec {
    pub cache_path: Seq<u8>,
    pub request_url: Seq<u8>,
}

/// One pending download: the cache path to create and the URL to fetch.
#[derive(Debug)]
pub struct FetchJob {
    pub cache_path: Vec<u8>,
    pub request_url: Vec<u8>,
}

impl View for FetchJob {
    type V = JobSpec;

    open spec fn view(&self) -> JobSpec {
        JobSpec { cache_path: self.cache_path@, request_url: self.request_url@ }
    }
}

/// The job list a vector of executable jobs stands for.
pub open spec fn job_views(js: Seq<FetchJob>) -> Seq<JobSpec> {
    js.map_values(|j: FetchJob| j@)
}

/// The rewritten tail of the line, from match `k` on, the text before
/// offset `off` already emitted: pairs with kept field names are copied
/// verbatim, every other pair has its quoted URL value replaced by the
/// resolver's fragment, and the text between pairs is copied verbatim.
pub open spec fn spec_rewrite_from(s: Seq<u8>, ms: Seq<MatchPos>, k: int, off: int) -> Seq<u8>
    decreases ms.len() - k,
{
    if k < 0 || k >= ms.len() {
        s.subrange(off, s.len() as int)
    } else {
        let m = ms[k];
        if is_skip_name(field_of(s, m)) {
            s.subrange(off, m.url_end + 1) + spec_rewrite_from(s, ms, k + 1, m.url_end + 1)
        } else {
            s.subrange(off, m.url_start - 1) + spec_fragment(url_of(s, m)) + spec_rewrite_from(
                s,
                ms,
                k + 1,
                m.url_end + 1,
            )
        }
    }
}

/// The downloads the matches from `k` on call for, in match order.
pub open spec fn spec_jobs_from(s: Seq<u8>, ms: Seq<MatchPos>, k: int) -> Seq<JobSpec>
    decreases ms.len() - k,
{
    if k < 0 || k >= ms.len() {
        Seq::empty()
    } else if is_skip_name(field_of(s, ms[k])) {
        spec_jobs_from(s, ms, k + 1)
    } else {
        seq![
            JobSpec {
                cache_path: spec_cache_path(url_of(s, ms[k])),
                request_url: url_request_of(spec_unescape(url_of(s, ms[k]))),
            },
        ] + spec_jobs_from(s, ms, k + 1)
    }
}

/// The whole rewritten line.
pub open spec fn spec_rewritten(s: Seq<u8>) -> Seq<u8> {
    spec_rewrite_from(s, spec_scan(s, 0), 0, 0)
}

/// All downloads the line calls for.
pub open spec fn spec_line_jobs(s: Seq<u8>) -> Seq<JobSpec> {
    spec_jobs_from(s, spec_scan(s, 0), 0)
}

/// Whether every rewritten pair's URL parses: exactly when this holds the
/// line is processed successfully.
pub open spec fn spec_line_ok(s: Seq<u8>) -> bool {
    forall|k: int|
        0 <= k < spec_scan(s, 0).len() ==> {
            is_skip_name(field_of(s, #[trigger] spec_scan(s, 0)[k])) || url_parses(
                spec_unescape(url_of(s, spec_scan(s, 0)[k])),
            )
        }
}

/// A processed line: its rewritten text and the downloads it calls for.
#[derive(Debug)]
pub struct LineOutcome {
    pub text: Vec<u8>,
    pub jobs: Vec<FetchJob>,
}

/// Rewrites one line. Fails with the URL-parse error exactly when some
/// rewritten pair's unescaped URL does not parse; a line without any
/// recognised pair comes back unchanged with nothing to download.
pub fn process_line(line: &Vec<u8>) -> (r: Result<LineOutcome, ArchiveError>)
    ensures
        (r is Ok) == spec_line_ok(line@),
        r is Ok ==> (r->Ok_0).text@ == spec_rewritten(line@),
        r is Ok ==> job_views((r->Ok_0).jobs@) == spec_line_jobs(line@),
        r is Err ==> r->Err_0 == ArchiveError::UrlParse,
        spec_scan(line@, 0).len() == 0 ==> r is Ok && (r->Ok_0).text@ == line@ && (
        r->Ok_0).jobs@.len() == 0,
{
    let ms = scan_line(line);
    let ghost mv = views_of(ms@);
    let n = line.len();
    let mut out: Vec<u8> = Vec::new();
    let mut jobs: Vec<FetchJob> = Vec::new();
    let mut off: usize = 0;
    let mut k: usize = 0;
    proof {
        assert(job_views(jobs@) =~= Seq::<JobSpec>::empty());
        assert(Seq::<JobSpec>::empty() + spec_jobs_from(line@, mv, 0) =~= spec_jobs_from(
            line@,
            mv,
            0,
        ));
        assert(Seq::<u8>::empty() + spec_rewrite_from(line@, mv, 0, 0) =~= spec_rewrite_from(
            line@,
            mv,
            0,
            0,
        ));
    }
    while k < ms.len()
        invariant
            mv == views_of(ms@),
            mv == spec_scan(line@, 0),
            scan_wf(line@, mv),
            n == line@.len(),
            0 <= k <= mv.len(),
            ms@.len() == mv.len(),
            off == if k == 0 {
                0int
            } else {
                mv[k - 1].url_end + 1
            },
            off <= n,
            spec_rewritten(line@) == out@ + spec_rewrite_from(line@, mv, k as int, off as int),
            spec_line_jobs(line@) == job_views(jobs@) + spec_jobs_from(line@, mv, k as int),
            forall|j: int|
                0 <= j < k ==> is_skip_name(field_of(line@, #[trigger] mv[j])) || url_parses(
                    spec_unescape(url_of(line@, mv[j])),
                ),
        decreases ms@.len() - k,
    {
        let m = ms[k];
        proof {
            assert(mv[k as int] == ms@[k as int]@);
        }
        let field = copy_range(line, m.field_start, m.field_end);
        if is_skip_field(&field) {
            let ghost out0 = out@;
            push_range(&mut out, line, off, m.url_end + 1);
            proof {
                assert(out0 + (line@.subrange(off as int, m.url_end + 1) + spec_rewrite_from(
                    line@,
                    mv,
                    k + 1,
                    m.url_end + 1,
                )) =~= (out0 + line@.subrange(off as int, m.url_end + 1)) + spec_rewrite_from(
                    line@,
                    mv,
                    k + 1,
                    m.url_end + 1,
                ));
            }
            off = m.url_end + 1;
            k += 1;
        } else {
            let url = copy_range(line, m.url_start, m.url_end);
            match resolve(&url) {
                Ok(res) => {
                    let ghost out0 = out@;
                    push_range(&mut out, line, off, m.url_start - 1);
                    push_all(&mut out, &res.fragment);
                    proof {
                        assert(out0 + (line@.subrange(off as int, m.url_start - 1) + spec_fragment(
                            url_of(line@, mv[k as int]),
                        ) + spec_rewrite_from(line@, mv, k + 1, m.url_end + 1)) =~= ((out0
                            + line@.subrange(off as int, m.url_start - 1)) + spec_fragment(
                            url_of(line@, mv[k as int]),
                        )) + spec_rewrite_from(line@, mv, k + 1, m.url_end + 1));
                    }
                    let job = FetchJob { cache_path: res.cache_path, request_url: res.request_url };
                    proof {
                        assert(job_views(jobs@.push(job)) =~= job_views(jobs@) + seq![job@]);
                        assert(job_views(jobs@) + (seq![job@] + spec_jobs_from(
                            line@,
                            mv,
                            k + 1,
                        )) =~= (job_views(jobs@) + seq![job@]) + spec_jobs_from(line@, mv, k + 1));
                    }
                    jobs.push(job);
                    off = m.url_end + 1;
                    k += 1;
                },
                Err(e) => {
                    proof {
                        assert(!(is_skip_name(field_of(line@, mv[k as int])) || url_parses(
                            spec_unescape(url_of(line@, mv[k as int])),
                        )));
                    }
                    return Err(e);
                },
            }
        }
    }
    push_range(&mut out, line, off, n);
    proof {
        assert(spec_rewrite_from(line@, mv, k as int, off as int) == line@.subrange(
            off as int,
            n as int,
        ));
        if spec_scan(line@, 0).len() == 0 {
            assert(line@.subrange(0, n as int) =~= line@);
        }
    }
    Ok(LineOutcome { text: out, jobs })
}

/// Law: a line in which nothing matches is left exactly as it is, and
/// calls for no download.
pub proof fn lemma_no_match_line_unchanged(s: Seq<u8>)
    requires
        spec_scan(s, 0).len() == 0,
    ensures
        spec_rewritten(s) == s,
        spec_line_jobs(s) == Seq::<JobSpec>::empty(),
{
    assert(s.subrange(0, s.len() as int) =~= s);
}

proof fn lemma_rewrite_all_skip(s: Seq<u8>, ms: Seq<MatchPos>, k: int, off: int)
    requires
        scan_wf(s, ms),
        forall|j: int| 0 <= j < ms.len() ==> is_skip_name(field_of(s, #[trigger] ms[j])),
        0 <= k,
        0 <= off <= s.len(),
        k < ms.len() ==> off <= ms[k].url_end + 1,
    ensures
        spec_rewrite_from(s, ms, k, off) == s.subrange(off, s.len() as int),
        spec_jobs_from(s, ms, k) == Seq::<JobSpec>::empty(),
    decreases ms.len() - k,
{
    if k >= ms.len() {
    } else {
        let m = ms[k];
        lemma_rewrite_all_skip(s, ms, k + 1, m.url_end + 1);
        assert(s.subrange(off, m.url_end + 1) + s.subrange(m.url_end + 1, s.len() as int)
            =~= s.subrange(off, s.len() as int));
    }
}

/// Law: a line whose every match carries a kept field name is left exactly
/// as it is, and calls for no download.
pub proof fn lemma_allow_listed_pass_through(s: Seq<u8>)
    requires
        forall|k: int|
            0 <= k < spec_scan(s, 0).len() ==> is_skip_name(
                field_of(s, #[trigger] spec_scan(s, 0)[k]),
            ),
    ensures
        spec_rewritten(s) == s,
        spec_line_jobs(s) == Seq::<JobSpec>::empty(),
{
    lemma_scan_props(s, 0);
    lemma_rewrite_all_skip(s, spec_scan(s, 0), 0, 0);
    assert(s.subrange(0, s.len() as int) =~= s);
}

/// Law: on a line with three matches where the middle field is kept and the
/// outer two are not, the output is exactly the original text outside the
/// two rewritten value spans, with only those two quoted values replaced by
/// their fragments, and exactly those two downloads are called for.
pub proof fn lemma_interleaved_reassembly(s: Seq<u8>)
    requires
        spec_scan(s, 0).len() == 3,
        !is_skip_name(field_of(s, spec_scan(s, 0)[0])),
        is_skip_name(field_of(s, spec_scan(s, 0)[1])),
        !is_skip_name(field_of(s, spec_scan(s, 0)[2])),
    ensures
        ({
            let ms = spec_scan(s, 0);
            spec_rewritten(s) == s.subrange(0, ms[0].url_start - 1) + spec_fragment(
                url_of(s, ms[0]),
            ) + s.subrange(ms[0].url_end + 1, ms[1].url_end + 1) + s.subrange(
                ms[1].url_end + 1,
                ms[2].url_start - 1,
            ) + spec_fragment(url_of(s, ms[2])) + s.subrange(ms[2].url_end + 1, s.len() as int)
        }),
        ({
            let ms = spec_scan(s, 0);
            spec_line_jobs(s) == seq![
                JobSpec {
                    cache_path: spec_cache_path(url_of(s, ms[0])),
                    request_url: url_request_of(spec_unescape(url_of(s, ms[0]))),
                },
                JobSpec {
                    cache_path: spec_cache_path(url_of(s, ms[2])),
                    request_url: url_request_of(spec_unescape(url_of(s, ms[2]))),
                },
            ]
        }),
{
    reveal_with_fuel(spec_rewrite_from, 5);
    reveal_with_fuel(spec_jobs_from, 5);
    let ms = spec_scan(s, 0);
    assert(spec_rewrite_from(s, ms, 3, ms[2].url_end + 1) == s.subrange(
        ms[2].url_end + 1,
        s.len() as int,
    ));
    assert(spec_rewritten(s) =~= s.subrange(0, ms[0].url_start - 1) + spec_fragment(
        url_of(s, ms[0]),
    ) + s.subrange(ms[0].url_end + 1, ms[1].url_end + 1) + s.subrange(
        ms[1].url_end + 1,
        ms[2].url_start - 1,
    ) + spec_fragment(url_of(s, ms[2])) + s.subrange(ms[2].url_end + 1, s.len() as int));
    assert(spec_line_jobs(s) =~= seq![
        JobSpec {
            cache_path: spec_cache_path(url_of(s, ms[0])),
            request_url: url_request_of(spec_unescape(url_of(s, ms[0]))),
        },
        JobSpec {
            cache_path: spec_cache_path(url_of(s, ms[2])),
            request_url: url_request_of(spec_unescape(url_of(s, ms[2]))),
        },
    ]);
}

} // verus!
