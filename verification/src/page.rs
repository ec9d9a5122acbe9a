//! Assembling one page's extraction result: the validated records collapse
//! to one per uid (the last block with a given uid wins), the parse errors
//! are collected in document order, and a page that yielded no article at
//! all is given exactly one page-level scrape error.

use vstd::prelude::*;

use crate::article::Article;
use crate::errors::GalnetError;

verus! {

/// The successfully validated records of a page, in document order.
pub open spec fn spec_oks(rs: Seq<Result<Article, GalnetError>>) -> Seq<Article>
    decreases rs.len(),
{
    if rs.len() == 0 {
        Seq::empty()
    } else {
        let rest = spec_oks(rs.drop_last());
        match rs.last() {
            Ok(a) => rest.push(a),
            Err(_) => rest,
        }
    }
}

/// The per-block errors of a page, in document order.
pub open spec fn spec_errs(rs: Seq<Result<Article, GalnetError>>) -> Seq<GalnetError>
    decreases rs.len(),
{
    if rs.len() == 0 {
        Seq::empty()
    } else {
        let rest = spec_errs(rs.drop_last());
        match rs.last() {
            Ok(_) => rest,
            Err(e) => rest.push(e),
        }
    }
}

/// Some article in `s` carries uid `u`.
pub open spec fn has_uid(s: Seq<Article>, u: Seq<char>) -> bool {
    exists|i: int| 0 <= i < s.len() && s[i].uid@ == u
}

/// The last article in `s` carrying uid `u`.
pub open spec fn last_with_uid(s: Seq<Article>, u: Seq<char>) -> Article
    recommends
        has_uid(s, u),
    decreases s.len(),
{
    if s.len() == 0 {
        arbitrary()
    } else if s.last().uid@ == u {
        s.last()
    } else {
        last_with_uid(s.drop_last(), u)
    }
}

/// `arts` is the uid-keyed collapse of the successes of `rs`: uids are
/// unique, every extracted uid is represented, and each surviving record is
/// the last success carrying its uid.
pub open spec fn dedup_ok(arts: Seq<Article>, rs: Seq<Result<Article, GalnetError>>) -> bool {
    &&& forall|i: int, j: int|
        0 <= i < j < arts.len() ==> #[trigger] arts[i].uid@ != #[trigger] arts[j].uid@
    &&& forall|i: int| 0 <= i < arts.len() ==> has_uid(spec_oks(rs), #[trigger] arts[i].uid@)
    &&& forall|i: int|
        0 <= i < arts.len() ==> #[trigger] arts[i] == last_with_uid(spec_oks(rs), arts[i].uid@)
    &&& forall|k: int|
        0 <= k < spec_oks(rs).len() ==> has_uid(arts, #[trigger] spec_oks(rs)[k].uid@)
}

proof fn lemma_split_push(s: Seq<Result<Article, GalnetError>>, x: Result<Article, GalnetError>)
    ensures
        spec_oks(s.push(x)) == (match x {
            Ok(a) => spec_oks(s).push(a),
            Err(_) => spec_oks(s),
        }),
        spec_errs(s.push(x)) == (match x {
            Ok(_) => spec_errs(s),
            Err(e) => spec_errs(s).push(e),
        }),
{
    assert(s.push(x).drop_last() =~= s);
    assert(s.push(x).last() == x);
}

proof fn lemma_uid_push(s: Seq<Article>, a: Article, u: Seq<char>)
    ensures
        has_uid(s.push(a), u) == (a.uid@ == u || has_uid(s, u)),
        last_with_uid(s.push(a), u) == (if a.uid@ == u {
            a
        } else {
            last_with_uid(s, u)
        }),
{
    assert(s.push(a).drop_last() =~= s);
    assert(s.push(a).last() == a);
    if a.uid@ == u {
        assert(s.push(a)[s.len() as int].uid@ == u);
        assert(has_uid(s.push(a), u));
    }
    if has_uid(s, u) {
        let i = choose|i: int| 0 <= i < s.len() && s[i].uid@ == u;
        assert(s.push(a)[i].uid@ == u);
        assert(has_uid(s.push(a), u));
    }
    if has_uid(s.push(a), u) && a.uid@ != u {
        let i = choose|i: int| 0 <= i < s.push(a).len() && s.push(a)[i].uid@ == u;
        assert(i < s.len());
        assert(s[i].uid@ == u);
        assert(has_uid(s, u));
    }
}

/// Splits a page's validation results into its surviving records — one per
/// uid, the last block with a given uid winning — and its errors, in
/// document order.
pub fn split_results(results: Vec<Result<Article, GalnetError>>) -> (out: (
    Vec<Article>,
    Vec<GalnetError>,
))
    ensures
        dedup_ok(out.0@, results@),
        out.1@ == spec_errs(results@),
{
    let ghost orig = results@;
    let mut rest = results;
    let mut arts: Vec<Article> = Vec::new();
    let mut errs: Vec<GalnetError> = Vec::new();
    let ghost mut processed: Seq<Result<Article, GalnetError>> = Seq::empty();
    proof {
        assert(processed + rest@ =~= orig);
    }
    while rest.len() > 0
        invariant
            processed + rest@ == orig,
            errs@ == spec_errs(processed),
            dedup_ok(arts@, processed),
        decreases rest.len(),
    {
        let ghost old_arts = arts@;
        let ghost old_processed = processed;
        let r = rest.remove(0);
        proof {
            processed = processed.push(r);
            assert(old_processed.push(r) + rest@ =~= orig);
            lemma_split_push(old_processed, r);
        }
        match r {
            Ok(a) => {
                let ghost oks = spec_oks(old_processed);
                let mut found: Option<usize> = None;
                let mut j: usize = 0;
                while j < arts.len()
                    invariant
                        0 <= j <= arts@.len(),
                        arts@ == old_arts,
                        dedup_ok(arts@, old_processed),
                        match found {
                            Some(f) => 0 <= f < arts@.len() && arts@[f as int].uid@ == a.uid@,
                            None => forall|jj: int|
                                0 <= jj < j ==> #[trigger] arts@[jj].uid@ != a.uid@,
                        },
                    decreases arts@.len() - j,
                {
                    if arts[j].uid == a.uid {
                        found = Some(j);
                    }
                    j = j + 1;
                }
                proof {
                    assert(spec_oks(processed) == oks.push(a));
                }
                match found {
                    Some(f) => {
                        arts.set(f, a);
                        proof {
                            assert forall|i: int| 0 <= i < arts@.len() implies #[trigger] arts@[i]
                                == last_with_uid(spec_oks(processed), arts@[i].uid@) && has_uid(
                                spec_oks(processed),
                                arts@[i].uid@,
                            ) by {
                                lemma_uid_push(oks, a, arts@[i].uid@);
                                if i == f {
                                    assert(arts@[i] == a);
                                } else {
                                    assert(arts@[i] == old_arts[i]);
                                    assert(old_arts[i].uid@ != old_arts[f as int].uid@);
                                    assert(arts@[i].uid@ != a.uid@);
                                }
                            }
                            assert forall|k: int| 0 <= k < spec_oks(processed).len() implies
                                has_uid(arts@, #[trigger] spec_oks(processed)[k].uid@) by {
                                let u = spec_oks(processed)[k].uid@;
                                lemma_uid_push(oks, a, u);
                                if k < oks.len() {
                                    assert(spec_oks(processed)[k] == oks[k]);
                                    assert(has_uid(old_arts, u));
                                    let i = choose|i: int|
                                        0 <= i < old_arts.len() && old_arts[i].uid@ == u;
                                    if i == f {
                                        assert(arts@[f as int].uid@ == a.uid@);
                                        assert(a.uid@ == old_arts[f as int].uid@);
                                        assert(arts@[f as int].uid@ == u);
                                    } else {
                                        assert(arts@[i].uid@ == u);
                                    }
                                    assert(has_uid(arts@, u));
                                } else {
                                    assert(spec_oks(processed)[k] == a);
                                    assert(arts@[f as int].uid@ == a.uid@);
                                    assert(has_uid(arts@, u));
                                }
                            }
                        }
                    },
                    None => {
                        arts.push(a);
                        proof {
                            assert(arts@ == old_arts.push(a));
                            assert forall|i: int, jx: int| 0 <= i < jx < arts@.len() implies
                                #[trigger] arts@[i].uid@ != #[trigger] arts@[jx].uid@ by {
                                if jx < old_arts.len() {
                                } else {
                                    assert(arts@[jx] == a);
                                    assert(arts@[i] == old_arts[i]);
                                }
                            }
                            assert forall|i: int| 0 <= i < arts@.len() implies #[trigger] arts@[i]
                                == last_with_uid(spec_oks(processed), arts@[i].uid@) && has_uid(
                                spec_oks(processed),
                                arts@[i].uid@,
                            ) by {
                                lemma_uid_push(oks, a, arts@[i].uid@);
                                if i < old_arts.len() {
                                    assert(arts@[i] == old_arts[i]);
                                    assert(arts@[i].uid@ != a.uid@);
                                } else {
                                    assert(arts@[i] == a);
                                }
                            }
                            assert forall|k: int| 0 <= k < spec_oks(processed).len() implies
                                has_uid(arts@, #[trigger] spec_oks(processed)[k].uid@) by {
                                let u = spec_oks(processed)[k].uid@;
                                lemma_uid_push(oks, a, u);
                                if k < oks.len() {
                                    assert(spec_oks(processed)[k] == oks[k]);
                                    assert(has_uid(old_arts, u));
                                    let i = choose|i: int|
                                        0 <= i < old_arts.len() && old_arts[i].uid@ == u;
                                    assert(arts@[i].uid@ == u);
                                    assert(has_uid(arts@, u));
                                } else {
                                    assert(spec_oks(processed)[k] == a);
                                    assert(arts@[old_arts.len() as int].uid@ == a.uid@);
                                    assert(has_uid(arts@, u));
                                }
                            }
                        }
                    },
                }
            },
            Err(e) => {
                errs.push(e);
                proof {
                    assert(errs@ == spec_errs(processed));
                    assert(spec_oks(processed) == spec_oks(old_processed));
                }
            },
        }
    }
    proof {
        assert(processed =~= orig);
    }
    (arts, errs)
}

/// The result of crawling one URL: its surviving records, the links it
/// offered for further discovery, and every error met along the way.
pub struct PageExtraction {
    pub url: String,
    /// Unique by uid.
    pub articles: Vec<Article>,
    pub links: Vec<String>,
    pub errors: Vec<GalnetError>,
}

/// The page-level error reported for a page that yielded no article at all:
/// a scrape error for the page's URL whose cause is the rendered parse
/// error carrying the page's markup.
pub open spec fn is_zero_articles_error(e: &GalnetError, url: Seq<char>, html: Seq<char>) -> bool {
    match e {
        GalnetError::ScraperError { url: u, cause: c } => u@ == url && c@ == "Error while parsing: "@
            + ("Could not find any article for this page:\n"@ + html),
        _ => false,
    }
}

/// Assembles one page's extraction: collapses the validation results as
/// `split_results` does, and, when not one article survived, appends the
/// one page-level error for the page.
pub fn build_page_extraction(
    url: &str,
    html: &str,
    links: Vec<String>,
    results: Vec<Result<Article, GalnetError>>,
) -> (p: PageExtraction)
    ensures
        p.url@ == url@,
        p.links == links,
        dedup_ok(p.articles@, results@),
        spec_oks(results@).len() > 0 ==> p.articles@.len() > 0 && p.errors@ == spec_errs(results@),
        spec_oks(results@).len() == 0 ==> {
            &&& p.articles@.len() == 0
            &&& p.errors@.len() == spec_errs(results@).len() + 1
            &&& p.errors@.subrange(0, spec_errs(results@).len() as int) == spec_errs(results@)
            &&& is_zero_articles_error(&p.errors@.last(), url@, html@)
        },
{
    let ghost rs = results@;
    let (arts, mut errs) = split_results(results);
    proof {
        if spec_oks(rs).len() > 0 {
            assert(has_uid(arts@, spec_oks(rs)[0].uid@));
            let i = choose|i: int| 0 <= i < arts@.len() && arts@[i].uid@ == spec_oks(rs)[0].uid@;
            assert(arts@.len() > 0);
        }
        if arts@.len() > 0 {
            assert(has_uid(spec_oks(rs), arts@[0].uid@));
            let i = choose|i: int|
                0 <= i < spec_oks(rs).len() && spec_oks(rs)[i].uid@ == arts@[0].uid@;
            assert(spec_oks(rs).len() > 0);
        }
    }
    if arts.len() == 0 {
        let inner = GalnetError::ParserError {
            cause: "Could not find any article for this page:\n".to_owned().concat(html),
        };
        let cause = inner.to_string();
        let ghost before = errs@;
        errs.push(GalnetError::ScraperError { url: url.to_owned(), cause });
        proof {
            assert(errs@.drop_last() =~= before);
            assert(errs@.subrange(0, spec_errs(rs).len() as int) =~= spec_errs(rs));
        }
    }
    PageExtraction { url: url.to_owned(), articles: arts, links, errors: errs }
}

/// The last article carrying a uid is itself one of the articles.
pub proof fn lemma_last_with_uid_is_element(s: Seq<Article>, u: Seq<char>)
    requires
        has_uid(s, u),
    ensures
        exists|k: int| 0 <= k < s.len() && #[trigger] s[k] == last_with_uid(s, u),
    decreases s.len(),
{
    if s.len() > 0 && s.last().uid@ == u {
        assert(s[s.len() - 1] == last_with_uid(s, u));
    } else {
        assert(s.len() > 0) by {
            let i = choose|i: int| 0 <= i < s.len() && s[i].uid@ == u;
        }
        let t = s.drop_last();
        assert(has_uid(t, u)) by {
            let i = choose|i: int| 0 <= i < s.len() && s[i].uid@ == u;
            assert(i < s.len() - 1);
            assert(t[i].uid@ == u);
        }
        lemma_last_with_uid_is_element(t, u);
        let k = choose|k: int| 0 <= k < t.len() && #[trigger] t[k] == last_with_uid(t, u);
        assert(s[k] == last_with_uid(s, u));
    }
}

/// Every surviving article is the payload of some success among the
/// results.
pub proof fn lemma_oks_are_payloads(rs: Seq<Result<Article, GalnetError>>, k: int)
    requires
        0 <= k < spec_oks(rs).len(),
    ensures
        exists|i: int|
            0 <= i < rs.len() && #[trigger] rs[i] == Ok::<Article, GalnetError>(spec_oks(rs)[k]),
    decreases rs.len(),
{
    let rest = spec_oks(rs.drop_last());
    match rs.last() {
        Ok(a) => {
            if k < rest.len() {
                lemma_oks_are_payloads(rs.drop_last(), k);
                let i = choose|i: int|
                    0 <= i < rs.drop_last().len() && #[trigger] rs.drop_last()[i] == Ok::<
                        Article,
                        GalnetError,
                    >(rest[k]);
                assert(rs[i] == Ok::<Article, GalnetError>(spec_oks(rs)[k]));
            } else {
                assert(spec_oks(rs)[k] == a);
                assert(rs[rs.len() - 1] == Ok::<Article, GalnetError>(a));
            }
        },
        Err(_) => {
            lemma_oks_are_payloads(rs.drop_last(), k);
            let i = choose|i: int|
                0 <= i < rs.drop_last().len() && #[trigger] rs.drop_last()[i] == Ok::<
                    Article,
                    GalnetError,
                >(rest[k]);
            assert(rs[i] == Ok::<Article, GalnetError>(spec_oks(rs)[k]));
        },
    }
}

/// Uid-based dedup: when any success of a page carried uid `u`, exactly
/// one article of the page's collapsed set carries `u`.
pub proof fn lemma_uid_collapse(
    arts: Seq<Article>,
    rs: Seq<Result<Article, GalnetError>>,
    u: Seq<char>,
)
    requires
        dedup_ok(arts, rs),
        has_uid(spec_oks(rs), u),
    ensures
        exists|i: int| 0 <= i < arts.len() && (#[trigger] arts[i]).uid@ == u,
        forall|i: int, j: int|
            0 <= i < arts.len() && 0 <= j < arts.len() && (#[trigger] arts[i]).uid@ == u && (
            #[trigger] arts[j]).uid@ == u ==> i == j,
{
    let k = choose|k: int| 0 <= k < spec_oks(rs).len() && spec_oks(rs)[k].uid@ == u;
    assert(has_uid(arts, spec_oks(rs)[k].uid@));
    assert forall|i: int, j: int|
        0 <= i < arts.len() && 0 <= j < arts.len() && (#[trigger] arts[i]).uid@ == u && (
        #[trigger] arts[j]).uid@ == u implies i == j by {
        if i < j {
            assert(arts[i].uid@ != arts[j].uid@);
        } else if j < i {
            assert(arts[j].uid@ != arts[i].uid@);
        }
    }
}

proof fn lemma_split_lengths(rs: Seq<Result<Article, GalnetError>>)
    ensures
        spec_oks(rs).len() + spec_errs(rs).len() == rs.len(),
    decreases rs.len(),
{
    if rs.len() > 0 {
        lemma_split_lengths(rs.drop_last());
    }
}

/// One article per distinct success uid: when the successes of a page's
/// validation results carry pairwise distinct uids, the uid-keyed collapse
/// loses nothing — it keeps exactly as many articles as there were
/// successes.
pub proof fn lemma_distinct_uids_count(arts: Seq<Article>, rs: Seq<Result<Article, GalnetError>>)
    requires
        dedup_ok(arts, rs),
        forall|i: int, j: int|
            0 <= i < j < spec_oks(rs).len() ==> (#[trigger] spec_oks(rs)[i]).uid@ != (
            #[trigger] spec_oks(rs)[j]).uid@,
    ensures
        arts.len() == spec_oks(rs).len(),
{
    broadcast use vstd::set::group_set_axioms;

    let oks = spec_oks(rs);
    let au = arts.map_values(|a: Article| a.uid@);
    let ou = oks.map_values(|a: Article| a.uid@);
    assert forall|i: int, j: int|
        0 <= i < au.len() && 0 <= j < au.len() && i != j implies au[i] != au[j] by {
        assert(au[i] == arts[i].uid@);
        assert(au[j] == arts[j].uid@);
    }
    assert(au.no_duplicates());
    assert forall|i: int, j: int|
        0 <= i < ou.len() && 0 <= j < ou.len() && i != j implies ou[i] != ou[j] by {
        assert(ou[i] == oks[i].uid@);
        assert(ou[j] == oks[j].uid@);
    }
    assert(ou.no_duplicates());
    assert forall|x: Seq<char>| au.contains(x) implies ou.contains(x) by {
        let i = choose|i: int| 0 <= i < au.len() && au[i] == x;
        assert(arts[i].uid@ == x);
        assert(has_uid(oks, x));
        let k = choose|k: int| 0 <= k < oks.len() && oks[k].uid@ == x;
        assert(ou[k] == x);
    }
    assert forall|x: Seq<char>| ou.contains(x) implies au.contains(x) by {
        let k = choose|k: int| 0 <= k < ou.len() && ou[k] == x;
        assert(oks[k].uid@ == x);
        assert(has_uid(arts, x));
        let i = choose|i: int| 0 <= i < arts.len() && arts[i].uid@ == x;
        assert(au[i] == x);
    }
    assert(au.to_set() =~= ou.to_set());
    au.unique_seq_to_set();
    ou.unique_seq_to_set();
}

/// Partial failure isolation, counted: when exactly one of a page's blocks
/// failed validation and the successes carry pairwise distinct uids, the
/// page ends exactly one article short of its block count — every sibling
/// of the failed block is kept.
pub proof fn lemma_partial_failure_count(arts: Seq<Article>, rs: Seq<Result<Article, GalnetError>>)
    requires
        dedup_ok(arts, rs),
        forall|i: int, j: int|
            0 <= i < j < spec_oks(rs).len() ==> (#[trigger] spec_oks(rs)[i]).uid@ != (
            #[trigger] spec_oks(rs)[j]).uid@,
        spec_errs(rs).len() == 1,
    ensures
        arts.len() + 1 == rs.len(),
{
    lemma_split_lengths(rs);
    lemma_distinct_uids_count(arts, rs);
}

} // verus!
