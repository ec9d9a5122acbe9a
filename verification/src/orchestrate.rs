//! Run-level decisions: which discovered links still need crawling, how one
//! run's page results update the two persisted bookkeeping collections, and
//! the sorted order both are persisted in.

use vstd::prelude::*;

use crate::errors::GalnetError;
use crate::page::PageExtraction;
use crate::persist::ErroredPage;
use crate::persist::errored_page;
use crate::persist::renders_errors;
use crate::text::contains_string;
use crate::text::seq_le;
use crate::text::str_le;
use crate::text::lemma_seq_le_total;
use crate::text::lemma_seq_le_trans;
use crate::text::unique_views;
use crate::text::views_of;

verus! {

/// Membership test used for the crawl delta: a link is kept when the
/// downloaded set does not hold it.
pub open spec fn not_among(downloaded: Seq<Seq<char>>) -> spec_fn(Seq<char>) -> bool {
    |u: Seq<char>| !downloaded.contains(u)
}

/// The crawl delta: every discovered link that is not already recorded as
/// downloaded, in discovery order. Already-downloaded pages are never
/// fetched again.
pub fn links_to_crawl(all: &Vec<String>, downloaded: &Vec<String>) -> (r: Vec<String>)
    ensures
        views_of(r@) == views_of(all@).filter(not_among(views_of(downloaded@))),
{
    let mut r: Vec<String> = Vec::new();
    let n = all.len();
    let mut i: usize = 0;
    proof {
        assert(views_of(all@).take(0) =~= Seq::<Seq<char>>::empty());
        assert(views_of(r@) =~= views_of(all@).take(0).filter(not_among(views_of(downloaded@))));
    }
    while i < n
        invariant
            0 <= i <= n,
            n == all@.len(),
            views_of(r@) == views_of(all@).take(i as int).filter(
                not_among(views_of(downloaded@)),
            ),
        decreases n - i,
    {
        let ghost pred = not_among(views_of(downloaded@));
        let ghost prefix = views_of(all@).take(i as int);
        proof {
            assert(views_of(all@).take(i + 1) =~= prefix.push(views_of(all@)[i as int]));
            assert(views_of(all@)[i as int] == all@[i as int]@);
            prefix.lemma_filter_push(views_of(all@)[i as int], pred);
        }
        if !contains_string(downloaded, &all[i]) {
            let ghost old_views = views_of(r@);
            r.push(all[i].clone());
            proof {
                assert(views_of(r@) =~= old_views.push(all@[i as int]@));
            }
        }
        i = i + 1;
    }
    proof {
        assert(views_of(all@).take(n as int) =~= views_of(all@));
    }
    r
}

/// Idempotent re-runs: once every discovered link is recorded as
/// downloaded, the crawl delta is empty — a second run against unchanged
/// upstream content fetches nothing, so it writes no files and, by
/// `reconcile` on an empty result set, leaves both bookkeeping collections
/// unchanged.
pub proof fn lemma_rerun_crawls_nothing(all: Seq<Seq<char>>, downloaded: Seq<Seq<char>>)
    requires
        forall|k: int| 0 <= k < all.len() ==> downloaded.contains(#[trigger] all[k]),
    ensures
        all.filter(not_among(downloaded)) =~= Seq::<Seq<char>>::empty(),
    decreases all.len(),
{
    if all.len() > 0 {
        let prefix = all.drop_last();
        assert(all =~= prefix.push(all.last()));
        prefix.lemma_filter_push(all.last(), not_among(downloaded));
        assert(downloaded.contains(all[all.len() - 1]));
        lemma_rerun_crawls_nothing(prefix, downloaded);
    } else {
        assert(all =~= Seq::<Seq<char>>::empty());
        assert(Seq::<Seq<char>>::empty().filter(not_among(downloaded)) =~= Seq::<
            Seq<char>,
        >::empty());
    }
}

/// The URLs of the persisted failed-page entries.
pub open spec fn urls_of(f: Seq<ErroredPage>) -> Seq<Seq<char>> {
    f.map_values(|e: ErroredPage| e.url@)
}

/// The URLs of a run's page results.
pub open spec fn page_urls(ps: Seq<PageExtraction>) -> Seq<Seq<char>> {
    ps.map_values(|p: PageExtraction| p.url@)
}

/// Some crawled page with URL `u` completed without error.
pub open spec fn success_in(ps: Seq<PageExtraction>, u: Seq<char>) -> bool {
    exists|i: int| 0 <= i < ps.len() && (#[trigger] ps[i]).url@ == u && ps[i].errors@.len() == 0
}

/// Some crawled page with URL `u` produced at least one error.
pub open spec fn failure_in(ps: Seq<PageExtraction>, u: Seq<char>) -> bool {
    exists|i: int| 0 <= i < ps.len() && (#[trigger] ps[i]).url@ == u && ps[i].errors@.len() > 0
}

/// The entry records the page: same URL, and the rendered texts of the
/// page's errors, in order.
pub open spec fn records_page(e: &ErroredPage, p: &PageExtraction) -> bool {
    e.url@ == p.url@ && renders_errors(e.errors@, p.errors@)
}

/// Every failed-page entry is justified: an entry for a URL that failed in
/// this run records that page's errors; any other entry is carried over
/// unchanged from before, and its URL did not succeed in this run.
pub open spec fn failed_entry_ok(
    e: ErroredPage,
    f0: Seq<ErroredPage>,
    ps: Seq<PageExtraction>,
) -> bool {
    if failure_in(ps, e.url@) {
        exists|k: int|
            0 <= k < ps.len() && (#[trigger] ps[k]).url@ == e.url@ && ps[k].errors@.len() > 0
                && records_page(&e, &ps[k])
    } else {
        !success_in(ps, e.url@) && f0.contains(e)
    }
}

proof fn lemma_run_push(ps: Seq<PageExtraction>, p: PageExtraction, u: Seq<char>)
    ensures
        success_in(ps.push(p), u) == (success_in(ps, u) || (p.url@ == u && p.errors@.len() == 0)),
        failure_in(ps.push(p), u) == (failure_in(ps, u) || (p.url@ == u && p.errors@.len() > 0)),
{
    if success_in(ps, u) {
        let i = choose|i: int|
            0 <= i < ps.len() && (#[trigger] ps[i]).url@ == u && ps[i].errors@.len() == 0;
        assert(ps.push(p)[i].url@ == u && ps.push(p)[i].errors@.len() == 0);
    }
    if failure_in(ps, u) {
        let i = choose|i: int|
            0 <= i < ps.len() && (#[trigger] ps[i]).url@ == u && ps[i].errors@.len() > 0;
        assert(ps.push(p)[i].url@ == u && ps.push(p)[i].errors@.len() > 0);
    }
    if p.url@ == u {
        assert(ps.push(p)[ps.len() as int] == p);
    }
    if success_in(ps.push(p), u) {
        let i = choose|i: int|
            0 <= i < ps.push(p).len() && (#[trigger] ps.push(p)[i]).url@ == u && ps.push(
                p,
            )[i].errors@.len() == 0;
        if i < ps.len() {
            assert(ps[i] == ps.push(p)[i]);
            assert(success_in(ps, u));
        } else {
            assert(ps.push(p)[i] == p);
        }
    }
    if failure_in(ps.push(p), u) {
        let i = choose|i: int|
            0 <= i < ps.push(p).len() && (#[trigger] ps.push(p)[i]).url@ == u && ps.push(
                p,
            )[i].errors@.len() > 0;
        if i < ps.len() {
            assert(ps[i] == ps.push(p)[i]);
            assert(failure_in(ps, u));
        } else {
            assert(ps.push(p)[i] == p);
        }
    }
}

/// Finds the failed-page entry for a URL, if one is recorded.
fn find_errored(f: &Vec<ErroredPage>, url: &String) -> (r: Option<usize>)
    ensures
        match r {
            Some(j) => 0 <= j < f@.len() && f@[j as int].url@ == url@,
            None => forall|j: int| 0 <= j < f@.len() ==> (#[trigger] f@[j]).url@ != url@,
        },
{
    let n = f.len();
    let mut i: usize = 0;
    while i < n
        invariant
            0 <= i <= n,
            n == f@.len(),
            forall|j: int| 0 <= j < i ==> (#[trigger] f@[j]).url@ != url@,
        decreases n - i,
    {
        if f[i].url == *url {
            return Some(i);
        }
        i = i + 1;
    }
    None
}

/// Folds one run's page results into the two bookkeeping collections: a
/// page with no errors leaves the failed set and enters the downloaded set;
/// a page with errors is recorded in the failed set with its rendered
/// errors, and the downloaded set is untouched for it.
pub fn reconcile(
    downloaded: Vec<String>,
    failed: Vec<ErroredPage>,
    pages: &Vec<PageExtraction>,
) -> (out: (Vec<String>, Vec<ErroredPage>))
    requires
        unique_views(views_of(downloaded@)),
        unique_views(urls_of(failed@)),
        unique_views(page_urls(pages@)),
    ensures
        unique_views(views_of(out.0@)),
        forall|k: int|
            0 <= k < downloaded@.len() ==> views_of(out.0@).contains(
                (#[trigger] downloaded@[k])@,
            ),
        forall|k: int|
            0 <= k < pages@.len() && (#[trigger] pages@[k]).errors@.len() == 0 ==> views_of(
                out.0@,
            ).contains(pages@[k].url@),
        forall|i: int|
            0 <= i < out.0@.len() ==> views_of(downloaded@).contains((#[trigger] out.0@[i])@)
                || success_in(pages@, out.0@[i]@),
        unique_views(urls_of(out.1@)),
        forall|i: int|
            0 <= i < out.1@.len() ==> failed_entry_ok(#[trigger] out.1@[i], failed@, pages@),
        forall|k: int|
            0 <= k < failed@.len() && !success_in(pages@, (#[trigger] failed@[k]).url@)
                ==> urls_of(out.1@).contains(failed@[k].url@),
        forall|k: int|
            0 <= k < pages@.len() && (#[trigger] pages@[k]).errors@.len() > 0 ==> urls_of(
                out.1@,
            ).contains(pages@[k].url@),
        pages@.len() == 0 ==> out.0@ == downloaded@ && out.1@ == failed@,
{
    let mut d = downloaded;
    let mut f = failed;
    let ghost d0 = d@;
    let ghost f0 = f@;
    let n = pages.len();
    let mut i: usize = 0;
    proof {
        assert(pages@.take(0) =~= Seq::<PageExtraction>::empty());
        assert forall|k: int| 0 <= k < d0.len() implies views_of(d0).contains(
            (#[trigger] d0[k])@,
        ) by {
            assert(views_of(d0)[k] == d0[k]@);
        }
        assert forall|k: int| 0 <= k < f0.len() implies urls_of(f0).contains(
            (#[trigger] f0[k]).url@,
        ) by {
            assert(urls_of(f0)[k] == f0[k].url@);
        }
    }
    while i < n
        invariant
            0 <= i <= n,
            n == pages@.len(),
            unique_views(page_urls(pages@)),
            i == 0 ==> d@ == d0 && f@ == f0,
            unique_views(views_of(d@)),
            forall|k: int| 0 <= k < d0.len() ==> views_of(d@).contains((#[trigger] d0[k])@),
            forall|k: int|
                0 <= k < i && (#[trigger] pages@[k]).errors@.len() == 0 ==> views_of(d@).contains(
                    pages@[k].url@,
                ),
            forall|ii: int|
                0 <= ii < d@.len() ==> views_of(d0).contains((#[trigger] d@[ii])@) || success_in(
                    pages@.take(i as int),
                    d@[ii]@,
                ),
            unique_views(urls_of(f@)),
            forall|ii: int|
                0 <= ii < f@.len() ==> failed_entry_ok(
                    #[trigger] f@[ii],
                    f0,
                    pages@.take(i as int),
                ),
            forall|k: int|
                0 <= k < f0.len() && !success_in(pages@.take(i as int), (#[trigger] f0[k]).url@)
                    ==> urls_of(f@).contains(f0[k].url@),
            forall|k: int|
                0 <= k < i && (#[trigger] pages@[k]).errors@.len() > 0 ==> urls_of(f@).contains(
                    pages@[k].url@,
                ),
        decreases n - i,
    {
        let ghost prefix = pages@.take(i as int);
        let ghost page_g = pages@[i as int];
        let ghost old_d = d@;
        let ghost old_f = f@;
        proof {
            assert(pages@.take(i + 1) =~= prefix.push(page_g));
            assert(page_urls(pages@)[i as int] == page_g.url@);
            assert forall|k: int| 0 <= k < pages@.len() && k != i implies (#[trigger] pages@[k]).url@
                != page_g.url@ by {
                assert(page_urls(pages@)[k] == pages@[k].url@);
            }
        }
        if pages[i].errors.len() == 0 {
            proof {
                lemma_run_push(prefix, page_g, page_g.url@);
                assert(success_in(pages@.take(i + 1), page_g.url@));
            }
            match find_errored(&f, &pages[i].url) {
                Some(j) => {
                    f.remove(j);
                    proof {
                        assert(old_f[j as int].url@ == page_g.url@);
                        assert(f@ =~= old_f.remove(j as int));
                        assert forall|x: int| 0 <= x < f@.len() implies #[trigger] f@[x] == (if x
                            < j {
                            old_f[x]
                        } else {
                            old_f[x + 1]
                        }) by {}
                        assert forall|a: int, b: int| 0 <= a < b < urls_of(f@).len() implies
                            urls_of(f@)[a] != urls_of(f@)[b] by {
                            let a0: int = if a < j { a } else { a + 1 };
                            let b0: int = if b < j { b } else { b + 1 };
                            assert(urls_of(f@)[a] == old_f[a0].url@);
                            assert(urls_of(f@)[b] == old_f[b0].url@);
                            assert(urls_of(old_f)[a0] == old_f[a0].url@);
                            assert(urls_of(old_f)[b0] == old_f[b0].url@);
                        }
                        assert forall|ii: int| 0 <= ii < f@.len() implies (#[trigger] f@[ii]).url@
                            != page_g.url@ by {
                            let x0: int = if ii < j { ii } else { ii + 1 };
                            assert(urls_of(old_f)[x0] == old_f[x0].url@);
                            assert(urls_of(old_f)[j as int] == old_f[j as int].url@);
                        }
                        assert forall|ii: int| 0 <= ii < f@.len() implies failed_entry_ok(
                            #[trigger] f@[ii],
                            f0,
                            pages@.take(i + 1),
                        ) by {
                            let e = f@[ii];
                            lemma_run_push(prefix, page_g, e.url@);
                            assert(failed_entry_ok(e, f0, prefix));
                            if failure_in(prefix, e.url@) {
                                let k = choose|k: int|
                                    0 <= k < prefix.len() && (#[trigger] prefix[k]).url@ == e.url@
                                        && prefix[k].errors@.len() > 0 && records_page(
                                        &e,
                                        &prefix[k],
                                    );
                                assert(pages@.take(i + 1)[k] == prefix[k]);
                            }
                        }
                        assert forall|k: int| 0 <= k < f0.len() && !success_in(
                            pages@.take(i + 1),
                            (#[trigger] f0[k]).url@,
                        ) implies urls_of(f@).contains(f0[k].url@) by {
                            lemma_run_push(prefix, page_g, f0[k].url@);
                            assert(!success_in(prefix, f0[k].url@));
                            assert(urls_of(old_f).contains(f0[k].url@));
                            let j0 = choose|j0: int|
                                0 <= j0 < urls_of(old_f).len() && urls_of(old_f)[j0]
                                    == f0[k].url@;
                            assert(old_f[j0].url@ == f0[k].url@);
                            assert(f0[k].url@ != page_g.url@);
                            assert(j0 != j);
                            if j0 < j {
                                assert(urls_of(f@)[j0] == old_f[j0].url@);
                            } else {
                                assert(urls_of(f@)[j0 - 1] == old_f[j0].url@);
                            }
                        }
                        assert forall|k: int| 0 <= k < i + 1 && (#[trigger] pages@[k]).errors@.len()
                            > 0 implies urls_of(f@).contains(pages@[k].url@) by {
                            if k < i {
                                assert(urls_of(old_f).contains(pages@[k].url@));
                                let j0 = choose|j0: int|
                                    0 <= j0 < urls_of(old_f).len() && urls_of(old_f)[j0]
                                        == pages@[k].url@;
                                assert(old_f[j0].url@ == pages@[k].url@);
                                assert(pages@[k].url@ != page_g.url@);
                                assert(j0 != j);
                                if j0 < j {
                                    assert(urls_of(f@)[j0] == old_f[j0].url@);
                                } else {
                                    assert(urls_of(f@)[j0 - 1] == old_f[j0].url@);
                                }
                            }
                        }
                    }
                },
                None => {
                    proof {
                        assert forall|ii: int| 0 <= ii < f@.len() implies failed_entry_ok(
                            #[trigger] f@[ii],
                            f0,
                            pages@.take(i + 1),
                        ) by {
                            let e = f@[ii];
                            lemma_run_push(prefix, page_g, e.url@);
                            assert(failed_entry_ok(e, f0, prefix));
                            if failure_in(prefix, e.url@) {
                                let k = choose|k: int|
                                    0 <= k < prefix.len() && (#[trigger] prefix[k]).url@ == e.url@
                                        && prefix[k].errors@.len() > 0 && records_page(
                                        &e,
                                        &prefix[k],
                                    );
                                assert(pages@.take(i + 1)[k] == prefix[k]);
                            }
                        }
                        assert forall|k: int| 0 <= k < f0.len() && !success_in(
                            pages@.take(i + 1),
                            (#[trigger] f0[k]).url@,
                        ) implies urls_of(f@).contains(f0[k].url@) by {
                            lemma_run_push(prefix, page_g, f0[k].url@);
                            assert(!success_in(prefix, f0[k].url@));
                        }
                    }
                },
            }
            if !contains_string(&d, &pages[i].url) {
                d.push(pages[i].url.clone());
                proof {
                    assert(views_of(d@) =~= views_of(old_d).push(page_g.url@));
                    assert forall|a: int, b: int| 0 <= a < b < views_of(d@).len() implies
                        views_of(d@)[a] != views_of(d@)[b] by {
                        if b < old_d.len() {
                        } else {
                            assert(views_of(d@)[a] == views_of(old_d)[a]);
                            assert(views_of(d@)[b] == page_g.url@);
                        }
                    }
                }
            }
            proof {
                assert forall|k: int| 0 <= k < d0.len() implies views_of(d@).contains(
                    (#[trigger] d0[k])@,
                ) by {
                    let j0 = choose|j0: int|
                        0 <= j0 < views_of(old_d).len() && views_of(old_d)[j0] == d0[k]@;
                    assert(views_of(d@)[j0] == d0[k]@);
                }
                assert forall|k: int| 0 <= k < i + 1 && (#[trigger] pages@[k]).errors@.len() == 0
                    implies views_of(d@).contains(pages@[k].url@) by {
                    if k < i {
                        let j0 = choose|j0: int|
                            0 <= j0 < views_of(old_d).len() && views_of(old_d)[j0]
                                == pages@[k].url@;
                        assert(views_of(d@)[j0] == pages@[k].url@);
                    } else {
                        if views_of(old_d).contains(page_g.url@) {
                            let j0 = choose|j0: int|
                                0 <= j0 < views_of(old_d).len() && views_of(old_d)[j0]
                                    == page_g.url@;
                            assert(views_of(d@)[j0] == page_g.url@);
                        } else {
                            assert(views_of(d@)[old_d.len() as int] == page_g.url@);
                        }
                    }
                }
                assert forall|ii: int| 0 <= ii < d@.len() implies views_of(d0).contains(
                    (#[trigger] d@[ii])@,
                ) || success_in(pages@.take(i + 1), d@[ii]@) by {
                    lemma_run_push(prefix, page_g, d@[ii]@);
                    if ii < old_d.len() {
                        assert(d@[ii] == old_d[ii]);
                    } else {
                        assert(d@[ii]@ == page_g.url@);
                    }
                }
            }
        } else {
            let entry = errored_page(pages[i].url.as_str(), &pages[i].errors);
            proof {
                lemma_run_push(prefix, page_g, page_g.url@);
                assert(failure_in(pages@.take(i + 1), page_g.url@));
                assert(pages@.take(i + 1)[i as int] == page_g);
            }
            match find_errored(&f, &pages[i].url) {
                Some(j) => {
                    f.set(j, entry);
                    proof {
                        assert(old_f[j as int].url@ == page_g.url@);
                        assert(urls_of(f@) =~= urls_of(old_f));
                        assert forall|ii: int| 0 <= ii < f@.len() implies failed_entry_ok(
                            #[trigger] f@[ii],
                            f0,
                            pages@.take(i + 1),
                        ) by {
                            let e = f@[ii];
                            lemma_run_push(prefix, page_g, e.url@);
                            if ii == j {
                                assert(records_page(&e, &page_g));
                            } else {
                                assert(e == old_f[ii]);
                                assert(urls_of(old_f)[ii] == old_f[ii].url@);
                                assert(urls_of(old_f)[j as int] == old_f[j as int].url@);
                                assert(e.url@ != page_g.url@);
                                assert(failed_entry_ok(e, f0, prefix));
                                if failure_in(prefix, e.url@) {
                                    let k = choose|k: int|
                                        0 <= k < prefix.len() && (#[trigger] prefix[k]).url@
                                            == e.url@ && prefix[k].errors@.len() > 0
                                            && records_page(&e, &prefix[k]);
                                    assert(pages@.take(i + 1)[k] == prefix[k]);
                                }
                            }
                        }
                        assert forall|k: int| 0 <= k < f0.len() && !success_in(
                            pages@.take(i + 1),
                            (#[trigger] f0[k]).url@,
                        ) implies urls_of(f@).contains(f0[k].url@) by {
                            lemma_run_push(prefix, page_g, f0[k].url@);
                            assert(!success_in(prefix, f0[k].url@));
                        }
                        assert forall|k: int| 0 <= k < i + 1 && (#[trigger] pages@[k]).errors@.len()
                            > 0 implies urls_of(f@).contains(pages@[k].url@) by {
                            if k < i {
                            } else {
                                assert(urls_of(f@)[j as int] == page_g.url@);
                            }
                        }
                    }
                },
                None => {
                    f.push(entry);
                    proof {
                        assert(urls_of(f@) =~= urls_of(old_f).push(page_g.url@));
                        assert forall|a: int, b: int| 0 <= a < b < urls_of(f@).len() implies
                            urls_of(f@)[a] != urls_of(f@)[b] by {
                            if b < old_f.len() {
                            } else {
                                assert(urls_of(f@)[a] == old_f[a].url@);
                                assert(urls_of(f@)[b] == page_g.url@);
                            }
                        }
                        assert forall|ii: int| 0 <= ii < f@.len() implies failed_entry_ok(
                            #[trigger] f@[ii],
                            f0,
                            pages@.take(i + 1),
                        ) by {
                            let e = f@[ii];
                            lemma_run_push(prefix, page_g, e.url@);
                            if ii == old_f.len() {
                                assert(records_page(&e, &page_g));
                            } else {
                                assert(e == old_f[ii]);
                                assert(e.url@ != page_g.url@);
                                assert(failed_entry_ok(e, f0, prefix));
                                if failure_in(prefix, e.url@) {
                                    let k = choose|k: int|
                                        0 <= k < prefix.len() && (#[trigger] prefix[k]).url@
                                            == e.url@ && prefix[k].errors@.len() > 0
                                            && records_page(&e, &prefix[k]);
                                    assert(pages@.take(i + 1)[k] == prefix[k]);
                                }
                            }
                        }
                        assert forall|k: int| 0 <= k < f0.len() && !success_in(
                            pages@.take(i + 1),
                            (#[trigger] f0[k]).url@,
                        ) implies urls_of(f@).contains(f0[k].url@) by {
                            lemma_run_push(prefix, page_g, f0[k].url@);
                            assert(!success_in(prefix, f0[k].url@));
                            let j0 = choose|j0: int|
                                0 <= j0 < urls_of(old_f).len() && urls_of(old_f)[j0]
                                    == f0[k].url@;
                            assert(urls_of(f@)[j0] == f0[k].url@);
                        }
                        assert forall|k: int| 0 <= k < i + 1 && (#[trigger] pages@[k]).errors@.len()
                            > 0 implies urls_of(f@).contains(pages@[k].url@) by {
                            if k < i {
                                let j0 = choose|j0: int|
                                    0 <= j0 < urls_of(old_f).len() && urls_of(old_f)[j0]
                                        == pages@[k].url@;
                                assert(urls_of(f@)[j0] == pages@[k].url@);
                            } else {
                                assert(urls_of(f@)[old_f.len() as int] == page_g.url@);
                            }
                        }
                    }
                },
            }
            proof {
                assert forall|ii: int| 0 <= ii < d@.len() implies views_of(d0).contains(
                    (#[trigger] d@[ii])@,
                ) || success_in(pages@.take(i + 1), d@[ii]@) by {
                    lemma_run_push(prefix, page_g, d@[ii]@);
                }
            }
        }
        i = i + 1;
    }
    proof {
        assert(pages@.take(n as int) =~= pages@);
    }
    (d, f)
}

/// The views are in ascending lexicographic order.
pub open spec fn sorted_views(v: Seq<Seq<char>>) -> bool {
    forall|i: int, j: int| 0 <= i < j < v.len() ==> seq_le(#[trigger] v[i], #[trigger] v[j])
}

/// Sorts a set of strings — the downloaded-pages record — into the
/// deterministic order it is persisted in.
pub fn sort_strings(v: Vec<String>) -> (r: Vec<String>)
    requires
        unique_views(views_of(v@)),
    ensures
        r@.len() == v@.len(),
        sorted_views(views_of(r@)),
        unique_views(views_of(r@)),
        forall|k: int| 0 <= k < v@.len() ==> r@.contains(#[trigger] v@[k]),
        forall|k: int| 0 <= k < r@.len() ==> v@.contains(#[trigger] r@[k]),
{
    let ghost v0 = v@;
    let mut rest = v;
    let mut out: Vec<String> = Vec::new();
    proof {
        assert forall|k: int| 0 <= k < v0.len() implies rest@.contains(#[trigger] v0[k]) by {
            assert(rest@[k] == v0[k]);
        }
        assert forall|a: int, b: int| 0 <= a < b < rest@.len() implies (#[trigger] rest@[a])@
            != (#[trigger] rest@[b])@ by {
            assert(views_of(v0)[a] == v0[a]@);
            assert(views_of(v0)[b] == v0[b]@);
        }
    }
    while rest.len() > 0
        invariant
            out@.len() + rest@.len() == v0.len(),
            sorted_views(views_of(out@)),
            forall|k: int| 0 <= k < out@.len() ==> v0.contains(#[trigger] out@[k]),
            forall|k: int| 0 <= k < rest@.len() ==> v0.contains(#[trigger] rest@[k]),
            forall|k: int|
                0 <= k < v0.len() ==> out@.contains(#[trigger] v0[k]) || rest@.contains(v0[k]),
            forall|a: int, b: int|
                0 <= a < b < out@.len() ==> (#[trigger] out@[a])@ != (#[trigger] out@[b])@,
            forall|a: int, b: int|
                0 <= a < b < rest@.len() ==> (#[trigger] rest@[a])@ != (#[trigger] rest@[b])@,
            forall|a: int, b: int|
                0 <= a < out@.len() && 0 <= b < rest@.len() ==> (#[trigger] out@[a])@
                    != (#[trigger] rest@[b])@,
        decreases rest@.len(),
    {
        let ghost old_out = out@;
        let ghost old_rest = rest@;
        let x = rest.remove(0);
        proof {
            assert(x == old_rest[0]);
            assert forall|k: int| 0 <= k < rest@.len() implies #[trigger] rest@[k] == old_rest[k
                + 1] by {}
        }
        let mut j: usize = 0;
        while j < out.len() && str_le(out[j].as_str(), x.as_str())
            invariant
                0 <= j <= out@.len(),
                out@ == old_out,
                forall|jj: int| 0 <= jj < j ==> seq_le((#[trigger] out@[jj])@, x@),
            decreases out@.len() - j,
        {
            j = j + 1;
        }
        proof {
            if j < out@.len() {
                lemma_seq_le_total(out@[j as int]@, x@);
                assert(seq_le(x@, out@[j as int]@));
            }
        }
        out.insert(j, x);
        proof {
            assert(out@ =~= old_out.insert(j as int, x));
            assert forall|a: int, b: int| 0 <= a < b < views_of(out@).len() implies seq_le(
                views_of(out@)[a],
                views_of(out@)[b],
            ) by {
                let av = views_of(out@)[a];
                let bv = views_of(out@)[b];
                assert(av == out@[a]@);
                assert(bv == out@[b]@);
                assert forall|p: int, q: int| 0 <= p < q < old_out.len() implies seq_le(
                    (#[trigger] old_out[p])@,
                    (#[trigger] old_out[q])@,
                ) by {
                    assert(views_of(old_out)[p] == old_out[p]@);
                    assert(views_of(old_out)[q] == old_out[q]@);
                }
                if a < j && b < j {
                    assert(out@[a] == old_out[a] && out@[b] == old_out[b]);
                } else if a < j && b == j {
                    assert(out@[a] == old_out[a]);
                    assert(bv == x@);
                } else if a < j && b > j {
                    assert(out@[a] == old_out[a] && out@[b] == old_out[b - 1]);
                } else if a == j {
                    assert(av == x@);
                    assert(out@[b] == old_out[b - 1]);
                    assert(seq_le(x@, old_out[j as int]@));
                    if b - 1 > j {
                        assert(seq_le(old_out[j as int]@, old_out[b - 1]@));
                        lemma_seq_le_trans(x@, old_out[j as int]@, old_out[b - 1]@);
                    }
                } else {
                    assert(out@[a] == old_out[a - 1] && out@[b] == old_out[b - 1]);
                }
            }
            assert forall|k: int| 0 <= k < out@.len() implies v0.contains(#[trigger] out@[k]) by {
                if k < j {
                    assert(out@[k] == old_out[k]);
                } else if k == j {
                    assert(out@[k] == old_rest[0]);
                } else {
                    assert(out@[k] == old_out[k - 1]);
                }
            }
            assert forall|k: int| 0 <= k < v0.len() implies out@.contains(#[trigger] v0[k])
                || rest@.contains(v0[k]) by {
                if old_out.contains(v0[k]) {
                    let a = choose|a: int| 0 <= a < old_out.len() && old_out[a] == v0[k];
                    if a < j {
                        assert(out@[a] == v0[k]);
                    } else {
                        assert(out@[a + 1] == v0[k]);
                    }
                } else {
                    let a = choose|a: int| 0 <= a < old_rest.len() && old_rest[a] == v0[k];
                    if a == 0 {
                        assert(out@[j as int] == v0[k]);
                    } else {
                        assert(rest@[a - 1] == v0[k]);
                    }
                }
            }
            assert forall|a: int, b: int| 0 <= a < b < out@.len() implies (#[trigger] out@[a])@
                != (#[trigger] out@[b])@ by {
                let a0: int = if a < j { a } else { a - 1 };
                let b0: int = if b < j { b } else { b - 1 };
                if a == j {
                    assert(out@[a] == old_rest[0] && out@[b] == old_out[b0]);
                } else if b == j {
                    assert(out@[a] == old_out[a0] && out@[b] == old_rest[0]);
                } else {
                    assert(out@[a] == old_out[a0] && out@[b] == old_out[b0]);
                }
            }
            assert forall|a: int, b: int| 0 <= a < out@.len() && 0 <= b < rest@.len() implies (
            #[trigger] out@[a])@ != (#[trigger] rest@[b])@ by {
                assert(rest@[b] == old_rest[b + 1]);
                if a == j {
                    assert(out@[a] == old_rest[0]);
                } else {
                    let a0: int = if a < j { a } else { a - 1 };
                    assert(out@[a] == old_out[a0]);
                }
            }
        }
    }
    proof {
        assert forall|k: int| 0 <= k < v0.len() implies out@.contains(#[trigger] v0[k]) by {
        }
    }
    out
}

/// Sorts the failed-page entries — unique by URL — into the deterministic
/// key order they are persisted in.
pub fn sort_errored_pages(v: Vec<ErroredPage>) -> (r: Vec<ErroredPage>)
    requires
        unique_views(urls_of(v@)),
    ensures
        r@.len() == v@.len(),
        sorted_views(urls_of(r@)),
        unique_views(urls_of(r@)),
        forall|k: int| 0 <= k < v@.len() ==> r@.contains(#[trigger] v@[k]),
        forall|k: int| 0 <= k < r@.len() ==> v@.contains(#[trigger] r@[k]),
{
    let ghost v0 = v@;
    let mut rest = v;
    let mut out: Vec<ErroredPage> = Vec::new();
    proof {
        assert forall|k: int| 0 <= k < v0.len() implies rest@.contains(#[trigger] v0[k]) by {
            assert(rest@[k] == v0[k]);
        }
        assert forall|a: int, b: int| 0 <= a < b < rest@.len() implies (#[trigger] rest@[a]).url@
            != (#[trigger] rest@[b]).url@ by {
            assert(urls_of(v0)[a] == v0[a].url@);
            assert(urls_of(v0)[b] == v0[b].url@);
        }
    }
    while rest.len() > 0
        invariant
            out@.len() + rest@.len() == v0.len(),
            sorted_views(urls_of(out@)),
            forall|k: int| 0 <= k < out@.len() ==> v0.contains(#[trigger] out@[k]),
            forall|k: int| 0 <= k < rest@.len() ==> v0.contains(#[trigger] rest@[k]),
            forall|k: int|
                0 <= k < v0.len() ==> out@.contains(#[trigger] v0[k]) || rest@.contains(v0[k]),
            forall|a: int, b: int|
                0 <= a < b < out@.len() ==> (#[trigger] out@[a]).url@ != (#[trigger] out@[b]).url@,
            forall|a: int, b: int|
                0 <= a < b < rest@.len() ==> (#[trigger] rest@[a]).url@
                    != (#[trigger] rest@[b]).url@,
            forall|a: int, b: int|
                0 <= a < out@.len() && 0 <= b < rest@.len() ==> (#[trigger] out@[a]).url@
                    != (#[trigger] rest@[b]).url@,
        decreases rest@.len(),
    {
        let ghost old_out = out@;
        let ghost old_rest = rest@;
        let x = rest.remove(0);
        proof {
            assert(x == old_rest[0]);
            assert forall|k: int| 0 <= k < rest@.len() implies #[trigger] rest@[k] == old_rest[k
                + 1] by {}
        }
        let mut j: usize = 0;
        while j < out.len() && str_le(out[j].url.as_str(), x.url.as_str())
            invariant
                0 <= j <= out@.len(),
                out@ == old_out,
                forall|jj: int| 0 <= jj < j ==> seq_le((#[trigger] out@[jj]).url@, x.url@),
            decreases out@.len() - j,
        {
            j = j + 1;
        }
        proof {
            if j < out@.len() {
                lemma_seq_le_total(out@[j as int].url@, x.url@);
                assert(seq_le(x.url@, out@[j as int].url@));
            }
        }
        out.insert(j, x);
        proof {
            assert(out@ =~= old_out.insert(j as int, x));
            assert forall|a: int, b: int| 0 <= a < b < urls_of(out@).len() implies seq_le(
                urls_of(out@)[a],
                urls_of(out@)[b],
            ) by {
                let av = urls_of(out@)[a];
                let bv = urls_of(out@)[b];
                assert(av == out@[a].url@);
                assert(bv == out@[b].url@);
                assert forall|p: int, q: int| 0 <= p < q < old_out.len() implies seq_le(
                    (#[trigger] old_out[p]).url@,
                    (#[trigger] old_out[q]).url@,
                ) by {
                    assert(urls_of(old_out)[p] == old_out[p].url@);
                    assert(urls_of(old_out)[q] == old_out[q].url@);
                }
                if a < j && b < j {
                    assert(out@[a] == old_out[a] && out@[b] == old_out[b]);
                } else if a < j && b == j {
                    assert(out@[a] == old_out[a]);
                    assert(bv == x.url@);
                } else if a < j && b > j {
                    assert(out@[a] == old_out[a] && out@[b] == old_out[b - 1]);
                } else if a == j {
                    assert(av == x.url@);
                    assert(out@[b] == old_out[b - 1]);
                    assert(seq_le(x.url@, old_out[j as int].url@));
                    if b - 1 > j {
                        assert(seq_le(old_out[j as int].url@, old_out[b - 1].url@));
                        lemma_seq_le_trans(x.url@, old_out[j as int].url@, old_out[b - 1].url@);
                    }
                } else {
                    assert(out@[a] == old_out[a - 1] && out@[b] == old_out[b - 1]);
                }
            }
            assert forall|k: int| 0 <= k < out@.len() implies v0.contains(#[trigger] out@[k]) by {
                if k < j {
                    assert(out@[k] == old_out[k]);
                } else if k == j {
                    assert(out@[k] == old_rest[0]);
                } else {
                    assert(out@[k] == old_out[k - 1]);
                }
            }
            assert forall|k: int| 0 <= k < v0.len() implies out@.contains(#[trigger] v0[k])
                || rest@.contains(v0[k]) by {
                if old_out.contains(v0[k]) {
                    let a = choose|a: int| 0 <= a < old_out.len() && old_out[a] == v0[k];
                    if a < j {
                        assert(out@[a] == v0[k]);
                    } else {
                        assert(out@[a + 1] == v0[k]);
                    }
                } else {
                    let a = choose|a: int| 0 <= a < old_rest.len() && old_rest[a] == v0[k];
                    if a == 0 {
                        assert(out@[j as int] == v0[k]);
                    } else {
                        assert(rest@[a - 1] == v0[k]);
                    }
                }
            }
            assert forall|a: int, b: int| 0 <= a < b < out@.len() implies (#[trigger] out@[a]).url@
                != (#[trigger] out@[b]).url@ by {
                let a0: int = if a < j { a } else { a - 1 };
                let b0: int = if b < j { b } else { b - 1 };
                if a == j {
                    assert(out@[a] == old_rest[0] && out@[b] == old_out[b0]);
                } else if b == j {
                    assert(out@[a] == old_out[a0] && out@[b] == old_rest[0]);
                } else {
                    assert(out@[a] == old_out[a0] && out@[b] == old_out[b0]);
                }
            }
            assert forall|a: int, b: int| 0 <= a < out@.len() && 0 <= b < rest@.len() implies (
            #[trigger] out@[a]).url@ != (#[trigger] rest@[b]).url@ by {
                assert(rest@[b] == old_rest[b + 1]);
                if a == j {
                    assert(out@[a] == old_rest[0]);
                } else {
                    let a0: int = if a < j { a } else { a - 1 };
                    assert(out@[a] == old_out[a0]);
                }
            }
        }
    }
    out
}

/// The reduction phase of a run, whole: folds the page results into the
/// bookkeeping collections as `reconcile` does, then puts both into the
/// deterministic order they are persisted in.
pub fn finalize_bookkeeping(
    downloaded: Vec<String>,
    failed: Vec<ErroredPage>,
    pages: &Vec<PageExtraction>,
) -> (out: (Vec<String>, Vec<ErroredPage>))
    requires
        unique_views(views_of(downloaded@)),
        unique_views(urls_of(failed@)),
        unique_views(page_urls(pages@)),
    ensures
        sorted_views(views_of(out.0@)),
        unique_views(views_of(out.0@)),
        forall|k: int|
            0 <= k < downloaded@.len() ==> views_of(out.0@).contains(
                (#[trigger] downloaded@[k])@,
            ),
        forall|k: int|
            0 <= k < pages@.len() && (#[trigger] pages@[k]).errors@.len() == 0 ==> views_of(
                out.0@,
            ).contains(pages@[k].url@),
        forall|i: int|
            0 <= i < out.0@.len() ==> views_of(downloaded@).contains((#[trigger] out.0@[i])@)
                || success_in(pages@, out.0@[i]@),
        sorted_views(urls_of(out.1@)),
        unique_views(urls_of(out.1@)),
        forall|i: int|
            0 <= i < out.1@.len() ==> failed_entry_ok(#[trigger] out.1@[i], failed@, pages@),
        forall|k: int|
            0 <= k < failed@.len() && !success_in(pages@, (#[trigger] failed@[k]).url@)
                ==> urls_of(out.1@).contains(failed@[k].url@),
        forall|k: int|
            0 <= k < pages@.len() && (#[trigger] pages@[k]).errors@.len() > 0 ==> urls_of(
                out.1@,
            ).contains(pages@[k].url@),
{
    let (mid_d, mid_f) = reconcile(downloaded, failed, pages);
    let ghost d1 = mid_d@;
    let ghost f1 = mid_f@;
    let sorted_d = sort_strings(mid_d);
    let sorted_f = sort_errored_pages(mid_f);
    proof {
        assert forall|u: Seq<char>| views_of(d1).contains(u) implies views_of(
            sorted_d@,
        ).contains(u) by {
            let j = choose|j: int| 0 <= j < views_of(d1).len() && views_of(d1)[j] == u;
            assert(d1[j]@ == u);
            assert(sorted_d@.contains(d1[j]));
            let l = choose|l: int| 0 <= l < sorted_d@.len() && sorted_d@[l] == d1[j];
            assert(views_of(sorted_d@)[l] == u);
        }
        assert forall|i: int| 0 <= i < sorted_d@.len() implies views_of(downloaded@).contains(
            (#[trigger] sorted_d@[i])@,
        ) || success_in(pages@, sorted_d@[i]@) by {
            assert(d1.contains(sorted_d@[i]));
            let j = choose|j: int| 0 <= j < d1.len() && d1[j] == sorted_d@[i];
        }
        assert forall|u: Seq<char>| urls_of(f1).contains(u) implies urls_of(
            sorted_f@,
        ).contains(u) by {
            let j = choose|j: int| 0 <= j < urls_of(f1).len() && urls_of(f1)[j] == u;
            assert(f1[j].url@ == u);
            assert(sorted_f@.contains(f1[j]));
            let l = choose|l: int| 0 <= l < sorted_f@.len() && sorted_f@[l] == f1[j];
            assert(urls_of(sorted_f@)[l] == u);
        }
        assert forall|i: int| 0 <= i < sorted_f@.len() implies failed_entry_ok(
            #[trigger] sorted_f@[i],
            failed@,
            pages@,
        ) by {
            assert(f1.contains(sorted_f@[i]));
            let j = choose|j: int| 0 <= j < f1.len() && f1[j] == sorted_f@[i];
        }
    }
    (sorted_d, sorted_f)
}

} // verus!
