//! Resolving harvested links against the site root, and the grammar of the
//! opaque identifier embedded in an article's permalink: the token that
//! follows a `/uid/` path segment, running up to the next `/`, `#` or `?`.

use vstd::prelude::*;

use crate::text::trimmed;
use crate::text::trim_text;
use crate::text::opt_view;
use crate::text::opt_views;
use crate::text::views_of;
use crate::text::unique_views;
use crate::text::contains_string;

verus! {

/// The site root that relative links are resolved against.
pub open spec fn site_base() -> Seq<char> {
    "https://community.elitedangerous.com"@
}

/// Prefixes a site-relative link with the site root.
pub fn with_site_base_url(url: &str) -> (r: String)
    ensures
        r@ == site_base() + url@,
{
    "https://community.elitedangerous.com".to_owned().concat(url)
}

/// A character that may appear inside a uid token: anything but a path,
/// fragment or query delimiter.
pub open spec fn is_uid_char(c: char) -> bool {
    c != '/' && c != '#' && c != '?'
}

pub fn char_is_uid(c: char) -> (r: bool)
    ensures
        r == is_uid_char(c),
{
    c != '/' && c != '#' && c != '?'
}

/// The path segment that introduces a uid token.
pub open spec fn uid_marker() -> Seq<char> {
    seq!['/', 'u', 'i', 'd', '/']
}

/// A uid token starts at position `i`: the marker, followed by at least one
/// uid character.
pub open spec fn uid_match_at(s: Seq<char>, i: int) -> bool {
    &&& 0 <= i
    &&& i + 5 < s.len()
    &&& s.subrange(i, i + 5) == uid_marker()
    &&& is_uid_char(s[i + 5])
}

/// The end of the run of uid characters starting at `j`.
pub open spec fn uid_run_end(s: Seq<char>, j: int) -> int
    recommends
        0 <= j <= s.len(),
    decreases s.len() - j,
{
    if j < s.len() && is_uid_char(s[j]) {
        uid_run_end(s, j + 1)
    } else {
        j
    }
}

/// The position of the leftmost uid token at or after `i`, if any.
pub open spec fn uid_search(s: Seq<char>, i: int) -> Option<int>
    recommends
        0 <= i,
    decreases s.len() - i,
{
    if i + 5 >= s.len() {
        None
    } else if uid_match_at(s, i) {
        Some(i)
    } else {
        uid_search(s, i + 1)
    }
}

/// The uid token captured by a match at position `i`.
pub open spec fn uid_at(s: Seq<char>, i: int) -> Seq<char> {
    s.subrange(i + 5, uid_run_end(s, i + 5))
}

/// The uid of a permalink: the token of the leftmost uid segment, if any.
pub open spec fn spec_extracted_uid(s: Seq<char>) -> Option<Seq<char>> {
    match uid_search(s, 0) {
        Some(i) => Some(uid_at(s, i)),
        None => None,
    }
}

/// Extracts the uid embedded in an article's canonical URL, if one is there.
pub fn extract_galnet_url_uid(url: &str) -> (r: Option<String>)
    ensures
        match r {
            Some(u) => spec_extracted_uid(url@) == Some(u@),
            None => spec_extracted_uid(url@) is None,
        },
{
    let n = url.unicode_len();
    if n < 6 {
        proof {
            assert(uid_search(url@, 0) is None);
        }
        return None;
    }
    let mut i: usize = 0;
    while i <= n - 6
        invariant
            0 <= i <= n - 5,
            n == url@.len(),
            n >= 6,
            uid_search(url@, 0) == uid_search(url@, i as int),
        decreases n - i,
    {
        let found = url.get_char(i) == '/' && url.get_char(i + 1) == 'u' && url.get_char(i + 2) == 'i'
            && url.get_char(i + 3) == 'd' && url.get_char(i + 4) == '/' && char_is_uid(
            url.get_char(i + 5),
        );
        proof {
            if found {
                assert(url@.subrange(i as int, i + 5) =~= uid_marker()) by {
                    assert(uid_marker()[0] == '/');
                    assert(uid_marker()[1] == 'u');
                    assert(uid_marker()[2] == 'i');
                    assert(uid_marker()[3] == 'd');
                    assert(uid_marker()[4] == '/');
                }
                assert(uid_match_at(url@, i as int));
            } else {
                if uid_match_at(url@, i as int) {
                    assert(url@.subrange(i as int, i + 5) == uid_marker());
                    assert(url@[i as int] == '/');
                    assert(url@[i + 1] == 'u');
                    assert(url@[i + 2] == 'i');
                    assert(url@[i + 3] == 'd');
                    assert(url@[i + 4] == '/');
                    assert(false);
                }
            }
        }
        if found {
            let start = i + 5;
            let mut e = start;
            while e < n && char_is_uid(url.get_char(e))
                invariant
                    start <= e <= n,
                    n == url@.len(),
                    uid_run_end(url@, start as int) == uid_run_end(url@, e as int),
                decreases n - e,
            {
                e = e + 1;
            }
            proof {
                assert(uid_run_end(url@, e as int) == e);
                assert(uid_search(url@, i as int) == Some(i as int));
                assert(uid_at(url@, i as int) == url@.subrange(start as int, e as int));
            }
            let token = url.substring_char(start, e);
            let owned = token.to_owned();
            proof {
                assert(uid_search(url@, 0) == Some(i as int));
                assert(spec_extracted_uid(url@) == Some(owned@));
            }
            return Some(owned);
        }
        i = i + 1;
    }
    proof {
        assert(uid_search(url@, i as int) is None);
    }
    None
}

/// The link set harvested from one page's anchors: each present attribute
/// value, trimmed and resolved against the site root, kept once in order of
/// first appearance.
pub open spec fn spec_links(hrefs: Seq<Option<Seq<char>>>) -> Seq<Seq<char>>
    decreases hrefs.len(),
{
    if hrefs.len() == 0 {
        Seq::empty()
    } else {
        let rest = spec_links(hrefs.drop_last());
        match hrefs.last() {
            Some(h) => {
                let link = site_base() + trimmed(h);
                if rest.contains(link) {
                    rest
                } else {
                    rest.push(link)
                }
            },
            None => rest,
        }
    }
}

proof fn lemma_spec_links_push(hrefs: Seq<Option<Seq<char>>>, x: Option<Seq<char>>)
    ensures
        spec_links(hrefs.push(x)) == (match x {
            Some(h) => {
                if spec_links(hrefs).contains(site_base() + trimmed(h)) {
                    spec_links(hrefs)
                } else {
                    spec_links(hrefs).push(site_base() + trimmed(h))
                }
            },
            None => spec_links(hrefs),
        }),
{
    assert(hrefs.push(x).drop_last() =~= hrefs);
    assert(hrefs.push(x).last() == x);
}

/// Every discovered link is absolute: it starts with the site root.
pub proof fn lemma_links_resolved(hrefs: Seq<Option<Seq<char>>>, k: int)
    requires
        0 <= k < spec_links(hrefs).len(),
    ensures
        spec_links(hrefs)[k].len() >= site_base().len(),
        spec_links(hrefs)[k].subrange(0, site_base().len() as int) == site_base(),
    decreases hrefs.len(),
{
    if hrefs.len() > 0 {
        let rest = spec_links(hrefs.drop_last());
        match hrefs.last() {
            Some(h) => {
                let link = site_base() + trimmed(h);
                if rest.contains(link) {
                    lemma_links_resolved(hrefs.drop_last(), k);
                } else if k < rest.len() {
                    lemma_links_resolved(hrefs.drop_last(), k);
                } else {
                    assert(spec_links(hrefs)[k] == link);
                    assert(link.subrange(0, site_base().len() as int) =~= site_base());
                }
            },
            None => {
                lemma_links_resolved(hrefs.drop_last(), k);
            },
        }
    }
}

/// Resolves and deduplicates the harvested link anchors of one page.
pub fn links_from_hrefs(hrefs: &Vec<Option<String>>) -> (r: Vec<String>)
    ensures
        views_of(r@) == spec_links(opt_views(hrefs@)),
        unique_views(views_of(r@)),
{
    let mut r: Vec<String> = Vec::new();
    let n = hrefs.len();
    let mut i: usize = 0;
    proof {
        assert(opt_views(hrefs@).take(0) =~= Seq::<Option<Seq<char>>>::empty());
        assert(views_of(r@) =~= spec_links(opt_views(hrefs@).take(0)));
    }
    while i < n
        invariant
            0 <= i <= n,
            n == hrefs@.len(),
            views_of(r@) == spec_links(opt_views(hrefs@).take(i as int)),
            unique_views(views_of(r@)),
        decreases n - i,
    {
        let ghost prefix = opt_views(hrefs@).take(i as int);
        proof {
            assert(opt_views(hrefs@).take(i + 1) =~= prefix.push(opt_views(hrefs@)[i as int]));
            assert(opt_views(hrefs@)[i as int] == opt_view(hrefs@[i as int]));
            lemma_spec_links_push(prefix, opt_view(hrefs@[i as int]));
        }
        match &hrefs[i] {
            Some(h) => {
                let link = with_site_base_url(trim_text(h.as_str()).as_str());
                if !contains_string(&r, &link) {
                    let ghost old_views = views_of(r@);
                    r.push(link);
                    proof {
                        assert(views_of(r@) =~= old_views.push(site_base() + trimmed(
                            hrefs@[i as int].unwrap()@,
                        )));
                    }
                }
            },
            None => {},
        }
        i = i + 1;
    }
    proof {
        assert(opt_views(hrefs@).take(n as int) =~= opt_views(hrefs@));
    }
    r
}

} // verus!
