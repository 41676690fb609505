//! Answering a query for a program name from the cache, with one population
//! pass on a miss, and the laws that the answers obey.

use vstd::prelude::*;
use crate::cache::BinaryCache;
use crate::listing::{DirListing, entry_of, first_at, lists, populated, scan_lists, scan_view};
use crate::listing::{lemma_populated_first, lemma_populated_grows, lemma_populated_local};
use crate::listing::with_listing;
use crate::search_path::directories_of;

verus! {

/// The answer to one query.
#[derive(Clone, Debug, PartialEq, Eq)]
pub enum Lookup {
    /// The program is at this path.
    Found(String),
    /// The cache lacks the name, and so does the scan that was handed in.
    NotFound,
    /// The cache lacks the name and no scan was handed in: scan the search
    /// path and ask again with the result.
    ScanNeeded,
}

impl Lookup {
    /// The path that the answer carries, as text.
    pub open spec fn path_text(&self) -> Option<Seq<char>> {
        match self {
            Lookup::Found(p) => Some(p@),
            _ => None,
        }
    }

    /// The path that the answer carries, if it carries one.
    pub fn into_path(self) -> (path: Option<String>)
        ensures
            path == (match self {
                Lookup::Found(p) => Some(p),
                _ => None,
            }),
    {
        match self {
            Lookup::Found(p) => Some(p),
            _ => None,
        }
    }
}

/// The listings that an optional scan stands for.
pub open spec fn scan_of(scan: Option<&Vec<DirListing>>) -> Option<
    Seq<Seq<(Seq<char>, Seq<char>)>>,
> {
    match scan {
        None => None,
        Some(s) => Some(scan_view(s@)),
    }
}

/// The cache after a query for `name`: untouched on a hit and where no scan
/// is at hand, else after one population pass over the scan.
pub open spec fn cache_after(
    cache: Map<Seq<char>, Seq<char>>,
    name: Seq<char>,
    scan: Option<Seq<Seq<(Seq<char>, Seq<char>)>>>,
) -> Map<Seq<char>, Seq<char>> {
    match scan {
        None => cache,
        Some(s) => if cache.contains_key(name) {
            cache
        } else {
            populated(cache, s)
        },
    }
}

/// The path that a query for `name` yields when the scan is at hand.
pub open spec fn resolved(
    cache: Map<Seq<char>, Seq<char>>,
    name: Seq<char>,
    scan: Seq<Seq<(Seq<char>, Seq<char>)>>,
) -> Option<Seq<char>> {
    entry_of(cache_after(cache, name, Some(scan)), name)
}

/// What a population pass gives on an empty cache.
pub open spec fn fresh(scan: Seq<Seq<(Seq<char>, Seq<char>)>>) -> Map<Seq<char>, Seq<char>> {
    populated(Map::empty(), scan)
}

/// Whatever the cache holds for `name` is what a scan gives for it.
pub open spec fn agrees_with(
    cache: Map<Seq<char>, Seq<char>>,
    scan: Seq<Seq<(Seq<char>, Seq<char>)>>,
    name: Seq<char>,
) -> bool {
    cache.contains_key(name) ==> entry_of(fresh(scan), name) == Some(cache[name])
}

/// Every name that the cache holds has the path that a scan gives for it.
pub open spec fn consistent_with(
    cache: Map<Seq<char>, Seq<char>>,
    scan: Seq<Seq<(Seq<char>, Seq<char>)>>,
) -> bool {
    forall|name: Seq<char>| #[trigger]
        cache.contains_key(name) ==> entry_of(fresh(scan), name) == Some(cache[name])
}

/// Resolves a program name to its path.
///
/// A name that the cache holds is answered from it, and nothing else is
/// read. On a miss without a scan the answer is `ScanNeeded` and the cache
/// stays as it was. On a miss with a scan the cache takes one population
/// pass over it, and the answer is what the cache then holds for the name.
/// Nothing records that a pass was made: every miss asks for a new scan.
pub fn find_program(
    cache: &mut BinaryCache,
    name: &str,
    scan: Option<&Vec<DirListing>>,
) -> (result: Lookup)
    ensures
        final(cache)@ == cache_after(old(cache)@, name@, scan_of(scan)),
        old(cache)@.submap_of(final(cache)@),
        result.path_text() == entry_of(final(cache)@, name@),
        scan.is_some() ==> result.path_text() == resolved(
            old(cache)@,
            name@,
            scan_view(scan.unwrap()@),
        ),
        (result is ScanNeeded) <==> scan.is_none() && !old(cache)@.contains_key(name@),
        (result is NotFound) <==> scan.is_some() && !final(cache)@.contains_key(name@),
{
    match cache.lookup(name) {
        Some(p) => {
            return Lookup::Found(p);
        },
        None => {},
    }
    match scan {
        None => Lookup::ScanNeeded,
        Some(s) => {
            cache.populate(s);
            match cache.lookup(name) {
                Some(p) => Lookup::Found(p),
                None => Lookup::NotFound,
            }
        },
    }
}

/// A query on a cache that agrees with the scan about the name is answered
/// as a population pass on an empty cache would answer it.
pub proof fn law_answers_as_fresh_scan(
    cache: Map<Seq<char>, Seq<char>>,
    scan: Seq<Seq<(Seq<char>, Seq<char>)>>,
    name: Seq<char>,
)
    requires
        agrees_with(cache, scan, name),
    ensures
        resolved(cache, name, scan) == entry_of(fresh(scan), name),
{
    if !cache.contains_key(name) {
        lemma_populated_local(cache, Map::empty(), scan, name);
    }
}

/// A cache that holds only what a scan gives still does so after any query
/// against that scan, and agrees with the scan about every name. The empty
/// cache is such a cache.
pub proof fn law_consistency_kept(
    cache: Map<Seq<char>, Seq<char>>,
    scan: Seq<Seq<(Seq<char>, Seq<char>)>>,
    name: Seq<char>,
)
    requires
        consistent_with(cache, scan),
    ensures
        consistent_with(cache_after(cache, name, Some(scan)), scan),
        consistent_with(cache_after(cache, name, None), scan),
        forall|other: Seq<char>| agrees_with(cache, scan, other),
        consistent_with(Map::empty(), scan),
{
    let after = cache_after(cache, name, Some(scan));
    assert forall|other: Seq<char>| #[trigger] after.contains_key(other) implies entry_of(
        fresh(scan),
        other,
    ) == Some(after[other]) by {
        if cache.contains_key(other) {
            lemma_populated_grows(cache, scan, other);
        } else {
            lemma_populated_local(cache, Map::empty(), scan, other);
        }
    }
}

/// A name that no directory of the search path lists is not found.
pub proof fn law_unlisted_not_found(
    cache: Map<Seq<char>, Seq<char>>,
    scan: Seq<Seq<(Seq<char>, Seq<char>)>>,
    name: Seq<char>,
)
    requires
        agrees_with(cache, scan, name),
        !scan_lists(scan, name),
    ensures
        resolved(cache, name, scan).is_none(),
{
    lemma_populated_grows(Map::empty(), scan, name);
    lemma_populated_grows(cache, scan, name);
}

/// A name that exactly one directory lists resolves to its path in that
/// directory.
pub proof fn law_only_directory(
    cache: Map<Seq<char>, Seq<char>>,
    scan: Seq<Seq<(Seq<char>, Seq<char>)>>,
    name: Seq<char>,
    d: int,
    e: int,
)
    requires
        agrees_with(cache, scan, name),
        0 <= d < scan.len(),
        first_at(scan[d], name, e),
        forall|k: int| 0 <= k < scan.len() && k != d ==> !lists(#[trigger] scan[k], name),
    ensures
        resolved(cache, name, scan) == Some(scan[d][e].1),
{
    lemma_populated_first(Map::empty(), scan, name, d, e);
    law_answers_as_fresh_scan(cache, scan, name);
}

/// A name that two directories list resolves to its path in the earlier
/// one, where no directory before that one lists it.
pub proof fn law_earlier_directory_wins(
    cache: Map<Seq<char>, Seq<char>>,
    scan: Seq<Seq<(Seq<char>, Seq<char>)>>,
    name: Seq<char>,
    d1: int,
    e1: int,
    d2: int,
)
    requires
        agrees_with(cache, scan, name),
        0 <= d1 < d2 < scan.len(),
        first_at(scan[d1], name, e1),
        lists(scan[d2], name),
        forall|k: int| 0 <= k < d1 ==> !lists(#[trigger] scan[k], name),
    ensures
        resolved(cache, name, scan) == Some(scan[d1][e1].1),
{
    lemma_populated_first(Map::empty(), scan, name, d1, e1);
    law_answers_as_fresh_scan(cache, scan, name);
}

/// A listing whose names the cache all holds changes nothing.
pub proof fn lemma_listing_saturated(
    cache: Map<Seq<char>, Seq<char>>,
    entries: Seq<(Seq<char>, Seq<char>)>,
)
    requires
        forall|i: int| 0 <= i < entries.len() ==> cache.contains_key((#[trigger] entries[i]).0),
    ensures
        with_listing(cache, entries) == cache,
    decreases entries.len(),
{
    if entries.len() > 0 {
        let init = entries.drop_last();
        assert forall|i: int| 0 <= i < init.len() implies cache.contains_key(
            (#[trigger] init[i]).0,
        ) by {
            assert(init[i] == entries[i]);
        }
        lemma_listing_saturated(cache, init);
        assert(cache.contains_key(entries[entries.len() - 1].0));
    }
}

/// A second population pass over the same scan changes nothing.
pub proof fn law_population_settles(
    cache: Map<Seq<char>, Seq<char>>,
    scan: Seq<Seq<(Seq<char>, Seq<char>)>>,
)
    ensures
        populated(populated(cache, scan), scan) == populated(cache, scan),
{
    lemma_scan_saturated(populated(cache, scan), scan, cache, scan);
}

/// A scan changes nothing in a cache that already took a pass over a scan
/// holding all of its listings.
proof fn lemma_scan_saturated(
    full: Map<Seq<char>, Seq<char>>,
    part: Seq<Seq<(Seq<char>, Seq<char>)>>,
    cache: Map<Seq<char>, Seq<char>>,
    scan: Seq<Seq<(Seq<char>, Seq<char>)>>,
)
    requires
        full == populated(cache, scan),
        part.len() <= scan.len(),
        forall|d: int| 0 <= d < part.len() ==> #[trigger] part[d] == scan[d],
    ensures
        populated(full, part) == full,
    decreases part.len(),
{
    if part.len() > 0 {
        let init = part.drop_last();
        assert forall|d: int| 0 <= d < init.len() implies #[trigger] init[d] == scan[d] by {
            assert(init[d] == part[d]);
        }
        lemma_scan_saturated(full, init, cache, scan);
        let last = part.last();
        let at = part.len() - 1;
        assert(last == scan[at]);
        assert forall|i: int| 0 <= i < last.len() implies full.contains_key(
            (#[trigger] last[i]).0,
        ) by {
            assert(lists(scan[at], last[i].0));
            lemma_populated_grows(cache, scan, last[i].0);
        }
        lemma_listing_saturated(full, last);
    }
}

/// Asking twice with the same scan gives the same answer both times, and
/// the second query leaves the cache as the first one left it.
pub proof fn law_idempotent(
    cache: Map<Seq<char>, Seq<char>>,
    scan: Seq<Seq<(Seq<char>, Seq<char>)>>,
    name: Seq<char>,
)
    ensures
        resolved(cache_after(cache, name, Some(scan)), name, scan) == resolved(cache, name, scan),
        cache_after(cache_after(cache, name, Some(scan)), name, Some(scan)) == cache_after(
            cache,
            name,
            Some(scan),
        ),
{
    law_population_settles(cache, scan);
}

/// An unset or empty search path names no directory, whatever the
/// separator, and a scan of no directory leaves the cache as it was: a
/// name that the cache lacks is then not found.
pub proof fn law_empty_search_path(
    cache: Map<Seq<char>, Seq<char>>,
    name: Seq<char>,
    separator: char,
)
    ensures
        directories_of(None, separator).len() == 0,
        directories_of(Some(Seq::empty()), separator).len() == 0,
        cache_after(cache, name, Some(Seq::empty())) == cache,
        resolved(cache, name, Seq::empty()) == entry_of(cache, name),
        resolved(Map::empty(), name, Seq::empty()).is_none(),
{
}

} // verus!
