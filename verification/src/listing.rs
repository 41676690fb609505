//! What a scan of the search path found, and the rule by which listings are
//! merged into a cache: the first directory to list a name keeps it.

use vstd::prelude::*;

verus! {

/// One entry of a directory: its basename and its full path.
#[derive(Clone, Debug)]
pub struct DirEntry {
    pub name: String,
    pub path: String,
}

/// The entries of one directory of the search path, in the order in which
/// they were read. A directory that is missing or cannot be read has none.
#[derive(Clone, Debug)]
pub struct DirListing {
    pub entries: Vec<DirEntry>,
}

impl View for DirEntry {
    type V = (Seq<char>, Seq<char>);

    open spec fn view(&self) -> (Seq<char>, Seq<char>) {
        (self.name@, self.path@)
    }
}

impl View for DirListing {
    type V = Seq<(Seq<char>, Seq<char>)>;

    open spec fn view(&self) -> Seq<(Seq<char>, Seq<char>)> {
        Seq::new(self.entries@.len(), |i: int| self.entries@[i]@)
    }
}

impl DirEntry {
    /// The entry named `name` that lies at `path`.
    pub fn new(name: &str, path: &str) -> (entry: Self)
        ensures
            entry@ == (name@, path@),
    {
        DirEntry { name: name.to_owned(), path: path.to_owned() }
    }
}

impl DirListing {
    /// The listing without entries: what a directory contributes that is
    /// missing, is no directory, or cannot be read.
    pub fn new() -> (listing: Self)
        ensures
            listing@ == Seq::<(Seq<char>, Seq<char>)>::empty(),
    {
        let listing = DirListing { entries: Vec::new() };
        assert(listing@ =~= Seq::<(Seq<char>, Seq<char>)>::empty());
        listing
    }

    /// Appends an entry that was read after those already held.
    pub fn push(&mut self, entry: DirEntry)
        ensures
            final(self)@ == old(self)@.push(entry@),
    {
        self.entries.push(entry);
        assert(self@ =~= old(self)@.push(entry@));
    }
}

/// The listings of a scan, one per directory, in search-path order.
pub open spec fn scan_view(scan: Seq<DirListing>) -> Seq<Seq<(Seq<char>, Seq<char>)>> {
    Seq::new(scan.len(), |i: int| scan[i]@)
}

/// What a cache holds for `name`, if anything.
pub open spec fn entry_of(cache: Map<Seq<char>, Seq<char>>, name: Seq<char>) -> Option<
    Seq<char>,
> {
    if cache.contains_key(name) {
        Some(cache[name])
    } else {
        None
    }
}

/// The cache after one entry is offered to it: a name that is already
/// present keeps its path.
pub open spec fn with_entry(
    cache: Map<Seq<char>, Seq<char>>,
    name: Seq<char>,
    path: Seq<char>,
) -> Map<Seq<char>, Seq<char>> {
    if cache.contains_key(name) {
        cache
    } else {
        cache.insert(name, path)
    }
}

/// The cache after the entries of one directory are offered to it in order.
pub open spec fn with_listing(
    cache: Map<Seq<char>, Seq<char>>,
    entries: Seq<(Seq<char>, Seq<char>)>,
) -> Map<Seq<char>, Seq<char>>
    decreases entries.len(),
{
    if entries.len() == 0 {
        cache
    } else {
        with_entry(with_listing(cache, entries.drop_last()), entries.last().0, entries.last().1)
    }
}

/// The cache after a population pass over the listings of a scan, taken in
/// search-path order.
pub open spec fn populated(
    cache: Map<Seq<char>, Seq<char>>,
    scan: Seq<Seq<(Seq<char>, Seq<char>)>>,
) -> Map<Seq<char>, Seq<char>>
    decreases scan.len(),
{
    if scan.len() == 0 {
        cache
    } else {
        with_listing(populated(cache, scan.drop_last()), scan.last())
    }
}

/// `name` is the basename of some entry of the listing.
pub open spec fn lists(entries: Seq<(Seq<char>, Seq<char>)>, name: Seq<char>) -> bool {
    exists|i: int| 0 <= i < entries.len() && (#[trigger] entries[i]).0 == name
}

/// `name` is listed by some directory of the scan.
pub open spec fn scan_lists(scan: Seq<Seq<(Seq<char>, Seq<char>)>>, name: Seq<char>) -> bool {
    exists|d: int| 0 <= d < scan.len() && lists(#[trigger] scan[d], name)
}

/// Entry `e` of the listing is the first one named `name`.
pub open spec fn first_at(entries: Seq<(Seq<char>, Seq<char>)>, name: Seq<char>, e: int) -> bool {
    &&& 0 <= e < entries.len()
    &&& entries[e].0 == name
    &&& forall|j: int| 0 <= j < e ==> (#[trigger] entries[j]).0 != name
}

/// Merging a listing leaves every name that the cache held with its path,
/// and holds afterwards exactly the names of the cache and of the listing.
pub proof fn lemma_listing_grows(
    cache: Map<Seq<char>, Seq<char>>,
    entries: Seq<(Seq<char>, Seq<char>)>,
    name: Seq<char>,
)
    ensures
        cache.contains_key(name) ==> entry_of(with_listing(cache, entries), name) == Some(
            cache[name],
        ),
        with_listing(cache, entries).contains_key(name) <==> cache.contains_key(name) || lists(
            entries,
            name,
        ),
    decreases entries.len(),
{
    if entries.len() > 0 {
        let init = entries.drop_last();
        lemma_listing_grows(cache, init, name);
        if lists(init, name) {
            let i = choose|i: int| 0 <= i < init.len() && (#[trigger] init[i]).0 == name;
            assert(entries[i].0 == name);
        }
        if lists(entries, name) {
            let i = choose|i: int| 0 <= i < entries.len() && (#[trigger] entries[i]).0 == name;
            if i < init.len() {
                assert(init[i].0 == name);
            }
        }
        if entries.last().0 == name {
            assert(entries[entries.len() - 1].0 == name);
        }
    }
}

/// A name that the cache lacks gets the path of the first entry that
/// carries it.
pub proof fn lemma_listing_first(
    cache: Map<Seq<char>, Seq<char>>,
    entries: Seq<(Seq<char>, Seq<char>)>,
    name: Seq<char>,
    e: int,
)
    requires
        !cache.contains_key(name),
        first_at(entries, name, e),
    ensures
        entry_of(with_listing(cache, entries), name) == Some(entries[e].1),
    decreases entries.len(),
{
    let init = entries.drop_last();
    if e == entries.len() - 1 {
        lemma_listing_grows(cache, init, name);
        if lists(init, name) {
            let i = choose|i: int| 0 <= i < init.len() && (#[trigger] init[i]).0 == name;
            assert(entries[i].0 == name);
        }
    } else {
        assert(init[e] == entries[e]);
        assert forall|j: int| 0 <= j < e implies (#[trigger] init[j]).0 != name by {
            assert(init[j] == entries[j]);
        }
        lemma_listing_first(cache, init, name, e);
    }
}

/// What merging a listing does to one name depends only on what the cache
/// held for that name.
pub proof fn lemma_listing_local(
    a: Map<Seq<char>, Seq<char>>,
    b: Map<Seq<char>, Seq<char>>,
    entries: Seq<(Seq<char>, Seq<char>)>,
    name: Seq<char>,
)
    requires
        entry_of(a, name) == entry_of(b, name),
    ensures
        entry_of(with_listing(a, entries), name) == entry_of(with_listing(b, entries), name),
    decreases entries.len(),
{
    if entries.len() > 0 {
        lemma_listing_local(a, b, entries.drop_last(), name);
    }
}

/// A population pass leaves every name that the cache held with its path,
/// and holds afterwards exactly the names of the cache and of the scan.
pub proof fn lemma_populated_grows(
    cache: Map<Seq<char>, Seq<char>>,
    scan: Seq<Seq<(Seq<char>, Seq<char>)>>,
    name: Seq<char>,
)
    ensures
        cache.contains_key(name) ==> entry_of(populated(cache, scan), name) == Some(cache[name]),
        populated(cache, scan).contains_key(name) <==> cache.contains_key(name) || scan_lists(
            scan,
            name,
        ),
    decreases scan.len(),
{
    if scan.len() > 0 {
        let init = scan.drop_last();
        lemma_populated_grows(cache, init, name);
        lemma_listing_grows(populated(cache, init), scan.last(), name);
        if scan_lists(init, name) {
            let d = choose|d: int| 0 <= d < init.len() && lists(#[trigger] init[d], name);
            assert(lists(scan[d], name));
        }
        if scan_lists(scan, name) {
            let d = choose|d: int| 0 <= d < scan.len() && lists(#[trigger] scan[d], name);
            if d < init.len() {
                assert(lists(init[d], name));
            }
        }
        if lists(scan.last(), name) {
            assert(lists(scan[scan.len() - 1], name));
        }
    }
}

/// A name that the cache lacks gets its path from the first directory that
/// lists it, and there from the first entry that carries it.
pub proof fn lemma_populated_first(
    cache: Map<Seq<char>, Seq<char>>,
    scan: Seq<Seq<(Seq<char>, Seq<char>)>>,
    name: Seq<char>,
    d: int,
    e: int,
)
    requires
        !cache.contains_key(name),
        0 <= d < scan.len(),
        first_at(scan[d], name, e),
        forall|k: int| 0 <= k < d ==> !lists(#[trigger] scan[k], name),
    ensures
        entry_of(populated(cache, scan), name) == Some(scan[d][e].1),
    decreases scan.len(),
{
    let init = scan.drop_last();
    if d == scan.len() - 1 {
        lemma_populated_grows(cache, init, name);
        if scan_lists(init, name) {
            let k = choose|k: int| 0 <= k < init.len() && lists(#[trigger] init[k], name);
            assert(lists(scan[k], name));
        }
        lemma_listing_first(populated(cache, init), scan.last(), name, e);
    } else {
        assert(init[d] == scan[d]);
        assert forall|k: int| 0 <= k < d implies !lists(#[trigger] init[k], name) by {
            assert(init[k] == scan[k]);
        }
        lemma_populated_first(cache, init, name, d, e);
        lemma_listing_grows(populated(cache, init), scan.last(), name);
    }
}

/// What a population pass does to one name depends only on what the cache
/// held for that name.
pub proof fn lemma_populated_local(
    a: Map<Seq<char>, Seq<char>>,
    b: Map<Seq<char>, Seq<char>>,
    scan: Seq<Seq<(Seq<char>, Seq<char>)>>,
    name: Seq<char>,
)
    requires
        entry_of(a, name) == entry_of(b, name),
    ensures
        entry_of(populated(a, scan), name) == entry_of(populated(b, scan), name),
    decreases scan.len(),
{
    if scan.len() > 0 {
        let init = scan.drop_last();
        lemma_populated_local(a, b, init, name);
        lemma_listing_local(populated(a, init), populated(b, init), scan.last(), name);
    }
}

} // verus!
