//! The cache of program locations: basename to full path, growing only.

use vstd::prelude::*;
use vstd::hash_map::StringHashMap;
use crate::listing::{DirListing, entry_of, populated, scan_view, with_entry, with_listing};
use crate::listing::lemma_populated_grows;

verus! {

/// The number of entries that a new cache makes room for.
pub const INITIAL_CAPACITY: usize = 1024;

/// A mapping from program basenames to full paths. Each name has at most
/// one path; an entry, once made, is never replaced or removed.
pub struct BinaryCache {
    map: StringHashMap<String>,
}

impl View for BinaryCache {
    type V = Map<Seq<char>, Seq<char>>;

    closed spec fn view(&self) -> Map<Seq<char>, Seq<char>> {
        Map::new(|name: Seq<char>| self.map@.contains_key(name), |name: Seq<char>| self.map@[name]@)
    }
}

impl BinaryCache {
    /// The cache holds finitely many names.
    #[verifier::type_invariant]
    closed spec fn wf(&self) -> bool {
        self.map@.dom().finite()
    }

    /// An empty cache.
    pub fn new() -> (cache: Self)
        ensures
            cache@ == Map::<Seq<char>, Seq<char>>::empty(),
    {
        let cache = BinaryCache { map: StringHashMap::with_capacity(INITIAL_CAPACITY) };
        assert(cache@ =~= Map::<Seq<char>, Seq<char>>::empty());
        cache
    }

    /// The number of names that the cache holds.
    pub fn len(&self) -> (n: usize)
        ensures
            n == self@.len(),
            self@.dom().finite(),
    {
        proof {
            use_type_invariant(self);
            assert(self@.dom() =~= self.map@.dom());
        }
        self.map.len()
    }

    /// Whether the cache holds a path for `name`.
    pub fn contains(&self, name: &str) -> (held: bool)
        ensures
            held == self@.contains_key(name@),
    {
        self.map.contains_key(name)
    }

    /// The path that the cache holds for `name`, if any. The cache is only
    /// read.
    pub fn lookup(&self, name: &str) -> (path: Option<String>)
        ensures
            match path {
                Some(p) => entry_of(self@, name@) == Some(p@),
                None => entry_of(self@, name@).is_none(),
            },
    {
        match self.map.get(name) {
            Some(p) => Some(p.clone()),
            None => None,
        }
    }

    /// Offers one entry to the cache. It is taken only if the cache holds
    /// nothing for `name`; the result says whether it was.
    pub fn insert_if_absent(&mut self, name: String, path: String) -> (taken: bool)
        ensures
            final(self)@ == with_entry(old(self)@, name@, path@),
            taken == !old(self)@.contains_key(name@),
    {
        proof {
            use_type_invariant(&*self);
        }
        if self.map.contains_key(name.as_str()) {
            false
        } else {
            // The map is taken out while it grows, so that the cache holds
            // a whole map at every moment.
            let mut map: StringHashMap<String> = StringHashMap::new();
            core::mem::swap(&mut self.map, &mut map);
            map.insert(name, path);
            core::mem::swap(&mut self.map, &mut map);
            assert(self@ =~= old(self)@.insert(name@, path@));
            true
        }
    }

    /// Offers the entries of one directory to the cache, in their order.
    pub fn merge_listing(&mut self, listing: &DirListing)
        ensures
            final(self)@ == with_listing(old(self)@, listing@),
    {
        let n: usize = listing.entries.len();
        let mut i: usize = 0;
        while i < n
            invariant
                n == listing.entries@.len(),
                i <= n,
                self@ == with_listing(old(self)@, listing@.subrange(0, i as int)),
            decreases n - i,
        {
            let entry = &listing.entries[i];
            proof {
                let next = listing@.subrange(0, i + 1);
                assert(next.drop_last() =~= listing@.subrange(0, i as int));
                assert(next.last() == entry@);
            }
            self.insert_if_absent(entry.name.clone(), entry.path.clone());
            i = i + 1;
        }
        assert(listing@.subrange(0, n as int) =~= listing@);
    }

    /// One population pass: offers the listings of a scan to the cache, in
    /// search-path order. Every name that the cache held keeps its path.
    pub fn populate(&mut self, scan: &Vec<DirListing>)
        ensures
            final(self)@ == populated(old(self)@, scan_view(scan@)),
            old(self)@.submap_of(final(self)@),
    {
        let n: usize = scan.len();
        let mut i: usize = 0;
        while i < n
            invariant
                n == scan@.len(),
                i <= n,
                self@ == populated(old(self)@, scan_view(scan@).subrange(0, i as int)),
            decreases n - i,
        {
            proof {
                let next = scan_view(scan@).subrange(0, i + 1);
                assert(next.drop_last() =~= scan_view(scan@).subrange(0, i as int));
                assert(next.last() == scan@[i as int]@);
            }
            self.merge_listing(&scan[i]);
            i = i + 1;
        }
        proof {
            assert(scan_view(scan@).subrange(0, n as int) =~= scan_view(scan@));
            assert forall|name: Seq<char>| old(self)@.contains_key(name) implies #[trigger] self@.contains_key(name)
                && self@[name] == old(self)@[name] by {
                lemma_populated_grows(old(self)@, scan_view(scan@), name);
            }
        }
    }
}

} // verus!
