//! What reading the directories of the search path reported, and what of it
//! counts: every failure stands for an entry that is not there.

use vstd::prelude::*;
use crate::listing::{DirEntry, DirListing, scan_view};

verus! {

/// The report on one entry of a directory.
#[derive(Clone, Debug)]
pub enum EntryReading {
    /// The entry was read and its name is text.
    Named(DirEntry),
    /// The entry was read, but its name cannot be written as text.
    Unnamed,
    /// The entry could not be read.
    Unreadable,
}

/// The report on one directory of the search path.
#[derive(Clone, Debug)]
pub enum DirReading {
    /// The directory was listed; its entries reported one by one.
    Entries(Vec<EntryReading>),
    /// Nothing is there under that name, or what is there is no directory.
    Missing,
    /// The directory is there but could not be listed.
    Unreadable,
}

impl View for EntryReading {
    type V = Option<(Seq<char>, Seq<char>)>;

    open spec fn view(&self) -> Option<(Seq<char>, Seq<char>)> {
        match self {
            EntryReading::Named(entry) => Some(entry@),
            _ => None,
        }
    }
}

/// The entries that count among those reported, in their order: the ones
/// that were read and have a name in text.
pub open spec fn kept(readings: Seq<EntryReading>) -> Seq<(Seq<char>, Seq<char>)>
    decreases readings.len(),
{
    if readings.len() == 0 {
        Seq::empty()
    } else {
        let before = kept(readings.drop_last());
        match readings.last()@ {
            Some(entry) => before.push(entry),
            None => before,
        }
    }
}

impl View for DirReading {
    type V = Seq<(Seq<char>, Seq<char>)>;

    open spec fn view(&self) -> Seq<(Seq<char>, Seq<char>)> {
        match self {
            DirReading::Entries(readings) => kept(readings@),
            _ => Seq::empty(),
        }
    }
}

/// The listings that the reports of a scan stand for, one per directory.
pub open spec fn readings_view(readings: Seq<DirReading>) -> Seq<Seq<(Seq<char>, Seq<char>)>> {
    Seq::new(readings.len(), |i: int| readings[i]@)
}

/// An entry counts exactly if some report carries it, and the entries that
/// count are never more than the reports.
pub proof fn law_kept_entries(readings: Seq<EntryReading>, entry: (Seq<char>, Seq<char>))
    ensures
        kept(readings).len() <= readings.len(),
        kept(readings).contains(entry) <==> exists|i: int|
            0 <= i < readings.len() && (#[trigger] readings[i])@ == Some(entry),
    decreases readings.len(),
{
    if readings.len() > 0 {
        let init = readings.drop_last();
        let last = readings.last();
        law_kept_entries(init, entry);
        if kept(readings).contains(entry) {
            let k = choose|k: int| 0 <= k < kept(readings).len() && kept(readings)[k] == entry;
            if k < kept(init).len() {
                assert(kept(init)[k] == entry);
                assert(kept(init).contains(entry));
                let i = choose|i: int| 0 <= i < init.len() && (#[trigger] init[i])@ == Some(entry);
                assert(readings[i]@ == Some(entry));
            } else {
                assert(readings[readings.len() - 1]@ == Some(entry));
            }
        }
        if exists|i: int| 0 <= i < readings.len() && (#[trigger] readings[i])@ == Some(entry) {
            let i = choose|i: int|
                0 <= i < readings.len() && (#[trigger] readings[i])@ == Some(entry);
            if i < init.len() {
                assert(init[i]@ == Some(entry));
                let k = choose|k: int| 0 <= k < kept(init).len() && kept(init)[k] == entry;
                assert(kept(readings)[k] == entry);
            } else {
                assert(kept(readings)[kept(readings).len() - 1] == entry);
            }
        }
    }
}

/// The listing that the report on one directory stands for. A directory
/// that is missing or cannot be listed contributes nothing, and so does an
/// entry that cannot be read or has no name in text.
pub fn listing_of(reading: &DirReading) -> (listing: DirListing)
    ensures
        listing@ == reading@,
{
    let mut listing = DirListing::new();
    match reading {
        DirReading::Entries(readings) => {
            let n: usize = readings.len();
            let mut i: usize = 0;
            assert(readings@.subrange(0, 0) =~= Seq::<EntryReading>::empty());
            while i < n
                invariant
                    n == readings@.len(),
                    i <= n,
                    listing@ == kept(readings@.subrange(0, i as int)),
                decreases n - i,
            {
                proof {
                    let next = readings@.subrange(0, i + 1);
                    assert(next.drop_last() =~= readings@.subrange(0, i as int));
                    assert(next.last() == readings@[i as int]);
                }
                match &readings[i] {
                    EntryReading::Named(entry) => {
                        listing.push(DirEntry::new(entry.name.as_str(), entry.path.as_str()));
                    },
                    _ => {},
                }
                i = i + 1;
            }
            assert(readings@.subrange(0, n as int) =~= readings@);
        },
        _ => {},
    }
    listing
}

/// The listings that the reports of a scan stand for, one per directory and
/// in the same order.
pub fn listings_of(readings: &Vec<DirReading>) -> (scan: Vec<DirListing>)
    ensures
        scan_view(scan@) == readings_view(readings@),
{
    let mut scan: Vec<DirListing> = Vec::new();
    let n: usize = readings.len();
    let mut i: usize = 0;
    while i < n
        invariant
            n == readings@.len(),
            i <= n,
            scan@.len() == i,
            forall|k: int| 0 <= k < i ==> (#[trigger] scan@[k])@ == readings@[k]@,
        decreases n - i,
    {
        let listing = listing_of(&readings[i]);
        scan.push(listing);
        i = i + 1;
    }
    assert(scan_view(scan@) =~= readings_view(readings@));
    scan
}

} // verus!
