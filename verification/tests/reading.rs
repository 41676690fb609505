use binary_locator::{
    find_program, listing_of, listings_of, BinaryCache, DirEntry, DirReading, EntryReading, Lookup,
};

fn named(name: &str, path: &str) -> EntryReading {
    EntryReading::Named(DirEntry::new(name, path))
}

fn names_and_paths(reading: &DirReading) -> Vec<(String, String)> {
    listing_of(reading).entries.iter().map(|e| (e.name.clone(), e.path.clone())).collect()
}

#[test]
fn missing_directory_has_no_entries() {
    assert!(listing_of(&DirReading::Missing).entries.is_empty());
}

#[test]
fn unreadable_directory_has_no_entries() {
    assert!(listing_of(&DirReading::Unreadable).entries.is_empty());
}

#[test]
fn listed_directory_without_entries_has_none() {
    assert!(listing_of(&DirReading::Entries(Vec::new())).entries.is_empty());
}

#[test]
fn named_entries_are_kept_in_order() {
    let reading = DirReading::Entries(vec![named("ls", "/bin/ls"), named("cat", "/bin/cat")]);
    assert_eq!(
        names_and_paths(&reading),
        vec![
            ("ls".to_string(), "/bin/ls".to_string()),
            ("cat".to_string(), "/bin/cat".to_string())
        ]
    );
}

#[test]
fn unreadable_and_unnamed_entries_are_skipped() {
    let reading = DirReading::Entries(vec![
        EntryReading::Unreadable,
        named("ls", "/bin/ls"),
        EntryReading::Unnamed,
        EntryReading::Unnamed,
        named("sh", "/bin/sh"),
        EntryReading::Unreadable,
    ]);
    assert_eq!(
        names_and_paths(&reading),
        vec![("ls".to_string(), "/bin/ls".to_string()), ("sh".to_string(), "/bin/sh".to_string())]
    );
}

#[test]
fn listings_of_gives_one_listing_per_directory() {
    let readings = vec![
        DirReading::Missing,
        DirReading::Entries(vec![named("env", "/usr/bin/env"), EntryReading::Unnamed]),
        DirReading::Unreadable,
        DirReading::Entries(vec![named("sh", "/bin/sh")]),
    ];
    let scan = listings_of(&readings);
    assert_eq!(scan.len(), 4);
    assert_eq!(scan[0].entries.len(), 0);
    assert_eq!(scan[1].entries.len(), 1);
    assert_eq!(scan[1].entries[0].path, "/usr/bin/env");
    assert_eq!(scan[2].entries.len(), 0);
    assert_eq!(scan[3].entries[0].name, "sh");
    assert!(listings_of(&Vec::new()).is_empty());
}

#[test]
fn failures_read_as_absent_programs() {
    let readings = vec![
        DirReading::Unreadable,
        DirReading::Entries(vec![EntryReading::Unreadable, named("env", "/usr/bin/env")]),
        DirReading::Missing,
    ];
    let scan = listings_of(&readings);
    let mut cache = BinaryCache::new();
    assert_eq!(
        find_program(&mut cache, "env", Some(&scan)),
        Lookup::Found("/usr/bin/env".to_string())
    );
    assert_eq!(find_program(&mut cache, "ls", Some(&scan)), Lookup::NotFound);
    assert_eq!(cache.len(), 1);
}
