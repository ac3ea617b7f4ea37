use r3dy::collect::{Collector, DirItem, EntryInfo, SymlinkTarget, WarningKind};
use r3dy::execute::no_files_message;

fn s(x: &str) -> String {
    x.to_string()
}

#[test]
fn walk_collects_matching_files_in_sorted_order() {
    let mut c = Collector::new(s("/r"), s("NEV"));
    let root = c.pop_pending().unwrap();
    assert_eq!(root, "/r");
    c.process_entry(
        root,
        EntryInfo::Directory(Ok(vec![DirItem::Child(s("/r/a")), DirItem::Child(s("/r/b"))])),
    );
    let b = c.pop_pending().unwrap();
    assert_eq!(b, "/r/b");
    c.process_entry(b, EntryInfo::Directory(Ok(vec![DirItem::Child(s("/r/b/y.R3D"))])));
    let by = c.pop_pending().unwrap();
    c.process_entry(by, EntryInfo::RegularFile);
    let a = c.pop_pending().unwrap();
    assert_eq!(a, "/r/a");
    c.process_entry(
        a,
        EntryInfo::Directory(
            Ok(vec![DirItem::Child(s("/r/a/y.NEV")), DirItem::Child(s("/r/a/x.NEV"))]),
        ),
    );
    let ax = c.pop_pending().unwrap();
    c.process_entry(ax, EntryInfo::RegularFile);
    let ay = c.pop_pending().unwrap();
    c.process_entry(ay, EntryInfo::RegularFile);
    assert!(c.pop_pending().is_none());
    let out = c.finish();
    assert_eq!(out.files, vec![s("/r/a/x.NEV"), s("/r/a/y.NEV")]);
    assert!(out.warnings.is_empty());
}

#[test]
fn collection_is_deterministic_across_visit_orders() {
    let mut first = Collector::new(s("/r"), s("NEV"));
    first.process_entry(s("/r/a/x.NEV"), EntryInfo::RegularFile);
    first.process_entry(s("/r/b/z.NEV"), EntryInfo::RegularFile);
    first.process_entry(s("/r/a/y.NEV"), EntryInfo::RegularFile);
    let mut second = Collector::new(s("/r"), s("NEV"));
    second.process_entry(s("/r/b/z.NEV"), EntryInfo::RegularFile);
    second.process_entry(s("/r/a/y.NEV"), EntryInfo::RegularFile);
    second.process_entry(s("/r/a/x.NEV"), EntryInfo::RegularFile);
    let one = first.finish();
    let two = second.finish();
    assert_eq!(one.files, two.files);
    assert_eq!(one.files, vec![s("/r/a/x.NEV"), s("/r/a/y.NEV"), s("/r/b/z.NEV")]);
}

#[test]
fn non_matching_files_are_ignored_silently() {
    let mut c = Collector::new(s("/r"), s("NEV"));
    let root = c.pop_pending().unwrap();
    c.process_entry(
        root,
        EntryInfo::Directory(
            Ok(vec![DirItem::Child(s("/r/clip.R3D")), DirItem::Child(s("/r/notes.txt"))]),
        ),
    );
    let second = c.pop_pending().unwrap();
    c.process_entry(second, EntryInfo::RegularFile);
    let third = c.pop_pending().unwrap();
    c.process_entry(third, EntryInfo::RegularFile);
    let out = c.finish();
    assert!(out.files.is_empty());
    assert!(out.warnings.is_empty());
}

#[test]
fn empty_tree_yields_no_candidates() {
    let mut c = Collector::new(s("/r"), s("NEV"));
    let root = c.pop_pending().unwrap();
    c.process_entry(root, EntryInfo::Directory(Ok(vec![])));
    assert!(c.pop_pending().is_none());
    let out = c.finish();
    assert!(out.files.is_empty());
    assert_eq!(no_files_message("NEV", "/r"), "No .NEV files found under /r");
}

#[test]
fn listing_error_warns_and_siblings_continue() {
    let mut c = Collector::new(s("/r"), s("NEV"));
    let root = c.pop_pending().unwrap();
    c.process_entry(
        root,
        EntryInfo::Directory(
            Ok(vec![DirItem::Child(s("/r/locked")), DirItem::Child(s("/r/open"))]),
        ),
    );
    let open_dir = c.pop_pending().unwrap();
    assert_eq!(open_dir, "/r/open");
    c.process_entry(
        open_dir,
        EntryInfo::Directory(Ok(vec![DirItem::Child(s("/r/open/z.nev"))])),
    );
    let z = c.pop_pending().unwrap();
    c.process_entry(z, EntryInfo::RegularFile);
    let locked = c.pop_pending().unwrap();
    assert_eq!(locked, "/r/locked");
    c.process_entry(locked, EntryInfo::Directory(Err(s("permission denied"))));
    assert!(c.pop_pending().is_none());
    let out = c.finish();
    assert_eq!(out.files, vec![s("/r/open/z.nev")]);
    assert_eq!(out.warnings.len(), 1);
    assert!(out.warnings[0].kind == WarningKind::DirListing);
    assert_eq!(out.warnings[0].path, "/r/locked");
    assert_eq!(
        out.warnings[0].message(),
        "Skipping directory /r/locked: permission denied"
    );
}

#[test]
fn unreadable_listing_entry_warns_but_rest_of_listing_counts() {
    let mut c = Collector::new(s("/r"), s("NEV"));
    let root = c.pop_pending().unwrap();
    c.process_entry(
        root,
        EntryInfo::Directory(
            Ok(
                vec![
                    DirItem::Child(s("/r/a.NEV")),
                    DirItem::Error(s("i/o error")),
                    DirItem::Child(s("/r/b.NEV")),
                ],
            ),
        ),
    );
    let b = c.pop_pending().unwrap();
    c.process_entry(b, EntryInfo::RegularFile);
    let a = c.pop_pending().unwrap();
    c.process_entry(a, EntryInfo::RegularFile);
    let out = c.finish();
    assert_eq!(out.files, vec![s("/r/a.NEV"), s("/r/b.NEV")]);
    assert_eq!(out.warnings.len(), 1);
    assert!(out.warnings[0].kind == WarningKind::DirEntry);
    assert_eq!(out.warnings[0].message(), "Skipping entry in /r: i/o error");
}

#[test]
fn vanished_entry_warns_and_is_skipped() {
    let mut c = Collector::new(s("/r"), s("NEV"));
    let root = c.pop_pending().unwrap();
    c.process_entry(root, EntryInfo::Directory(Ok(vec![DirItem::Child(s("/r/gone.NEV"))])));
    let gone = c.pop_pending().unwrap();
    c.process_entry(gone, EntryInfo::Unreadable(s("No such file or directory")));
    let out = c.finish();
    assert!(out.files.is_empty());
    assert_eq!(out.warnings.len(), 1);
    assert!(out.warnings[0].kind == WarningKind::Unreadable);
    assert_eq!(
        out.warnings[0].message(),
        "Skipping /r/gone.NEV: No such file or directory"
    );
}

#[test]
fn symlink_to_matching_file_is_included_as_the_link() {
    let mut c = Collector::new(s("/r"), s("NEV"));
    c.process_entry(s("/r/link.NEV"), EntryInfo::Symlink(Ok(SymlinkTarget::RegularFile)));
    let out = c.finish();
    assert_eq!(out.files, vec![s("/r/link.NEV")]);
}

#[test]
fn symlink_to_directory_is_not_descended() {
    let mut c = Collector::new(s("/r"), s("NEV"));
    let root = c.pop_pending().unwrap();
    c.process_entry(root, EntryInfo::Directory(Ok(vec![DirItem::Child(s("/r/dirlink.NEV"))])));
    let link = c.pop_pending().unwrap();
    c.process_entry(link, EntryInfo::Symlink(Ok(SymlinkTarget::Other)));
    assert!(c.pop_pending().is_none());
    let out = c.finish();
    assert!(out.files.is_empty());
    assert!(out.warnings.is_empty());
}

#[test]
fn dangling_symlink_warns_and_is_skipped() {
    let mut c = Collector::new(s("/r"), s("NEV"));
    c.process_entry(s("/r/dangling.NEV"), EntryInfo::Symlink(Err(s("broken link"))));
    let out = c.finish();
    assert!(out.files.is_empty());
    assert_eq!(out.warnings.len(), 1);
    assert!(out.warnings[0].kind == WarningKind::SymlinkResolve);
    assert_eq!(out.warnings[0].message(), "Skipping symlink /r/dangling.NEV: broken link");
}

#[test]
fn other_entries_are_ignored() {
    let mut c = Collector::new(s("/r"), s("NEV"));
    c.process_entry(s("/r/socket.NEV"), EntryInfo::Other);
    let out = c.finish();
    assert!(out.files.is_empty());
    assert!(out.warnings.is_empty());
}
