//! The tree collector: a work-list walk over filesystem entries, reported to
//! it one at a time, that selects candidate files by extension, records
//! non-fatal warnings, and finishes with a deterministically ordered list.
//!
//! The collector itself makes no filesystem call. The surrounding binary pops
//! a pending path, queries the filesystem about it, and reports what it saw
//! as an [`EntryInfo`]; every transition here is pinned to the spec-level
//! [`collector_step`] function, so whole-walk statements can be proved by
//! folding that function over the reported entries.

use vstd::prelude::*;
use vstd::relations::sorted_by;
use vstd::seq_lib::lemma_sorted_unique;
use vstd::string::*;

use crate::fspath::{has_extension, spec_has_extension};
use crate::order::{path_views, sort_paths};
use crate::text::{lex_le_fn, lemma_lex_le_total_ordering};

verus! {

/// One entry of a directory listing: a child path, or a failure to read
/// that particular entry.
pub enum DirItem {
    Child(String),
    Error(String),
}

/// What following a symlink found at its target.
#[derive(Clone, Copy, PartialEq, Eq, Structural)]
pub enum SymlinkTarget {
    RegularFile,
    Other,
}

/// What the filesystem showed about one pending path, queried link-aware
/// first: a directory together with its listing attempt, a regular file, a
/// symlink together with the attempt to follow it, something else entirely,
/// or a failed metadata query.
pub enum EntryInfo {
    Directory(Result<Vec<DirItem>, String>),
    RegularFile,
    Symlink(Result<SymlinkTarget, String>),
    Other,
    Unreadable(String),
}

/// Why a path was passed over during the walk.
#[derive(Clone, Copy, PartialEq, Eq, Structural)]
pub enum WarningKind {
    /// The metadata query for the path failed.
    Unreadable,
    /// The path is a directory whose listing failed.
    DirListing,
    /// One entry of a directory listing could not be read.
    DirEntry,
    /// The path is a symlink that could not be followed.
    SymlinkResolve,
}

/// A non-fatal incident of the walk: the affected path and the error text.
pub struct Warning {
    pub kind: WarningKind,
    pub path: String,
    pub detail: String,
}

/// Spec-level image of a [`Warning`].
pub struct WarningModel {
    pub kind: WarningKind,
    pub path: Seq<char>,
    pub detail: Seq<char>,
}

/// Spec-level image of a [`DirItem`].
pub enum DirItemModel {
    Child(Seq<char>),
    Error(Seq<char>),
}

/// Spec-level image of an [`EntryInfo`].
pub enum EntryInfoModel {
    Directory(Result<Seq<DirItemModel>, Seq<char>>),
    RegularFile,
    Symlink(Result<SymlinkTarget, Seq<char>>),
    Other,
    Unreadable(Seq<char>),
}

impl View for Warning {
    type V = WarningModel;

    open spec fn view(&self) -> WarningModel {
        WarningModel { kind: self.kind, path: self.path@, detail: self.detail@ }
    }
}

impl View for DirItem {
    type V = DirItemModel;

    open spec fn view(&self) -> DirItemModel {
        match self {
            DirItem::Child(p) => DirItemModel::Child(p@),
            DirItem::Error(e) => DirItemModel::Error(e@),
        }
    }
}

/// The spec-level images of a sequence of listing entries.
pub open spec fn dir_item_views(s: Seq<DirItem>) -> Seq<DirItemModel> {
    s.map_values(|d: DirItem| d@)
}

/// The spec-level images of a sequence of warnings.
pub open spec fn warning_views(s: Seq<Warning>) -> Seq<WarningModel> {
    s.map_values(|w: Warning| w@)
}

impl View for EntryInfo {
    type V = EntryInfoModel;

    open spec fn view(&self) -> EntryInfoModel {
        match self {
            EntryInfo::Directory(Ok(items)) => EntryInfoModel::Directory(
                Ok(dir_item_views(items@)),
            ),
            EntryInfo::Directory(Err(e)) => EntryInfoModel::Directory(Err(e@)),
            EntryInfo::RegularFile => EntryInfoModel::RegularFile,
            EntryInfo::Symlink(Ok(t)) => EntryInfoModel::Symlink(Ok(*t)),
            EntryInfo::Symlink(Err(e)) => EntryInfoModel::Symlink(Err(e@)),
            EntryInfo::Other => EntryInfoModel::Other,
            EntryInfo::Unreadable(e) => EntryInfoModel::Unreadable(e@),
        }
    }
}

/// The walk's whole state: the extension looked for, the paths still to
/// visit, the candidates found, and the warnings recorded so far.
pub struct CollectorModel {
    pub ext: Seq<char>,
    pub pending: Seq<Seq<char>>,
    pub files: Seq<Seq<char>>,
    pub warnings: Seq<WarningModel>,
}

/// The child paths named by a directory listing, in listing order.
pub open spec fn child_paths(items: Seq<DirItemModel>) -> Seq<Seq<char>>
    decreases items.len(),
{
    if items.len() == 0 {
        Seq::<Seq<char>>::empty()
    } else {
        let rest = child_paths(items.drop_last());
        match items.last() {
            DirItemModel::Child(p) => rest.push(p),
            DirItemModel::Error(_) => rest,
        }
    }
}

/// The warnings arising from the unreadable entries of a directory listing,
/// in listing order.
pub open spec fn entry_warnings(dir: Seq<char>, items: Seq<DirItemModel>) -> Seq<WarningModel>
    decreases items.len(),
{
    if items.len() == 0 {
        Seq::<WarningModel>::empty()
    } else {
        let rest = entry_warnings(dir, items.drop_last());
        match items.last() {
            DirItemModel::Child(_) => rest,
            DirItemModel::Error(e) => rest.push(
                WarningModel { kind: WarningKind::DirEntry, path: dir, detail: e },
            ),
        }
    }
}

/// How one reported entry advances the walk: a readable directory enqueues
/// its children (and records a warning per unreadable listing entry); a
/// regular file, or a symlink resolving to one, joins the candidates when
/// its extension matches; every failure becomes a warning; nothing else
/// changes anything. No outcome ever stops the walk or touches the paths
/// already pending, so trouble below one directory never hides its siblings.
pub open spec fn collector_step(
    m: CollectorModel,
    path: Seq<char>,
    info: EntryInfoModel,
) -> CollectorModel {
    match info {
        EntryInfoModel::Directory(Ok(items)) => CollectorModel {
            pending: m.pending + child_paths(items),
            warnings: m.warnings + entry_warnings(path, items),
            ..m
        },
        EntryInfoModel::Directory(Err(e)) => CollectorModel {
            warnings: m.warnings.push(
                WarningModel { kind: WarningKind::DirListing, path: path, detail: e },
            ),
            ..m
        },
        EntryInfoModel::RegularFile => if spec_has_extension(path, m.ext) {
            CollectorModel { files: m.files.push(path), ..m }
        } else {
            m
        },
        EntryInfoModel::Symlink(Ok(SymlinkTarget::RegularFile)) => if spec_has_extension(
            path,
            m.ext,
        ) {
            CollectorModel { files: m.files.push(path), ..m }
        } else {
            m
        },
        EntryInfoModel::Symlink(Ok(SymlinkTarget::Other)) => m,
        EntryInfoModel::Symlink(Err(e)) => CollectorModel {
            warnings: m.warnings.push(
                WarningModel { kind: WarningKind::SymlinkResolve, path: path, detail: e },
            ),
            ..m
        },
        EntryInfoModel::Other => m,
        EntryInfoModel::Unreadable(e) => CollectorModel {
            warnings: m.warnings.push(
                WarningModel { kind: WarningKind::Unreadable, path: path, detail: e },
            ),
            ..m
        },
    }
}

/// The warning line as the run prints it, naming the affected path and the
/// error.
pub open spec fn spec_warning_message(w: WarningModel) -> Seq<char> {
    match w.kind {
        WarningKind::Unreadable => "Skipping "@ + w.path + ": "@ + w.detail,
        WarningKind::DirListing => "Skipping directory "@ + w.path + ": "@ + w.detail,
        WarningKind::DirEntry => "Skipping entry in "@ + w.path + ": "@ + w.detail,
        WarningKind::SymlinkResolve => "Skipping symlink "@ + w.path + ": "@ + w.detail,
    }
}

impl Warning {
    /// See [`spec_warning_message`].
    pub fn message(&self) -> (r: String)
        ensures
            r@ == spec_warning_message(self@),
    {
        let mut r = match self.kind {
            WarningKind::Unreadable => String::from_str("Skipping "),
            WarningKind::DirListing => String::from_str("Skipping directory "),
            WarningKind::DirEntry => String::from_str("Skipping entry in "),
            WarningKind::SymlinkResolve => String::from_str("Skipping symlink "),
        };
        r.append(self.path.as_str());
        r.append(": ");
        r.append(self.detail.as_str());
        proof {
            assert(r@ =~= spec_warning_message(self@));
        }
        r
    }
}

/// A directory whose listing fails costs one warning naming that directory
/// and nothing more: the work list, the candidates and the extension are
/// untouched, so every other pending path is still visited.
pub proof fn lemma_listing_failure_is_nonfatal(
    m: CollectorModel,
    path: Seq<char>,
    e: Seq<char>,
)
    ensures
        collector_step(m, path, EntryInfoModel::Directory(Err(e))).pending == m.pending,
        collector_step(m, path, EntryInfoModel::Directory(Err(e))).files == m.files,
        collector_step(m, path, EntryInfoModel::Directory(Err(e))).warnings == m.warnings.push(
            WarningModel { kind: WarningKind::DirListing, path: path, detail: e },
        ),
{
}

/// The walk state machine, driven from outside: pop a pending path, look it
/// up, report what was seen.
pub struct Collector {
    ext: String,
    pending: Vec<String>,
    files: Vec<String>,
    warnings: Vec<Warning>,
}

impl View for Collector {
    type V = CollectorModel;

    closed spec fn view(&self) -> CollectorModel {
        CollectorModel {
            ext: self.ext@,
            pending: path_views(self.pending@),
            files: path_views(self.files@),
            warnings: warning_views(self.warnings@),
        }
    }
}

/// The candidates and warnings of a finished walk.
pub struct CollectedFiles {
    pub files: Vec<String>,
    pub warnings: Vec<Warning>,
}

impl Collector {
    /// A fresh walk: the root is the one pending path and nothing has been
    /// found yet.
    pub fn new(root: String, extension: String) -> (c: Collector)
        ensures
            c@ == (CollectorModel {
                ext: extension@,
                pending: seq![root@],
                files: Seq::<Seq<char>>::empty(),
                warnings: Seq::<WarningModel>::empty(),
            }),
    {
        let mut pending: Vec<String> = Vec::new();
        pending.push(root);
        let c = Collector { ext: extension, pending, files: Vec::new(), warnings: Vec::new() };
        proof {
            assert(c@.pending =~= seq![c.pending@[0]@]);
            assert(c@.files =~= Seq::<Seq<char>>::empty());
            assert(c@.warnings =~= Seq::<WarningModel>::empty());
        }
        c
    }

    /// Takes the next path to visit off the work list, if one is left.
    pub fn pop_pending(&mut self) -> (r: Option<String>)
        ensures
            old(self)@.pending.len() == 0 ==> r is None && final(self)@ == old(self)@,
            old(self)@.pending.len() > 0 ==> (r matches Some(p) && p@ == old(
                self,
            )@.pending.last() && final(self)@ == (CollectorModel {
                pending: old(self)@.pending.drop_last(),
                ..old(self)@
            })),
    {
        let r = self.pending.pop();
        proof {
            if old(self)@.pending.len() == 0 {
                assert(final(self)@.pending =~= old(self)@.pending);
                assert(final(self)@ == old(self)@);
            } else {
                assert(final(self)@.pending =~= old(self)@.pending.drop_last());
            }
        }
        r
    }

    /// Records what the filesystem showed about `path`; the transition is
    /// exactly [`collector_step`].
    pub fn process_entry(&mut self, path: String, info: EntryInfo)
        ensures
            final(self)@ == collector_step(old(self)@, path@, info@),
    {
        match info {
            EntryInfo::Directory(Ok(items)) => {
                let ghost all = dir_item_views(items@);
                let mut items = items;
                let ghost mut k: int = 0;
                while items.len() > 0
                    invariant
                        0 <= k,
                        k + items@.len() == all.len(),
                        dir_item_views(items@) =~= all.skip(k),
                        self@.ext == old(self)@.ext,
                        self@.files == old(self)@.files,
                        self@.pending =~= old(self)@.pending + child_paths(all.take(k)),
                        self@.warnings =~= old(self)@.warnings + entry_warnings(
                            path@,
                            all.take(k),
                        ),
                    decreases items@.len(),
                {
                    let ghost before_items = items@;
                    let item = items.remove(0);
                    proof {
                        assert(dir_item_views(before_items)[0] == item@);
                        assert(all.skip(k)[0] == all[k]);
                        assert forall|j: int| 0 <= j < items@.len() implies dir_item_views(
                            items@,
                        )[j] == all.skip(k + 1)[j] by {
                            assert(items@[j] == before_items[j + 1]);
                            assert(dir_item_views(before_items)[j + 1] == all.skip(k)[j + 1]);
                            assert(all.skip(k)[j + 1] == all[k + 1 + j]);
                            assert(all.skip(k + 1)[j] == all[k + 1 + j]);
                        }
                        assert(dir_item_views(items@) =~= all.skip(k + 1));
                        assert(all.take(k + 1).drop_last() =~= all.take(k));
                        assert(all.take(k + 1).last() == all[k]);
                    }
                    match item {
                        DirItem::Child(p) => {
                            let ghost pp = p@;
                            let ghost pre = self@;
                            self.pending.push(p);
                            proof {
                                assert(self@.pending =~= pre.pending.push(pp));
                                assert(child_paths(all.take(k + 1)) == child_paths(
                                    all.take(k),
                                ).push(pp));
                                assert(self@.pending =~= old(self)@.pending + child_paths(
                                    all.take(k + 1),
                                ));
                                assert(entry_warnings(path@, all.take(k + 1)) == entry_warnings(
                                    path@,
                                    all.take(k),
                                ));
                            }
                        },
                        DirItem::Error(e) => {
                            let ghost ee = e@;
                            let ghost pre = self@;
                            self.warnings.push(
                                Warning {
                                    kind: WarningKind::DirEntry,
                                    path: path.clone(),
                                    detail: e,
                                },
                            );
                            proof {
                                let w = WarningModel {
                                    kind: WarningKind::DirEntry,
                                    path: path@,
                                    detail: ee,
                                };
                                assert(self@.warnings =~= pre.warnings.push(w));
                                assert(entry_warnings(path@, all.take(k + 1)) == entry_warnings(
                                    path@,
                                    all.take(k),
                                ).push(w));
                                assert(self@.warnings =~= old(self)@.warnings + entry_warnings(
                                    path@,
                                    all.take(k + 1),
                                ));
                                assert(child_paths(all.take(k + 1)) == child_paths(all.take(k)));
                            }
                        },
                    }
                    proof {
                        k = k + 1;
                    }
                }
                proof {
                    assert(all.take(all.len() as int) =~= all);
                    assert(final(self)@ == collector_step(old(self)@, path@, info@));
                }
            },
            EntryInfo::Directory(Err(e)) => {
                self.warnings.push(
                    Warning { kind: WarningKind::DirListing, path, detail: e },
                );
                proof {
                    assert(final(self)@.warnings =~= old(self)@.warnings.push(
                        WarningModel {
                            kind: WarningKind::DirListing,
                            path: path@,
                            detail: e@,
                        },
                    ));
                }
            },
            EntryInfo::RegularFile => {
                if has_extension(path.as_str(), self.ext.as_str()) {
                    self.files.push(path);
                    proof {
                        assert(final(self)@.files =~= old(self)@.files.push(path@));
                    }
                }
            },
            EntryInfo::Symlink(Ok(t)) => {
                match t {
                    SymlinkTarget::RegularFile => {
                        if has_extension(path.as_str(), self.ext.as_str()) {
                            self.files.push(path);
                            proof {
                                assert(final(self)@.files =~= old(self)@.files.push(path@));
                            }
                        }
                    },
                    SymlinkTarget::Other => {},
                }
            },
            EntryInfo::Symlink(Err(e)) => {
                self.warnings.push(
                    Warning { kind: WarningKind::SymlinkResolve, path, detail: e },
                );
                proof {
                    assert(final(self)@.warnings =~= old(self)@.warnings.push(
                        WarningModel {
                            kind: WarningKind::SymlinkResolve,
                            path: path@,
                            detail: e@,
                        },
                    ));
                }
            },
            EntryInfo::Other => {},
            EntryInfo::Unreadable(e) => {
                self.warnings.push(
                    Warning { kind: WarningKind::Unreadable, path, detail: e },
                );
                proof {
                    assert(final(self)@.warnings =~= old(self)@.warnings.push(
                        WarningModel {
                            kind: WarningKind::Unreadable,
                            path: path@,
                            detail: e@,
                        },
                    ));
                }
            },
        }
    }

    /// Ends the walk: the candidates are handed out in the unique
    /// lexicographically sorted order, the warnings in discovery order.
    pub fn finish(self) -> (r: CollectedFiles)
        ensures
            path_views(r.files@) == self@.files.sort_by(lex_le_fn()),
            sorted_by(path_views(r.files@), lex_le_fn()),
            warning_views(r.warnings@) == self@.warnings,
    {
        let Collector { ext: _, pending: _, mut files, warnings } = self;
        sort_paths(&mut files);
        CollectedFiles { files, warnings }
    }
}

/// The walk state after a whole sequence of reported entries, each one a
/// (path, what was seen there) pair, folded through [`collector_step`].
pub open spec fn run_steps(
    m: CollectorModel,
    events: Seq<(Seq<char>, EntryInfoModel)>,
) -> CollectorModel
    decreases events.len(),
{
    if events.len() == 0 {
        m
    } else {
        collector_step(run_steps(m, events.drop_last()), events.last().0, events.last().1)
    }
}

/// A reported entry is a matching candidate: a regular file, or a symlink
/// resolving to one, whose extension matches `ext` without regard to case.
pub open spec fn included(ext: Seq<char>, path: Seq<char>, info: EntryInfoModel) -> bool {
    match info {
        EntryInfoModel::RegularFile => spec_has_extension(path, ext),
        EntryInfoModel::Symlink(Ok(SymlinkTarget::RegularFile)) => spec_has_extension(path, ext),
        _ => false,
    }
}

/// The paths of the matching entries among `events`, in reporting order.
pub open spec fn included_paths(
    ext: Seq<char>,
    events: Seq<(Seq<char>, EntryInfoModel)>,
) -> Seq<Seq<char>>
    decreases events.len(),
{
    if events.len() == 0 {
        Seq::<Seq<char>>::empty()
    } else {
        let rest = included_paths(ext, events.drop_last());
        if included(ext, events.last().0, events.last().1) {
            rest.push(events.last().0)
        } else {
            rest
        }
    }
}

/// However a walk unfolds, the collector's candidate list holds exactly the
/// matching entries it was shown — every file whose extension matches, and
/// no others — and the extension it matches against never changes.
pub proof fn lemma_collector_files_exact(
    m: CollectorModel,
    events: Seq<(Seq<char>, EntryInfoModel)>,
)
    ensures
        run_steps(m, events).files == m.files + included_paths(m.ext, events),
        run_steps(m, events).ext == m.ext,
    decreases events.len(),
{
    if events.len() == 0 {
        assert(m.files + included_paths(m.ext, events) =~= m.files);
    } else {
        lemma_collector_files_exact(m, events.drop_last());
        let prev = run_steps(m, events.drop_last());
        let path = events.last().0;
        let info = events.last().1;
        if included(m.ext, path, info) {
            assert(m.files + included_paths(m.ext, events) =~= (m.files + included_paths(
                m.ext,
                events.drop_last(),
            )).push(path));
        } else {
            assert(included_paths(m.ext, events) == included_paths(m.ext, events.drop_last()));
        }
    }
}

/// The warnings one reported entry gives rise to, in the order they are
/// recorded.
pub open spec fn event_warnings(path: Seq<char>, info: EntryInfoModel) -> Seq<WarningModel> {
    match info {
        EntryInfoModel::Directory(Ok(items)) => entry_warnings(path, items),
        EntryInfoModel::Directory(Err(e)) => seq![
            WarningModel { kind: WarningKind::DirListing, path: path, detail: e },
        ],
        EntryInfoModel::Symlink(Err(e)) => seq![
            WarningModel { kind: WarningKind::SymlinkResolve, path: path, detail: e },
        ],
        EntryInfoModel::Unreadable(e) => seq![
            WarningModel { kind: WarningKind::Unreadable, path: path, detail: e },
        ],
        _ => Seq::<WarningModel>::empty(),
    }
}

/// The warnings of a whole walk's reported entries, in reporting order.
pub open spec fn run_warnings(events: Seq<(Seq<char>, EntryInfoModel)>) -> Seq<WarningModel>
    decreases events.len(),
{
    if events.len() == 0 {
        Seq::<WarningModel>::empty()
    } else {
        run_warnings(events.drop_last()) + event_warnings(events.last().0, events.last().1)
    }
}

/// Full error accounting: every incident of the walk is on record and none
/// aborts it — after any sequence of reported entries, the warnings are
/// exactly those the entries gave rise to, in discovery order.
pub proof fn lemma_collector_warnings_exact(
    m: CollectorModel,
    events: Seq<(Seq<char>, EntryInfoModel)>,
)
    ensures
        run_steps(m, events).warnings == m.warnings + run_warnings(events),
    decreases events.len(),
{
    if events.len() == 0 {
        assert(m.warnings + run_warnings(events) =~= m.warnings);
    } else {
        lemma_collector_warnings_exact(m, events.drop_last());
        let prev = run_steps(m, events.drop_last());
        let path = events.last().0;
        let info = events.last().1;
        assert(m.warnings + run_warnings(events) =~= (m.warnings + run_warnings(
            events.drop_last(),
        )) + event_warnings(path, info));
        match info {
            EntryInfoModel::Directory(Ok(_)) => {},
            EntryInfoModel::Directory(Err(e)) => {
                assert(prev.warnings + event_warnings(path, info) =~= prev.warnings.push(
                    WarningModel { kind: WarningKind::DirListing, path: path, detail: e },
                ));
            },
            EntryInfoModel::Symlink(Err(e)) => {
                assert(prev.warnings + event_warnings(path, info) =~= prev.warnings.push(
                    WarningModel { kind: WarningKind::SymlinkResolve, path: path, detail: e },
                ));
            },
            EntryInfoModel::Unreadable(e) => {
                assert(prev.warnings + event_warnings(path, info) =~= prev.warnings.push(
                    WarningModel { kind: WarningKind::Unreadable, path: path, detail: e },
                ));
            },
            _ => {
                assert(prev.warnings + event_warnings(path, info) =~= prev.warnings);
            },
        }
    }
}

/// Determinism of collection: two walks over the same unchanged tree may
/// visit and report entries in different orders, but as long as they are
/// shown the same matching files, the finished, sorted candidate lists are
/// identical.
pub proof fn lemma_collect_deterministic(
    m1: CollectorModel,
    m2: CollectorModel,
    ev1: Seq<(Seq<char>, EntryInfoModel)>,
    ev2: Seq<(Seq<char>, EntryInfoModel)>,
)
    requires
        m1.ext == m2.ext,
        m1.files.len() == 0,
        m2.files.len() == 0,
        included_paths(m1.ext, ev1).to_multiset() == included_paths(m2.ext, ev2).to_multiset(),
    ensures
        run_steps(m1, ev1).files.sort_by(lex_le_fn()) == run_steps(m2, ev2).files.sort_by(
            lex_le_fn(),
        ),
{
    lemma_collector_files_exact(m1, ev1);
    lemma_collector_files_exact(m2, ev2);
    assert(run_steps(m1, ev1).files =~= included_paths(m1.ext, ev1));
    assert(run_steps(m2, ev2).files =~= included_paths(m2.ext, ev2));
    lemma_lex_le_total_ordering();
    let lex = lex_le_fn();
    run_steps(m1, ev1).files.lemma_sort_by_ensures(lex);
    run_steps(m2, ev2).files.lemma_sort_by_ensures(lex);
    lemma_sorted_unique(
        run_steps(m1, ev1).files.sort_by(lex),
        run_steps(m2, ev2).files.sort_by(lex),
        lex,
    );
}

} // verus!
