//! Grouping files by shared stem, and finding orphans.
//!
//! Files that share a stem (`video1.mp4`, `video1.jpg`) belong together;
//! a file whose stem appears only once is an orphan.  Reading directories
//! and moving orphans belong to the surrounding binary; the verified side
//! owns the grouping and the orphan test.

use vstd::prelude::*;
use vstd::string::StrSliceExecFns;

use crate::contact_sheet_merger::spec_views;
use crate::pathtext::{spec_stem, stem_of};

verus! {

/// Default folder that orphan files are moved into.
pub const DEFAULT_ORPHAN_FOLDER: &'static str = "orphan_files";

/// The files sharing one stem.
#[derive(Debug)]
pub struct FileGroup {
    /// The shared stem.
    pub stem: String,
    /// The files of this group, in scan order.
    pub files: Vec<String>,
}

impl FileGroup {
    /// Whether this group holds exactly one file.
    pub fn is_orphan(&self) -> (r: bool)
        ensures
            r == (self.files@.len() == 1),
    {
        self.files.len() == 1
    }

    /// The group's one file, when it is an orphan.
    pub fn orphan_file(&self) -> (r: Option<&String>)
        ensures
            match r {
                Some(f) => self.files@.len() == 1 && f@ == (self.files@[0])@,
                None => self.files@.len() != 1,
            },
    {
        if self.is_orphan() {
            Some(&self.files[0])
        } else {
            None
        }
    }
}

/// Whether a name takes part in grouping: hidden names (leading dot) and
/// names without a stem are passed over.
pub open spec fn spec_kept(name: Seq<char>) -> bool {
    &&& name.len() > 0
    &&& name[0] != '.'
    &&& spec_stem(name).len() > 0
}

/// The kept names with the given stem, in input order.
pub open spec fn spec_group_filter(names: Seq<Seq<char>>, stem: Seq<char>) -> Seq<Seq<char>> {
    names.filter(|nm: Seq<char>| spec_kept(nm) && spec_stem(nm) == stem)
}

/// Groups file names by their stem: one group per stem that occurs among
/// the kept names, holding exactly those names in input order; hidden
/// names are passed over.
pub fn group_by_stem(names: &Vec<String>) -> (r: Vec<FileGroup>)
    ensures
        forall|a: int, b: int|
            0 <= a < b < r@.len() ==> (#[trigger] r@[a]).stem@ != (#[trigger] r@[b]).stem@,
        forall|g: int|
            0 <= g < r@.len() ==> spec_views((#[trigger] r@[g]).files@) == spec_group_filter(
                spec_views(names@),
                r@[g].stem@,
            ) && r@[g].files@.len() > 0,
        forall|i: int|
            0 <= i < names@.len() && spec_kept((#[trigger] names@[i])@) ==> exists|g: int|
                0 <= g < r@.len() && (#[trigger] r@[g]).stem@ == spec_stem(names@[i]@),
{
    proof {
        reveal(Seq::filter);
    }
    let mut r: Vec<FileGroup> = Vec::new();
    let mut i: usize = 0;
    proof {
        assert(spec_views(names@).take(0) =~= Seq::<Seq<char>>::empty());
    }
    while i < names.len()
        invariant
            i <= names@.len(),
            forall|a: int, b: int|
                0 <= a < b < r@.len() ==> (#[trigger] r@[a]).stem@ != (#[trigger] r@[b]).stem@,
            forall|g: int|
                0 <= g < r@.len() ==> spec_views((#[trigger] r@[g]).files@) == spec_group_filter(
                    spec_views(names@).take(i as int),
                    r@[g].stem@,
                ) && r@[g].files@.len() > 0,
            forall|w: int|
                0 <= w < i && spec_kept((#[trigger] names@[w])@) ==> exists|g: int|
                    0 <= g < r@.len() && (#[trigger] r@[g]).stem@ == spec_stem(names@[w]@),
        decreases names.len() - i,
    {
        proof {
            reveal(Seq::filter);
            assert(spec_views(names@).take(i as int + 1).drop_last() =~= spec_views(names@).take(
                i as int,
            ));
            assert(spec_views(names@).take(i as int + 1).last() == (names@[i as int])@);
        }
        let name = &names[i];
        let n = name.as_str().unicode_len();
        let kept = if n == 0 {
            false
        } else {
            let first = name.as_str().get_char(0);
            if first == '.' {
                false
            } else {
                true
            }
        };
        let stem = stem_of(name.as_str());
        let stem_len = stem.as_str().unicode_len();
        let kept = kept && stem_len > 0;
        assert(kept == spec_kept((names@[i as int])@));
        if kept {
            let mut g: usize = 0;
            let mut found: bool = false;
            while g < r.len() && !found
                invariant
                    g <= r@.len(),
                    stem@ == spec_stem((names@[i as int])@),
                    !found ==> forall|w: int| 0 <= w < g ==> (#[trigger] r@[w]).stem@ != stem@,
                    found ==> g >= 1 && g - 1 < r@.len() && r@[g - 1].stem@ == stem@,
                decreases r.len() - g + (if found {
                    0int
                } else {
                    1int
                }),
            {
                if r[g].stem.eq(&stem) {
                    found = true;
                }
                g += 1;
            }
            if found {
                let idx = g - 1;
                let ghost pre = r@;
                let ghost oldfiles = r@[idx as int].files@;
                let entry = &mut r[idx];
                entry.files.push(name.clone());
                proof {
                    assert(r@[idx as int].stem@ == stem@);
                    assert(r@[idx as int].files@ =~= oldfiles.push(r@[idx as int].files@.last()));
                    assert((r@[idx as int].files@.last())@ == (names@[i as int])@);
                    assert(forall|m: int|
                        0 <= m < r@.len() && m != idx ==> #[trigger] r@[m] == pre[m]);
                    assert forall|gg: int|
                        0 <= gg < r@.len() implies spec_views((#[trigger] r@[gg]).files@)
                        == spec_group_filter(spec_views(names@).take(i as int + 1), r@[gg].stem@)
                        && r@[gg].files@.len() > 0 by {
                        if gg == idx {
                            assert(spec_views(r@[gg].files@) =~= spec_views(oldfiles).push(
                                (names@[i as int])@,
                            ));
                            assert(spec_group_filter(
                                spec_views(names@).take(i as int + 1),
                                r@[gg].stem@,
                            ) =~= spec_group_filter(
                                spec_views(names@).take(i as int),
                                r@[gg].stem@,
                            ).push((names@[i as int])@));
                        } else {
                            assert(r@[gg] == pre[gg]);
                            assert(spec_group_filter(
                                spec_views(names@).take(i as int + 1),
                                r@[gg].stem@,
                            ) =~= spec_group_filter(spec_views(names@).take(i as int), r@[gg].stem@));
                        }
                    }
                    assert forall|w: int|
                        0 <= w < i + 1 && spec_kept((#[trigger] names@[w])@) implies exists|gg: int|
                        0 <= gg < r@.len() && (#[trigger] r@[gg]).stem@ == spec_stem(
                        names@[w]@,
                    ) by {
                        if w < i {
                            let gg = choose|gg: int|
                                0 <= gg < pre.len() && (#[trigger] pre[gg]).stem@ == spec_stem(
                                    names@[w]@,
                                );
                            assert(r@[gg].stem@ == spec_stem(names@[w]@));
                        } else {
                            assert(r@[idx as int].stem@ == spec_stem(names@[w]@));
                        }
                    }
                }
            } else {
                let ghost pre = r@;
                let mut files: Vec<String> = Vec::new();
                files.push(name.clone());
                let group = FileGroup { stem, files };
                r.push(group);
                proof {
                    let last = r@.len() - 1;
                    assert(r@[last].stem@ == spec_stem((names@[i as int])@));
                    assert(spec_views(r@[last].files@) =~= Seq::<Seq<char>>::empty().push(
                        (names@[i as int])@,
                    ));
                    assert(forall|m: int| 0 <= m < last ==> #[trigger] r@[m] == pre[m]);
                    assert(spec_group_filter(spec_views(names@).take(i as int), r@[last].stem@)
                        =~= Seq::<Seq<char>>::empty()) by {
                        lemma_filter_no_match(
                            spec_views(names@).take(i as int),
                            r@[last].stem@,
                            spec_views(names@),
                            names@,
                            i as int,
                            pre,
                        );
                    }
                    assert forall|gg: int|
                        0 <= gg < r@.len() implies spec_views((#[trigger] r@[gg]).files@)
                        == spec_group_filter(spec_views(names@).take(i as int + 1), r@[gg].stem@)
                        && r@[gg].files@.len() > 0 by {
                        if gg == last {
                            assert(spec_group_filter(
                                spec_views(names@).take(i as int + 1),
                                r@[gg].stem@,
                            ) =~= spec_group_filter(
                                spec_views(names@).take(i as int),
                                r@[gg].stem@,
                            ).push((names@[i as int])@));
                        } else {
                            assert(r@[gg] == pre[gg]);
                            assert(r@[gg].stem@ != spec_stem((names@[i as int])@));
                            assert(spec_group_filter(
                                spec_views(names@).take(i as int + 1),
                                r@[gg].stem@,
                            ) =~= spec_group_filter(spec_views(names@).take(i as int), r@[gg].stem@));
                        }
                    }
                    assert forall|w: int|
                        0 <= w < i + 1 && spec_kept((#[trigger] names@[w])@) implies exists|gg: int|
                        0 <= gg < r@.len() && (#[trigger] r@[gg]).stem@ == spec_stem(
                        names@[w]@,
                    ) by {
                        if w < i {
                            let gg = choose|gg: int|
                                0 <= gg < pre.len() && (#[trigger] pre[gg]).stem@ == spec_stem(
                                    names@[w]@,
                                );
                            assert(r@[gg].stem@ == spec_stem(names@[w]@));
                        } else {
                            assert(r@[last].stem@ == spec_stem(names@[w]@));
                        }
                    }
                }
            }
        } else {
            proof {
                assert forall|gg: int|
                    0 <= gg < r@.len() implies spec_views((#[trigger] r@[gg]).files@)
                    == spec_group_filter(spec_views(names@).take(i as int + 1), r@[gg].stem@)
                    && r@[gg].files@.len() > 0 by {
                    assert(spec_group_filter(spec_views(names@).take(i as int + 1), r@[gg].stem@)
                        =~= spec_group_filter(spec_views(names@).take(i as int), r@[gg].stem@));
                }
            }
        }
        i += 1;
    }
    proof {
        assert(spec_views(names@).take(names@.len() as int) =~= spec_views(names@));
    }
    r
}

/// A stem that no earlier group carries matches no earlier kept name.
proof fn lemma_filter_no_match(
    taken: Seq<Seq<char>>,
    stem: Seq<char>,
    all_views: Seq<Seq<char>>,
    names: Seq<String>,
    i: int,
    groups: Seq<FileGroup>,
)
    requires
        taken == all_views.take(i),
        all_views == spec_views(names),
        0 <= i <= names.len(),
        forall|w: int|
            0 <= w < i && spec_kept((#[trigger] names[w])@) ==> exists|g: int|
                0 <= g < groups.len() && (#[trigger] groups[g]).stem@ == spec_stem(names[w]@),
        forall|g: int| 0 <= g < groups.len() ==> (#[trigger] groups[g]).stem@ != stem,
    ensures
        spec_group_filter(taken, stem) =~= Seq::<Seq<char>>::empty(),
    decreases i,
{
    reveal(Seq::filter);
    if i > 0 {
        lemma_filter_no_match(all_views.take(i - 1), stem, all_views, names, i - 1, groups);
        assert(taken.drop_last() =~= all_views.take(i - 1));
        assert(taken.last() == (names[i - 1])@);
        if spec_kept((names[i - 1])@) && spec_stem((names[i - 1])@) == stem {
            let g = choose|g: int|
                0 <= g < groups.len() && (#[trigger] groups[g]).stem@ == spec_stem(names[i - 1]@);
            assert(false);
        }
    }
}

/// The orphan files of a group list: the single file of every group of
/// one, in group order.
pub open spec fn spec_orphan_files(gs: Seq<FileGroup>) -> Seq<Seq<char>>
    decreases gs.len(),
{
    if gs.len() == 0 {
        Seq::empty()
    } else {
        (if gs[0].files@.len() == 1 {
            seq![(gs[0].files@[0])@]
        } else {
            Seq::empty()
        }) + spec_orphan_files(gs.drop_first())
    }
}

/// Outcome counters of one orphan-moving run.
#[derive(Debug, Clone, Copy, PartialEq, Eq, Structural)]
pub struct OrphanMoveResult {
    /// Files scanned in all.
    pub total_files: usize,
    /// Files that have a partner and stay.
    pub files_with_pairs: usize,
    /// Orphans moved away.
    pub orphan_files_moved: usize,
    /// Orphans skipped because the target already existed.
    pub skipped: usize,
    /// Orphans that could not be moved.
    pub errors: usize,
}

/// The file grouper: the name of the folder orphans are moved into.
pub struct FileGrouper {
    orphan_folder_name: String,
}

impl FileGrouper {
    /// The configured orphan folder name.
    pub closed spec fn spec_folder(self) -> Seq<char> {
        self.orphan_folder_name@
    }

    /// A grouper moving orphans into the default folder.
    pub fn new() -> (r: FileGrouper)
        ensures
            r.spec_folder() == DEFAULT_ORPHAN_FOLDER@,
    {
        FileGrouper { orphan_folder_name: DEFAULT_ORPHAN_FOLDER.to_owned() }
    }

    /// The same grouper with another orphan folder name.
    pub fn with_orphan_folder_name(self, name: &str) -> (r: FileGrouper)
        ensures
            r.spec_folder() == name@,
    {
        FileGrouper { orphan_folder_name: name.to_owned() }
    }

    /// The configured orphan folder name.
    pub fn orphan_folder_name(&self) -> (r: &str)
        ensures
            r@ == self.spec_folder(),
    {
        self.orphan_folder_name.as_str()
    }

    /// The orphan files of a group list, in group order.
    pub fn get_orphan_files(groups: &Vec<FileGroup>) -> (r: Vec<String>)
        ensures
            spec_views(r@) == spec_orphan_files(groups@),
    {
        let mut r: Vec<String> = Vec::new();
        let mut g: usize = 0;
        proof {
            assert(spec_views(r@) =~= Seq::<Seq<char>>::empty());
            assert(groups@.skip(0) =~= groups@);
        }
        while g < groups.len()
            invariant
                g <= groups@.len(),
                spec_orphan_files(groups@) == spec_views(r@) + spec_orphan_files(
                    groups@.skip(g as int),
                ),
            decreases groups.len() - g,
        {
            let ghost tail = groups@.skip(g as int);
            proof {
                assert(tail[0] == groups@[g as int]);
                assert(tail.drop_first() =~= groups@.skip(g as int + 1));
            }
            if groups[g].files.len() == 1 {
                r.push(groups[g].files[0].clone());
            }
            proof {
                assert(spec_orphan_files(groups@) =~= spec_views(r@) + spec_orphan_files(
                    groups@.skip(g as int + 1),
                ));
            }
            g += 1;
        }
        proof {
            assert(groups@.skip(groups@.len() as int).len() == 0);
            assert(spec_views(r@) + spec_orphan_files(groups@.skip(groups@.len() as int))
                =~= spec_views(r@));
        }
        r
    }

    /// The indices of the groups that have partners (more than one file),
    /// in group order.
    pub fn get_paired_groups(groups: &Vec<FileGroup>) -> (r: Vec<usize>)
        ensures
            forall|k: int|
                0 <= k < r@.len() ==> (#[trigger] r@[k]) < groups@.len()
                    && groups@[r@[k] as int].files@.len() != 1,
            forall|a: int, b: int| 0 <= a < b < r@.len() ==> r@[a] < r@[b],
            forall|g: int|
                0 <= g < groups@.len() && (#[trigger] groups@[g]).files@.len() != 1 ==> r@.contains(
                    g as usize,
                ),
    {
        let mut r: Vec<usize> = Vec::new();
        let mut g: usize = 0;
        while g < groups.len()
            invariant
                g <= groups@.len(),
                forall|k: int|
                    0 <= k < r@.len() ==> (#[trigger] r@[k]) < g && groups@[r@[k] as int].files@.len()
                        != 1,
                forall|a: int, b: int| 0 <= a < b < r@.len() ==> r@[a] < r@[b],
                forall|w: int|
                    0 <= w < g && (#[trigger] groups@[w]).files@.len() != 1 ==> r@.contains(
                        w as usize,
                    ),
            decreases groups.len() - g,
        {
            if groups[g].files.len() != 1 {
                let ghost pre = r@;
                r.push(g);
                proof {
                    assert(r@[r@.len() - 1] == g as usize);
                    assert forall|w: int|
                        0 <= w < g + 1 && (#[trigger] groups@[w]).files@.len() != 1 implies r@.contains(
                        w as usize,
                    ) by {
                        if w < g {
                            let k = choose|k: int| 0 <= k < pre.len() && pre[k] == w as usize;
                            assert(r@[k] == w as usize);
                        } else {
                            assert(r@[r@.len() - 1] == w as usize);
                        }
                    }
                }
            }
            g += 1;
        }
        r
    }
}

/// The orphan-file run: it moves each orphan into the grouper's folder.
pub struct OrphanFileMover {
    pub grouper: FileGrouper,
}

impl OrphanFileMover {
    /// A mover with the default orphan folder.
    pub fn new() -> (r: OrphanFileMover)
        ensures
            r.grouper.spec_folder() == DEFAULT_ORPHAN_FOLDER@,
    {
        OrphanFileMover { grouper: FileGrouper::new() }
    }
}

} // verus!
