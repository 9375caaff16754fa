use vstd::prelude::*;

use crate::memcard::directory::{directory_from_bytes, lemma_directory_unique, Directory};
use crate::memcard::entry::{has_flag, Entry};
use crate::memcard::{MemcardError, MemoryCard};

verus! {

/// One step of dumping a directory tree, in the order the steps are taken.
pub enum DumpStep {
    /// Make the directory of the entry and go into it.
    EnterDir(Entry),
    /// Go back out of the directory last entered.
    LeaveDir,
    /// Write the file of the entry with these bytes.
    WriteFile(Entry, Vec<u8>),
    /// The directory of the entry could not be read: report the error and
    /// go on.
    SkipDir(Entry, MemcardError),
    /// The file of the entry could not be read: report the error and go on.
    SkipFile(Entry, MemcardError),
    /// The entry cannot be dumped: it is both or neither a file and a
    /// directory, or its data cannot be followed inside the image, or it is
    /// a directory nested deeper than the image has clusters. Dumping stops
    /// here.
    Broken(Entry),
}

/// Why a step was skipped.
pub enum SkipReason {
    /// The chain runs into a cluster marked free.
    FreeCluster,
    /// The data ran out.
    Io,
    /// Any other error.
    Other,
}

/// The reason that `e` gives.
pub open spec fn skip_reason(e: MemcardError) -> SkipReason {
    match e {
        MemcardError::FreeClusterAllocated => SkipReason::FreeCluster,
        MemcardError::Io(_) => SkipReason::Io,
        _ => SkipReason::Other,
    }
}

/// A dump step as contracts see it: the data of a file as bytes, the error
/// of a skipped step by its reason.
pub enum PlannedStep {
    EnterDir(Entry),
    LeaveDir,
    WriteFile(Entry, Seq<u8>),
    SkipDir(Entry, SkipReason),
    SkipFile(Entry, SkipReason),
    Broken(Entry),
}

impl View for DumpStep {
    type V = PlannedStep;

    open spec fn view(&self) -> PlannedStep {
        match self {
            DumpStep::EnterDir(e) => PlannedStep::EnterDir(*e),
            DumpStep::LeaveDir => PlannedStep::LeaveDir,
            DumpStep::WriteFile(e, data) => PlannedStep::WriteFile(*e, data@),
            DumpStep::SkipDir(e, err) => PlannedStep::SkipDir(*e, skip_reason(*err)),
            DumpStep::SkipFile(e, err) => PlannedStep::SkipFile(*e, skip_reason(*err)),
            DumpStep::Broken(e) => PlannedStep::Broken(*e),
        }
    }
}

/// The steps as contracts see them.
pub open spec fn step_views(steps: Seq<DumpStep>) -> Seq<PlannedStep> {
    steps.map_values(|s: DumpStep| s@)
}

/// The directory that `e` describes, where it can be read.
pub open spec fn dir_of(card: MemoryCard, e: Entry) -> Directory {
    choose|d: Directory| #[trigger] directory_from_bytes(d, card.entry_data(e.cluster as usize), e.len as int)
}

/// Reading the directory of `e` succeeds: its chain ends at the end marker
/// and its data holds the entries that `e` counts.
pub open spec fn dir_readable(card: MemoryCard, e: Entry) -> bool {
    let c = e.cluster as usize;
    let b = card.entry_data(c);
    card.fat_chain_result(c) is Ok && b.len() >= 1024 && b.len() >= 512 * e.len
}

/// The steps that dump one entry, going into subdirectories at most `depth`
/// deep.
pub open spec fn entry_steps(card: MemoryCard, e: Entry, depth: nat) -> Seq<PlannedStep>
    decreases depth, 0nat,
{
    let is_dir = has_flag(e.mode, 0x0020);
    let is_file = has_flag(e.mode, 0x0010);
    let c = e.cluster as usize;
    if is_dir == is_file {
        seq![PlannedStep::Broken(e)]
    } else if is_dir {
        if depth == 0 || !card.can_read_entry_spec(c, card.chain_bound()) || !card.directory_ok(e) {
            seq![PlannedStep::Broken(e)]
        } else if dir_readable(card, e) {
            seq![PlannedStep::EnterDir(e)] + plan_steps(
                card,
                dir_of(card, e).entries@,
                (depth - 1) as nat,
            ) + seq![PlannedStep::LeaveDir]
        } else {
            seq![
                PlannedStep::SkipDir(
                    e,
                    if card.fat_chain_result(c) is Err {
                        SkipReason::FreeCluster
                    } else {
                        SkipReason::Io
                    },
                ),
            ]
        }
    } else {
        if !card.can_read_entry_spec(c, card.chain_bound()) {
            seq![PlannedStep::Broken(e)]
        } else if card.fat_chain_result(c) is Ok {
            seq![PlannedStep::WriteFile(e, card.entry_data(c))]
        } else {
            seq![PlannedStep::SkipFile(e, SkipReason::FreeCluster)]
        }
    }
}

/// The steps that dump `entries` in order, going into subdirectories at
/// most `depth` deep.
pub open spec fn plan_steps(card: MemoryCard, entries: Seq<Entry>, depth: nat) -> Seq<PlannedStep>
    decreases depth, entries.len(),
{
    if entries.len() == 0 {
        Seq::empty()
    } else {
        plan_steps(card, entries.drop_last(), depth) + entry_steps(card, entries.last(), depth)
    }
}

/// Pushing a step adds its view.
proof fn lemma_views_push(s: Seq<DumpStep>, x: DumpStep)
    ensures
        step_views(s.push(x)) == step_views(s).push(x@),
{
    assert(step_views(s.push(x)) =~= step_views(s).push(x@));
}

impl MemoryCard {
    /// The steps that dump the tree under `dir`. For each entry in order: a
    /// directory is entered, dumped and left, or skipped with the error that
    /// reading it gave; a file is written with its data, or skipped with the
    /// error that reading it gave. An entry that is both or neither a file
    /// and a directory, whose data cannot be followed within
    /// [`MemoryCard::chain_bound`] clusters inside the image, or a directory
    /// nested deeper than that, gives a [`DumpStep::Broken`] step.
    pub fn dump_plan(&self, dir: &Directory) -> (steps: Vec<DumpStep>)
        ensures
            step_views(steps@) == plan_steps(*self, dir.entries@, self.chain_bound() as nat),
    {
        let mut steps: Vec<DumpStep> = Vec::new();
        let bound = self.cluster_capacity();
        assert(step_views(steps@) =~= Seq::<PlannedStep>::empty());
        self.plan_into(&dir.entries, bound, bound, &mut steps);
        steps
    }

    fn plan_into(&self, entries: &Vec<Entry>, depth: usize, bound: usize, steps: &mut Vec<DumpStep>)
        requires
            bound == self.chain_bound(),
        ensures
            step_views(final(steps)@) == step_views(old(steps)@) + plan_steps(
                *self,
                entries@,
                depth as nat,
            ),
        decreases depth, entries@.len(),
    {
        let ghost start = step_views(steps@);
        let mut i: usize = 0;
        while i < entries.len()
            invariant
                i <= entries@.len(),
                bound == self.chain_bound(),
                step_views(steps@) == start + plan_steps(*self, entries@.take(i as int), depth as nat),
            decreases entries@.len() - i,
        {
            let e = entries[i];
            let ghost before = steps@;
            let ghost c = e.cluster as usize;
            let is_dir = e.is_dir();
            let is_file = e.is_file();
            if is_dir == is_file {
                steps.push(DumpStep::Broken(e));
                proof {
                    lemma_views_push(before, DumpStep::Broken(e));
                }
            } else if is_dir {
                if depth == 0 || !self.can_read_directory(&e, bound) {
                    steps.push(DumpStep::Broken(e));
                    proof {
                        lemma_views_push(before, DumpStep::Broken(e));
                    }
                } else {
                    match self.read_directory(&e) {
                        Ok(sub) => {
                            proof {
                                let d = dir_of(*self, e);
                                lemma_directory_unique(sub, d, self.entry_data(c), e.len as int);
                            }
                            steps.push(DumpStep::EnterDir(e));
                            proof {
                                lemma_views_push(before, DumpStep::EnterDir(e));
                            }
                            self.plan_into(&sub.entries, depth - 1, bound, steps);
                            let ghost walked = steps@;
                            steps.push(DumpStep::LeaveDir);
                            proof {
                                lemma_views_push(walked, DumpStep::LeaveDir);
                                assert(step_views(steps@) =~= step_views(before) + (seq![
                                    PlannedStep::EnterDir(e),
                                ] + plan_steps(*self, sub.entries@, (depth - 1) as nat) + seq![
                                    PlannedStep::LeaveDir,
                                ]));
                            }
                        },
                        Err(err) => {
                            steps.push(DumpStep::SkipDir(e, err));
                            proof {
                                lemma_views_push(before, DumpStep::SkipDir(e, err));
                            }
                        },
                    }
                }
            } else {
                if !self.can_read_entry(e.cluster as usize, bound) {
                    steps.push(DumpStep::Broken(e));
                    proof {
                        lemma_views_push(before, DumpStep::Broken(e));
                    }
                } else {
                    match self.read_entry(e.cluster as usize) {
                        Ok(data) => {
                            steps.push(DumpStep::WriteFile(e, data));
                            proof {
                                lemma_views_push(before, DumpStep::WriteFile(e, data));
                            }
                        },
                        Err(err) => {
                            steps.push(DumpStep::SkipFile(e, err));
                            proof {
                                lemma_views_push(before, DumpStep::SkipFile(e, err));
                            }
                        },
                    }
                }
            }
            proof {
                assert(entries@.take(i + 1).drop_last() =~= entries@.take(i as int));
                assert(entries@.take(i + 1).last() == e);
                assert(step_views(steps@) =~= step_views(before) + entry_steps(*self, e, depth as nat));
            }
            i = i + 1;
        }
        assert(entries@.take(i as int) =~= entries@);
    }
}

} // verus!
