//! The course of a run: which file and which strand comes next, and what is
//! counted.
//!
//! Reading files and running strands is the caller's; it is told what to do
//! next, and says how it went.

use crate::cli::command::{exit_with, refusal, Exit};
use crate::machine::notation::lemma_decimal_digits;
use crate::path::{lemma_pieces_append, lemma_pieces_single};
use crate::text::{add_text, decimal, decimal_text, owned, pieces};
use vstd::prelude::*;

verus! {

broadcast use vstd::string::group_string_axioms;

/// What is done next.
#[derive(Debug, Clone, Copy, PartialEq, Eq, Structural)]
pub enum RunAction {
    /// Reads the file with this index.
    Read(usize),
    /// Runs a strand on a file.
    Strand { file: usize, strand: usize },
    /// Nothing: every file was counted.
    Done,
}

/// A run of every strand on every file, one file at a time.
#[derive(Debug)]
pub struct FileRun {
    pub files: usize,
    pub strands: usize,
    /// The file that is at work.
    pub file: usize,
    /// The strand that is at work; `None` while the file is read.
    pub strand: Option<usize>,
    /// Whether something failed for the file at work.
    pub failed: bool,
    pub successes: usize,
    pub errors: usize,
}

/// A run in the model: what is at work, and what was counted.
pub ghost struct RunView {
    pub file: int,
    pub strand: Option<int>,
    pub failed: bool,
    pub successes: int,
    pub errors: int,
}

impl FileRun {
    /// The run in the model.
    pub open spec fn at(&self) -> RunView {
        RunView {
            file: self.file as int,
            strand: match self.strand {
                Some(s) => Some(s as int),
                None => None,
            },
            failed: self.failed,
            successes: self.successes as int,
            errors: self.errors as int,
        }
    }

    /// Every file before the one at work was counted once.
    pub open spec fn wf(&self) -> bool {
        &&& self.file <= self.files
        &&& self.successes + self.errors == self.file
        &&& self.strand matches Some(s) ==> s < self.strands && self.file < self.files
        &&& self.strand is None ==> !self.failed
    }

    /// The next file, after the one at work was counted.
    pub open spec fn counted(at: RunView, failed: bool) -> RunView {
        RunView {
            file: at.file + 1,
            strand: None,
            failed: false,
            successes: at.successes + (if failed {
                0int
            } else {
                1
            }),
            errors: at.errors + (if failed {
                1int
            } else {
                0
            }),
        }
    }

    /// A run that has not begun.
    pub fn new(files: usize, strands: usize) -> (r: Self)
        ensures
            r.wf(),
            r.files == files,
            r.strands == strands,
            r.at() == (RunView { file: 0, strand: None, failed: false, successes: 0, errors: 0 }),
    {
        FileRun { files, strands, file: 0, strand: None, failed: false, successes: 0, errors: 0 }
    }

    /// What is done next.
    pub fn action(&self) -> (r: RunAction)
        requires
            self.wf(),
        ensures
            r == (if self.file >= self.files {
                RunAction::Done
            } else {
                match self.strand {
                    None => RunAction::Read(self.file),
                    Some(strand) => RunAction::Strand { file: self.file, strand },
                }
            }),
    {
        if self.file >= self.files {
            return RunAction::Done;
        }
        match self.strand {
            None => RunAction::Read(self.file),
            Some(strand) => RunAction::Strand { file: self.file, strand },
        }
    }

    /// Counts the file at work, and goes on to the next.
    fn count(&mut self, failed: bool)
        requires
            old(self).file < old(self).files,
            old(self).successes + old(self).errors == old(self).file,
        ensures
            final(self).wf(),
            final(self).files == old(self).files,
            final(self).strands == old(self).strands,
            final(self).at() == FileRun::counted(old(self).at(), failed),
    {
        if failed {
            self.errors = self.errors + 1;
        } else {
            self.successes = self.successes + 1;
        }
        self.file = self.file + 1;
        self.strand = None;
        self.failed = false;
    }

    /// Goes on after the last action, which went well or not. A file that
    /// cannot be read is an error; a file is a success if every strand was.
    pub fn went(&mut self, well: bool)
        requires
            old(self).wf(),
        ensures
            final(self).wf(),
            final(self).files == old(self).files,
            final(self).strands == old(self).strands,
            final(self).at() == (if old(self).file >= old(self).files {
                old(self).at()
            } else {
                match old(self).strand {
                    None => if !well || old(self).strands == 0 {
                        FileRun::counted(old(self).at(), !well)
                    } else {
                        RunView { strand: Some(0), ..old(self).at() }
                    },
                    Some(s) => if s + 1 == old(self).strands {
                        FileRun::counted(old(self).at(), old(self).failed || !well)
                    } else {
                        RunView {
                            strand: Some(s + 1),
                            failed: old(self).failed || !well,
                            ..old(self).at()
                        }
                    },
                }
            }),
    {
        if self.file >= self.files {
            return;
        }
        match self.strand {
            None => {
                if !well || self.strands == 0 {
                    self.count(!well);
                } else {
                    self.strand = Some(0);
                }
            },
            Some(s) => {
                let failed = self.failed || !well;
                if s + 1 == self.strands {
                    self.count(failed);
                } else {
                    self.strand = Some(s + 1);
                    self.failed = failed;
                }
            },
        }
    }
}

// ---------------------------------------------------------------------------
// The whole of a run
// ---------------------------------------------------------------------------

/// How the reading and the strands of one file go, one after the other, until
/// the file is counted; and whether it is then a success.
pub open spec fn file_goes_well(outcomes: Seq<bool>) -> bool {
    forall|i: int| 0 <= i < outcomes.len() ==> #[trigger] outcomes[i]
}

/// The run after a row of outcomes.
pub open spec fn run_after(files: int, strands: int, at: RunView, outcomes: Seq<bool>) -> RunView
    decreases outcomes.len(),
{
    if outcomes.len() == 0 {
        at
    } else {
        let before = run_after(files, strands, at, outcomes.drop_last());
        let well = outcomes.last();
        if before.file >= files {
            before
        } else {
            match before.strand {
                None => if !well || strands == 0 {
                    FileRun::counted(before, !well)
                } else {
                    RunView { strand: Some(0), ..before }
                },
                Some(s) => if s + 1 == strands {
                    FileRun::counted(before, before.failed || !well)
                } else {
                    RunView { strand: Some(s + 1), failed: before.failed || !well, ..before }
                },
            }
        }
    }
}

/// The outcomes of the strands of one file leave the file at work until the
/// last of them.
proof fn lemma_strands_of_file(files: int, strands: int, at: RunView, outcomes: Seq<bool>)
    requires
        0 <= at.file < files,
        at.strand is None,
        !at.failed,
        1 <= outcomes.len() <= strands,
        outcomes[0],
    ensures
        run_after(files, strands, at, outcomes) == (RunView {
            strand: Some(outcomes.len() - 1),
            failed: !file_goes_well(outcomes),
            ..at
        }),
    decreases outcomes.len(),
{
    let before = outcomes.drop_last();
    if outcomes.len() == 1 {
        assert(run_after(files, strands, at, before) == at);
        assert(file_goes_well(outcomes));
    } else {
        lemma_strands_of_file(files, strands, at, before);
        if file_goes_well(before) && outcomes.last() {
            assert forall|i: int| 0 <= i < outcomes.len() implies #[trigger] outcomes[i] by {
                if i < before.len() {
                    assert(before[i]);
                }
            }
        } else if file_goes_well(outcomes) {
            assert forall|i: int| 0 <= i < before.len() implies #[trigger] before[i] by {
                assert(outcomes[i]);
            }
            assert(outcomes[outcomes.len() - 1]);
        }
    }
}

/// Law: a file that is read counts once, after all its strands: as a success if
/// all of them went well, else as an error.
pub proof fn law_file_counts_by_all_its_strands(
    files: int,
    strands: int,
    at: RunView,
    outcomes: Seq<bool>,
)
    requires
        0 <= at.file < files,
        at.strand is None,
        !at.failed,
        strands >= 1,
        outcomes.len() == strands + 1,
        outcomes[0],
    ensures
        run_after(files, strands, at, outcomes) == FileRun::counted(
            at,
            !file_goes_well(outcomes),
        ),
        ({
            let after = run_after(files, strands, at, outcomes);
            let well = forall|i: int| 0 <= i < outcomes.len() ==> #[trigger] outcomes[i];
            &&& after.file == at.file + 1
            &&& after.strand is None
            &&& !after.failed
            &&& well ==> after.successes == at.successes + 1 && after.errors == at.errors
            &&& !well ==> after.successes == at.successes && after.errors == at.errors + 1
        }),
{
    let before = outcomes.drop_last();
    lemma_strands_of_file(files, strands, at, before);
    if file_goes_well(before) && outcomes.last() {
        assert forall|i: int| 0 <= i < outcomes.len() implies #[trigger] outcomes[i] by {
            if i < before.len() {
                assert(before[i]);
            }
        }
    } else if file_goes_well(outcomes) {
        assert forall|i: int| 0 <= i < before.len() implies #[trigger] before[i] by {
            assert(outcomes[i]);
        }
        assert(outcomes[outcomes.len() - 1]);
    }
}

/// Law: once a run is done, every file was counted, and counted once.
pub proof fn law_every_file_is_counted(run: FileRun)
    requires
        run.wf(),
        run.file == run.files,
    ensures
        run.successes + run.errors == run.files,
{
}

/// How a run is summed up.
pub open spec fn summary_of(multi_anchor: bool, files: nat, successes: nat, errors: nat) -> Seq<
    char,
> {
    "=== Summary ===\n"@ + (if multi_anchor {
        "Bound files: "@
    } else {
        "Processed: "@
    }) + decimal(files) + "\nSuccess: "@ + decimal(successes) + "\nErrors: "@ + decimal(errors)
}

/// How a run is summed up.
pub fn summary(multi_anchor: bool, files: usize, successes: usize, errors: usize) -> (r: String)
    ensures
        r@ == summary_of(multi_anchor, files as nat, successes as nat, errors as nat),
{
    let mut out = owned("=== Summary ===\n");
    if multi_anchor {
        add_text(&mut out, "Bound files: ");
    } else {
        add_text(&mut out, "Processed: ");
    }
    add_text(&mut out, &decimal_text(files as u64));
    add_text(&mut out, "\nSuccess: ");
    add_text(&mut out, &decimal_text(successes as u64));
    add_text(&mut out, "\nErrors: ");
    add_text(&mut out, &decimal_text(errors as u64));
    out
}

/// Checks that a machine can run: it has inputs, and there are files.
pub fn check_inputs(input_nodes: usize, files: usize) -> (r: Option<Exit>)
    ensures
        match r {
            Some(e) => e@ == refusal(
                if input_nodes == 0 {
                    "No input nodes found in machine notation"@
                } else {
                    "No input files found"@
                },
                1,
            ) && (input_nodes == 0 || files == 0),
            None => input_nodes > 0 && files > 0,
        },
{
    if input_nodes == 0 {
        return Some(exit_with(owned("No input nodes found in machine notation"), 1));
    }
    if files == 0 {
        return Some(exit_with(owned("No input files found"), 1));
    }
    None
}

/// Law: a file that cannot be read counts as an error, and none of its strands
/// is run.
pub proof fn law_unread_file_is_an_error(files: int, strands: int, at: RunView)
    requires
        0 <= at.file < files,
        at.strand is None,
    ensures
        ({
            let after = run_after(files, strands, at, seq![false]);
            &&& after.file == at.file + 1
            &&& after.strand is None
            &&& after.successes == at.successes
            &&& after.errors == at.errors + 1
        }),
{
    reveal_with_fuel(run_after, 2);
    assert(seq![false].drop_last() =~= Seq::<bool>::empty());
}

/// Law: the summary says in lines of their own how many files there were, how
/// many of them went well, and how many did not.
pub proof fn law_summary_tells_each_count(
    multi_anchor: bool,
    files: nat,
    successes: nat,
    errors: nat,
)
    ensures
        ({
            let lines = pieces(summary_of(multi_anchor, files, successes, errors), '\n');
            &&& lines.len() == 4
            &&& lines[1] == (if multi_anchor {
                "Bound files: "@
            } else {
                "Processed: "@
            }) + decimal(files)
            &&& lines[2] == "Success: "@ + decimal(successes)
            &&& lines[3] == "Errors: "@ + decimal(errors)
        }),
{
    reveal_strlit("=== Summary ===\n");
    reveal_strlit("Bound files: ");
    reveal_strlit("Processed: ");
    reveal_strlit("\nSuccess: ");
    reveal_strlit("\nErrors: ");
    reveal_strlit("Success: ");
    reveal_strlit("Errors: ");
    reveal_strlit("=== Summary ===");
    let what = if multi_anchor {
        "Bound files: "@
    } else {
        "Processed: "@
    };
    let a = "=== Summary ==="@;
    let b = what + decimal(files);
    let c = "Success: "@ + decimal(successes);
    let d = "Errors: "@ + decimal(errors);
    let n = seq!['\n'];
    lemma_decimal_digits(files);
    lemma_decimal_digits(successes);
    lemma_decimal_digits(errors);
    assert forall|k: int| 0 <= k < b.len() implies b[k] != '\n' by {
        if k >= what.len() {
            assert(b[k] == decimal(files)[k - what.len()]);
        }
    }
    assert forall|k: int| 0 <= k < c.len() implies c[k] != '\n' by {
        if k >= 9 {
            assert(c[k] == decimal(successes)[k - 9]);
        }
    }
    assert forall|k: int| 0 <= k < d.len() implies d[k] != '\n' by {
        if k >= 8 {
            assert(d[k] == decimal(errors)[k - 8]);
        }
    }
    assert forall|k: int| 0 <= k < a.len() implies a[k] != '\n' by {
    }
    lemma_pieces_single(a, '\n');
    lemma_pieces_append(a, b, '\n');
    lemma_pieces_append(a + n + b, c, '\n');
    lemma_pieces_append(a + n + b + n + c, d, '\n');
    assert("=== Summary ===\n"@ =~= a + n);
    assert("\nSuccess: "@ =~= n + "Success: "@);
    assert("\nErrors: "@ =~= n + "Errors: "@);
    assert(summary_of(multi_anchor, files, successes, errors) =~= a + n + b + n + c + n + d);
}

} // verus!
