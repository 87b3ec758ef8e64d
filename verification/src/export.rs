//! Planning the export directory: one file per collected artifact, named by
//! the game's identity with the SGF extension, holding the artifact text
//! with one trailing newline. The destination directory is replaced, never
//! merged: the driving binary removes it if it exists and recreates it, so
//! afterwards it holds exactly the planned files that could be written.

use vstd::prelude::*;
use crate::artifacts::Artifact;
use crate::text::{append_i32, dec_rep_signed};

verus! {

/// The planned file name of one game's artifact.
pub open spec fn artifact_file_name(game_id: int) -> Seq<char> {
    dec_rep_signed(game_id) + ".sgf"@
}

/// The planned file body: the artifact text with one trailing newline.
pub open spec fn artifact_file_text(content: Seq<char>) -> Seq<char> {
    content + "\n"@
}

/// The file name for one game's artifact, `<id>.sgf`.
pub fn sgf_file_name(game_id: i32) -> (r: String)
    ensures
        r@ == artifact_file_name(game_id as int),
{
    let mut s = String::new();
    append_i32(&mut s, game_id);
    s.append(".sgf");
    proof {
        assert(s@ =~= artifact_file_name(game_id as int));
    }
    s
}

/// The file body for one artifact: its text with one trailing newline.
pub fn sgf_file_text(content: &String) -> (r: String)
    ensures
        r@ == artifact_file_text(content@),
{
    let mut s = content.clone();
    s.append("\n");
    s
}

/// One file of the export directory, as the library plans it.
#[derive(Debug, PartialEq)]
pub struct DirEntry {
    pub name: String,
    pub text: String,
}

/// `entries` is the planned directory for `artifacts`: exactly one entry per
/// artifact, in order, with the planned name and body.
pub open spec fn is_export_plan(artifacts: Seq<Artifact>, entries: Seq<DirEntry>) -> bool {
    &&& entries.len() == artifacts.len()
    &&& forall|i: int|
        0 <= i < entries.len() ==> (#[trigger] entries[i]).name@ == artifact_file_name(
            artifacts[i].game_id as int,
        ) && entries[i].text@ == artifact_file_text(artifacts[i].content@)
}

/// The planned contents of the freshly recreated export directory.
pub fn plan_export(artifacts: &Vec<Artifact>) -> (entries: Vec<DirEntry>)
    ensures
        is_export_plan(artifacts@, entries@),
{
    let mut entries: Vec<DirEntry> = Vec::new();
    let mut k: usize = 0;
    while k < artifacts.len()
        invariant
            k <= artifacts@.len(),
            entries@.len() == k,
            forall|i: int|
                0 <= i < k ==> (#[trigger] entries@[i]).name@ == artifact_file_name(
                    artifacts@[i].game_id as int,
                ) && entries@[i].text@ == artifact_file_text(artifacts@[i].content@),
        decreases artifacts@.len() - k,
    {
        let name = sgf_file_name(artifacts[k].game_id);
        let text = sgf_file_text(&artifacts[k].content);
        entries.push(DirEntry { name, text });
        k = k + 1;
    }
    entries
}

/// The destination is replaced, not merged: the planned directory is a
/// function of the current artifacts alone, so a file name present before
/// the export — a stale file — survives only if the current run plans that
/// very name.
pub proof fn lemma_export_replaces_stale(
    artifacts: Seq<Artifact>,
    entries: Seq<DirEntry>,
    stale_name: Seq<char>,
)
    requires
        is_export_plan(artifacts, entries),
        forall|i: int|
            0 <= i < artifacts.len() ==> artifact_file_name(
                (#[trigger] artifacts[i]).game_id as int,
            ) != stale_name,
    ensures
        forall|j: int| 0 <= j < entries.len() ==> (#[trigger] entries[j]).name@ != stale_name,
{
}

/// Progress of the write phase: how many of the planned files have been
/// attempted and how many were written.
#[derive(Debug, PartialEq)]
pub struct ExportRun {
    pub total: u64,
    pub attempted: u64,
    pub written: u64,
}

impl ExportRun {
    /// Internal consistency: written files are among the attempted, which
    /// are among the planned.
    pub open spec fn wf(self) -> bool {
        self.written <= self.attempted <= self.total
    }

    /// A write phase over `total` planned files, none attempted yet.
    pub fn new(total: u64) -> (r: Self)
        ensures
            r.wf(),
            r.total == total,
            r.attempted == 0,
            r.written == 0,
    {
        ExportRun { total, attempted: 0, written: 0 }
    }

    /// Record one file write: the count of written files grows exactly on
    /// success; a failed file is skipped and the remaining files are still
    /// written.
    pub fn on_write_result(&mut self, ok: bool)
        requires
            old(self).wf(),
            old(self).attempted < old(self).total,
        ensures
            final(self).wf(),
            final(self).total == old(self).total,
            final(self).attempted == old(self).attempted + 1,
            ok ==> final(self).written == old(self).written + 1,
            !ok ==> final(self).written == old(self).written,
    {
        self.attempted = self.attempted + 1;
        if ok {
            self.written = self.written + 1;
        }
    }

    /// The count of files successfully written, the export's reported
    /// result.
    pub fn written_count(&self) -> (r: u64)
        ensures
            r == self.written,
    {
        self.written
    }
}

} // verus!
