//! The walk over `sessions/` in search of the sessions' settings files.

use std::path::PathBuf;

use vstd::prelude::*;

use crate::clock::{epoch_ms, low_millis};
use crate::text::{has_suffix, opt_text, str_eq, strip_suffix};

verus! {

/// A path of the file system.
#[verifier::external_type_specification]
#[verifier::external_body]
pub struct ExPathBuf(PathBuf);

/// What to do with a directory entry.
#[derive(Debug)]
pub enum ScanStep {
    /// It is a directory: walk it too.
    Descend,
    /// It is of no interest.
    Skip,
    /// It is the settings file of the session with this id.
    Settings(String),
}

/// The mathematical value of a [`ScanStep`].
pub enum ScanStepView {
    Descend,
    Skip,
    Settings(Seq<char>),
}

impl View for ScanStep {
    type V = ScanStepView;

    open spec fn view(&self) -> ScanStepView {
        match self {
            ScanStep::Descend => ScanStepView::Descend,
            ScanStep::Skip => ScanStepView::Skip,
            ScanStep::Settings(id) => ScanStepView::Settings(id@),
        }
    }
}

/// The session whose settings file has the given name: `<id>.settings.json`, with an id that is
/// not empty.
pub open spec fn settings_id_of(name: Seq<char>) -> Option<Seq<char>> {
    let suffix = ".settings.json"@;
    if has_suffix(name, suffix) && name.len() > suffix.len() {
        Some(name.take(name.len() - suffix.len()))
    } else {
        None
    }
}

/// What to do with a directory entry: walk directories, pass over links, take settings files.
pub open spec fn step_of(is_dir: bool, is_symlink: bool, name: Option<Seq<char>>) -> ScanStepView {
    if is_dir {
        ScanStepView::Descend
    } else if is_symlink {
        ScanStepView::Skip
    } else {
        match name {
            Some(n) => match settings_id_of(n) {
                Some(id) => ScanStepView::Settings(id),
                None => ScanStepView::Skip,
            },
            None => ScanStepView::Skip,
        }
    }
}

/// What to do with a directory entry; its name is absent where it is no Unicode.
pub fn classify_entry(is_dir: bool, is_symlink: bool, name: Option<&str>) -> (r: ScanStep)
    ensures
        r@ == step_of(is_dir, is_symlink, opt_text(name)),
{
    if is_dir {
        return ScanStep::Descend;
    }
    if is_symlink {
        return ScanStep::Skip;
    }
    match name {
        Some(n) => match strip_suffix(n, ".settings.json") {
            Some(id) => if id.is_empty() {
                ScanStep::Skip
            } else {
                ScanStep::Settings(id.to_owned())
            },
            None => ScanStep::Skip,
        },
        None => ScanStep::Skip,
    }
}

/// A settings file that was found.
#[derive(Debug)]
pub struct SettingsFile {
    /// The session that it belongs to.
    pub session_id: String,
    pub path: PathBuf,
    /// Last change, in milliseconds since the epoch.
    pub mtime_ms: u64,
}

/// The first `n` settings files by session: where each lies and when it was last changed.
pub open spec fn files_by_session(files: Seq<SettingsFile>, n: int) -> Map<
    Seq<char>,
    (PathBuf, u64),
>
    decreases n,
{
    if n <= 0 {
        Map::empty()
    } else {
        files_by_session(files, n - 1).insert(
            files[n - 1].session_id@,
            (files[n - 1].path, files[n - 1].mtime_ms),
        )
    }
}

/// Whether no two settings files belong to the same session.
pub open spec fn is_one_per_session(files: Seq<SettingsFile>) -> bool {
    forall|i: int, j: int|
        0 <= i < j < files.len() ==> (#[trigger] files[i]).session_id@ != (
        #[trigger] files[j]).session_id@
}

/// A walk under way: the directories that are still to be read, and the settings files that were
/// found, one for each session.
#[derive(Debug)]
pub struct SettingsWalk {
    pending: Vec<PathBuf>,
    found: Vec<SettingsFile>,
}

/// The mathematical value of a [`SettingsWalk`].
#[verifier::ext_equal]
pub struct SettingsWalkView {
    pub pending: Seq<PathBuf>,
    pub found: Map<Seq<char>, (PathBuf, u64)>,
}

impl View for SettingsWalk {
    type V = SettingsWalkView;

    closed spec fn view(&self) -> SettingsWalkView {
        SettingsWalkView {
            pending: self.pending@,
            found: files_by_session(self.found@, self.found@.len() as int),
        }
    }
}

impl SettingsWalk {
    /// Whether there is one file for each session.
    pub closed spec fn wf(&self) -> bool {
        is_one_per_session(self.found@)
    }

    /// A walk that starts at the given directory.
    pub fn new(start: PathBuf) -> (r: Self)
        ensures
            r.wf(),
            r@.pending == seq![start],
            r@.found == Map::<Seq<char>, (PathBuf, u64)>::empty(),
    {
        let mut pending: Vec<PathBuf> = Vec::new();
        pending.push(start);
        SettingsWalk { pending, found: Vec::new() }
    }

    /// The directory that is to be read next: the last one that was met; nothing where the walk
    /// is over.
    pub fn next_directory(&mut self) -> (r: Option<PathBuf>)
        ensures
            final(self).wf() == old(self).wf(),
            final(self)@.found == old(self)@.found,
            match r {
                Some(dir) => old(self)@.pending.len() > 0 && dir == old(self)@.pending.last()
                    && final(self)@.pending == old(self)@.pending.drop_last(),
                None => old(self)@.pending.len() == 0 && final(self)@.pending
                    == old(self)@.pending,
            },
    {
        self.pending.pop()
    }

    /// Takes in an entry of the directory that is read; its name is absent where it is no
    /// Unicode. Gives back a settings file, for which [`SettingsWalk::record`] is still to be
    /// told when it was last changed.
    pub fn visit(
        &mut self,
        path: PathBuf,
        is_dir: bool,
        is_symlink: bool,
        name: Option<&str>,
    ) -> (r: Option<(String, PathBuf)>)
        ensures
            final(self).wf() == old(self).wf(),
            final(self)@.found == old(self)@.found,
            match step_of(is_dir, is_symlink, opt_text(name)) {
                ScanStepView::Descend => r is None && final(self)@.pending
                    == old(self)@.pending.push(path),
                ScanStepView::Skip => r is None && final(self)@.pending == old(self)@.pending,
                ScanStepView::Settings(id) => final(self)@.pending == old(self)@.pending
                    && match r {
                    Some((session_id, file)) => session_id@ == id && file == path,
                    None => false,
                },
            },
    {
        match classify_entry(is_dir, is_symlink, name) {
            ScanStep::Descend => {
                self.pending.push(path);
                None
            },
            ScanStep::Skip => None,
            ScanStep::Settings(id) => Some((id, path)),
        }
    }

    /// Takes in a settings file that was last changed the given number of milliseconds after the
    /// epoch. It takes the place of one that was found before for the same session.
    pub fn record(&mut self, session_id: String, path: PathBuf, elapsed: u128)
        requires
            old(self).wf(),
        ensures
            final(self).wf(),
            final(self)@.pending == old(self)@.pending,
            final(self)@.found == old(self)@.found.insert(
                session_id@,
                (path, low_millis(Some(elapsed)) as u64),
            ),
    {
        let ghost all = self.found@;
        let file = SettingsFile { session_id, path, mtime_ms: epoch_ms(Some(elapsed)) };
        let count: usize = self.found.len();
        for i in 0..count
            invariant
                count == all.len(),
                all == self.found@,
                self.pending == old(self).pending,
                is_one_per_session(all),
                old(self)@.found == files_by_session(all, all.len() as int),
                file.session_id@ == session_id@,
                file.path == path,
                file.mtime_ms == low_millis(Some(elapsed)),
                forall|j: int| 0 <= j < i ==> (#[trigger] all[j]).session_id@ != session_id@,
        {
            if str_eq(self.found[i].session_id.as_str(), file.session_id.as_str()) {
                proof {
                    lemma_replaced_file(all, i as int, file, all.len() as int);
                    assert(is_one_per_session(all.update(i as int, file)));
                }
                self.found.set(i, file);
                return;
            }
        }
        self.found.push(file);
        proof {
            let n = all.len() as int;
            lemma_files_of_prefix(all.push(file), all, n);
            assert(all.push(file)[n] == file);
        }
    }

    /// The settings files that were found.
    pub fn files(&self) -> (r: &Vec<SettingsFile>)
        requires
            self.wf(),
        ensures
            is_one_per_session(r@),
            files_by_session(r@, r@.len() as int) == self@.found,
    {
        &self.found
    }
}

proof fn lemma_files_of_prefix(a: Seq<SettingsFile>, b: Seq<SettingsFile>, n: int)
    requires
        n <= a.len(),
        n <= b.len(),
        forall|i: int| 0 <= i < n ==> #[trigger] a[i] == b[i],
    ensures
        files_by_session(a, n) == files_by_session(b, n),
    decreases n,
{
    if n > 0 {
        lemma_files_of_prefix(a, b, n - 1);
        assert(a[n - 1] == b[n - 1]);
    }
}

proof fn lemma_replaced_file(files: Seq<SettingsFile>, k: int, file: SettingsFile, n: int)
    requires
        0 <= k < n <= files.len(),
        is_one_per_session(files),
        files[k].session_id@ == file.session_id@,
    ensures
        files_by_session(files.update(k, file), n) == files_by_session(files, n).insert(
            file.session_id@,
            (file.path, file.mtime_ms),
        ),
    decreases n,
{
    let new = files.update(k, file);
    if k < n - 1 {
        lemma_replaced_file(files, k, file, n - 1);
        assert(new[n - 1] == files[n - 1]);
        assert(files[k].session_id@ != files[n - 1].session_id@);
        assert(files_by_session(new, n) =~= files_by_session(files, n).insert(
            file.session_id@,
            (file.path, file.mtime_ms),
        ));
    } else {
        lemma_files_of_prefix(new, files, k);
        assert(new[k] == file);
        assert(files_by_session(new, n) =~= files_by_session(files, n).insert(
            file.session_id@,
            (file.path, file.mtime_ms),
        ));
    }
}

/// The settings file of a session is found under its id: `<id>.settings.json`, for every id that
/// is not empty, and under no other name.
pub proof fn settings_files_are_named_by_id(id: Seq<char>, name: Seq<char>)
    requires
        id.len() > 0,
    ensures
        settings_id_of(name) == Some(id) <==> name == id + ".settings.json"@,
{
    let suffix = ".settings.json"@;
    if name == id + suffix {
        assert(name.skip(name.len() - suffix.len()) =~= suffix);
        assert(name.take(name.len() - suffix.len()) =~= id);
    }
    if settings_id_of(name) == Some(id) {
        let cut = name.len() - suffix.len();
        assert(name =~= name.take(cut) + name.skip(cut));
    }
}

/// Of the entries of a directory, directories are walked, and files that are no links and bear the
/// name `<id>.settings.json` are taken for the session `<id>`; all else is passed over.
pub proof fn steps_follow_the_kind_of_entry(
    is_dir: bool,
    is_symlink: bool,
    name: Option<Seq<char>>,
    id: Seq<char>,
)
    ensures
        step_of(is_dir, is_symlink, name) is Descend <==> is_dir,
        step_of(is_dir, is_symlink, name) == ScanStepView::Settings(id) <==> !is_dir && !is_symlink
            && id.len() > 0 && name == Some(id + ".settings.json"@),
{
    if let Some(n) = name {
        if id.len() > 0 {
            settings_files_are_named_by_id(id, n);
        }
    }
}

/// The settings files by session hold each file under its session, and nothing else, where there
/// is one for each session.
pub proof fn files_are_held_under_their_sessions(files: Seq<SettingsFile>)
    requires
        forall|i: int, j: int|
            0 <= i < j < files.len() ==> (#[trigger] files[i]).session_id@ != (
            #[trigger] files[j]).session_id@,
    ensures
        forall|i: int|
            0 <= i < files.len() ==> files_by_session(files, files.len() as int).contains_key(
                (#[trigger] files[i]).session_id@,
            ) && files_by_session(files, files.len() as int)[files[i].session_id@] == (
                files[i].path,
                files[i].mtime_ms,
            ),
        forall|id: Seq<char>| #[trigger]
            files_by_session(files, files.len() as int).contains_key(id) ==> exists|i: int|
                0 <= i < files.len() && (#[trigger] files[i]).session_id@ == id,
{
    lemma_files_held(files, files.len() as int);
}

proof fn lemma_files_held(files: Seq<SettingsFile>, n: int)
    requires
        0 <= n <= files.len(),
        forall|i: int, j: int|
            0 <= i < j < files.len() ==> (#[trigger] files[i]).session_id@ != (
            #[trigger] files[j]).session_id@,
    ensures
        forall|i: int|
            0 <= i < n ==> files_by_session(files, n).contains_key((#[trigger] files[i]).session_id@)
                && files_by_session(files, n)[files[i].session_id@] == (
                files[i].path,
                files[i].mtime_ms,
            ),
        forall|id: Seq<char>| #[trigger]
            files_by_session(files, n).contains_key(id) ==> exists|i: int|
                0 <= i < n && (#[trigger] files[i]).session_id@ == id,
    decreases n,
{
    if n > 0 {
        lemma_files_held(files, n - 1);
        assert forall|id: Seq<char>| #[trigger] files_by_session(files, n).contains_key(
            id,
        ) implies exists|i: int| 0 <= i < n && (#[trigger] files[i]).session_id@ == id by {
            if files_by_session(files, n - 1).contains_key(id) {
                let i = choose|i: int| 0 <= i < n - 1 && (#[trigger] files[i]).session_id@ == id;
                assert(files[i].session_id@ == id);
            } else {
                assert(files[n - 1].session_id@ == id);
            }
        }
    }
}

/// The view of a step shows it as it is.
pub proof fn step_views_show_the_step(step: ScanStep)
    ensures
        match step {
            ScanStep::Descend => step@ == ScanStepView::Descend,
            ScanStep::Skip => step@ == ScanStepView::Skip,
            ScanStep::Settings(id) => step@ == ScanStepView::Settings(id@),
        },
{
}

/// Where there is one file for each session, no two belong to the same.
pub proof fn files_of_one_session_are_one(files: Seq<SettingsFile>, i: int, j: int)
    requires
        0 <= i < j < files.len(),
        is_one_per_session(files),
    ensures
        files[i].session_id@ != files[j].session_id@,
{
}

} // verus!
