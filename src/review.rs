use std::collections::HashSet;
use vstd::prelude::*;
use vstd::string::StrSliceExecFns;

use crate::files::{no_duplicates, WFile, WFiles};
use crate::net::FileId;

verus! {

broadcast use vstd::std_specs::hash::group_hash_axioms;

/// The answer given for one item.
#[derive(Clone, Copy, Debug, PartialEq, Eq, Structural)]
pub enum ReviewOptions {
    Yes,
    No,
    /// Inside a collection: leave the rest of its mods out. For an item of
    /// the seed list it is the same as `No`.
    Skip,
}

/// An answer that is none of the accepted words.
#[derive(Clone, Copy, Debug, PartialEq, Eq, Structural)]
pub struct InvalidInput;

/// The answer that a word stands for.
pub open spec fn parse_answer(s: Seq<char>) -> Option<ReviewOptions> {
    if s == "y"@ || s == "yes"@ {
        Some(ReviewOptions::Yes)
    } else if s == "n"@ || s == "no"@ {
        Some(ReviewOptions::No)
    } else if s == "skip"@ {
        Some(ReviewOptions::Skip)
    } else {
        None
    }
}

pub open spec fn answer_word(o: ReviewOptions) -> Seq<char> {
    match o {
        ReviewOptions::Yes => "yes"@,
        ReviewOptions::No => "no"@,
        ReviewOptions::Skip => "skip"@,
    }
}

fn same_text(s: &str, w: &str) -> (r: bool)
    ensures
        r == (s@ == w@),
{
    let n = s.unicode_len();
    if n != w.unicode_len() {
        return false;
    }
    for i in 0..n
        invariant
            n == s@.len(),
            n == w@.len(),
            forall|k: int| 0 <= k < i ==> s@[k] == w@[k],
    {
        if s.get_char(i) != w.get_char(i) {
            return false;
        }
    }
    proof {
        assert(s@ =~= w@);
    }
    true
}

impl ReviewOptions {
    /// Reads an answer: "y" or "yes", "n" or "no", "skip".
    pub fn from_str(s: &str) -> (r: Result<ReviewOptions, InvalidInput>)
        ensures
            match parse_answer(s@) {
                Some(o) => r == Ok::<ReviewOptions, InvalidInput>(o),
                None => r == Err::<ReviewOptions, InvalidInput>(InvalidInput),
            },
    {
        if same_text(s, "y") || same_text(s, "yes") {
            Ok(ReviewOptions::Yes)
        } else if same_text(s, "n") || same_text(s, "no") {
            Ok(ReviewOptions::No)
        } else if same_text(s, "skip") {
            Ok(ReviewOptions::Skip)
        } else {
            Err(InvalidInput)
        }
    }

    /// The word for the answer: "yes", "no" or "skip".
    pub fn to_string(&self) -> (r: String)
        ensures
            r@ == answer_word(*self),
    {
        match self {
            ReviewOptions::Yes => "yes".to_string(),
            ReviewOptions::No => "no".to_string(),
            ReviewOptions::Skip => "skip".to_string(),
        }
    }
}

/// One instruction of the assembled download command.
#[derive(Clone, Debug, PartialEq, Eq)]
pub enum Instruction {
    Login { username: String },
    DownloadItem { app_id: FileId, file_id: FileId },
    Quit,
}

/// One instruction to download a mod.
#[derive(Clone, Copy, Debug, PartialEq, Eq, Structural)]
pub struct Download {
    pub app_id: FileId,
    pub file_id: FileId,
}

/// What the caller has to do after a step of the review.
#[derive(Clone, Copy, Debug, PartialEq, Eq, Structural)]
pub enum Action {
    /// A mod was added to the download instructions.
    Download { app_id: FileId, file_id: FileId },
    /// An accepted collection starts: open its export.
    OpenExport { collection: FileId },
    /// An accepted mod of the current collection: write its export record.
    ExportLine { file_id: FileId },
    /// The current collection is done: flush and close its export.
    CloseExport,
}

/// What the review needs next.
#[derive(Clone, Copy, Debug, PartialEq, Eq, Structural)]
pub enum Next {
    /// A decision on this item.
    Prompt(FileId),
    /// No decision: the current position is passed over (an item without a
    /// valid record, or the end of a collection).
    Advance,
    /// The review is over.
    Done,
}

/// The position and the output of a review, as a mathematical value.
pub struct ReviewView {
    pub seed: int,
    pub child: Option<int>,
    pub downloads: Seq<Download>,
}

pub open spec fn ids_of(downloads: Seq<Download>) -> Seq<FileId> {
    downloads.map_values(|d: Download| d.file_id)
}

/// The mods of the collection at seed position `seed`.
pub open spec fn children_at(w: WFiles, seed: int) -> Seq<FileId> {
    match w.all_files@[w.files@[seed]].children_view() {
        Some(c) => c,
        None => seq![],
    }
}

pub open spec fn next_of(w: WFiles, v: ReviewView) -> Next {
    match v.child {
        None => if v.seed >= w.files@.len() {
            Next::Done
        } else if w.all_files@.contains_key(w.files@[v.seed]) {
            Next::Prompt(w.files@[v.seed])
        } else {
            Next::Advance
        },
        Some(k) => {
            let cs = children_at(w, v.seed);
            if k >= cs.len() {
                Next::Advance
            } else if w.all_files@.contains_key(cs[k]) {
                Next::Prompt(cs[k])
            } else {
                Next::Advance
            }
        },
    }
}

/// The downloads after accepting the mod `id`: it is added unless it is
/// there already.
pub open spec fn with_mod(w: WFiles, downloads: Seq<Download>, id: FileId) -> Seq<Download> {
    if ids_of(downloads).contains(id) {
        downloads
    } else {
        downloads.push(Download { app_id: w.all_files@[id].app_id, file_id: id })
    }
}

pub open spec fn mod_actions(w: WFiles, downloads: Seq<Download>, id: FileId) -> Seq<Action> {
    if ids_of(downloads).contains(id) {
        seq![]
    } else {
        seq![Action::Download { app_id: w.all_files@[id].app_id, file_id: id }]
    }
}

pub open spec fn close_actions(export: bool) -> Seq<Action> {
    if export {
        seq![Action::CloseExport]
    } else {
        seq![]
    }
}

/// The position after the current seed item.
pub open spec fn next_seed(v: ReviewView) -> ReviewView {
    ReviewView { seed: v.seed + 1, child: None, downloads: v.downloads }
}

/// One transition of the review on the decision `d`; `d` is read only where
/// the position asks for a decision.
pub open spec fn step_of(w: WFiles, export: bool, v: ReviewView, d: ReviewOptions) -> (
    ReviewView,
    Seq<Action>,
) {
    match v.child {
        None => {
            let id = w.files@[v.seed];
            if !w.all_files@.contains_key(id) || d != ReviewOptions::Yes {
                (next_seed(v), seq![])
            } else if w.all_files@[id].children is Some {
                (
                    ReviewView { seed: v.seed, child: Some(0), downloads: v.downloads },
                    if export {
                        seq![Action::OpenExport { collection: id }]
                    } else {
                        seq![]
                    },
                )
            } else {
                (
                    ReviewView {
                        seed: v.seed + 1,
                        child: None,
                        downloads: with_mod(w, v.downloads, id),
                    },
                    mod_actions(w, v.downloads, id),
                )
            }
        },
        Some(k) => {
            let cs = children_at(w, v.seed);
            let on = ReviewView { seed: v.seed, child: Some(k + 1), downloads: v.downloads };
            if k >= cs.len() {
                (next_seed(v), close_actions(export))
            } else if !w.all_files@.contains_key(cs[k]) {
                (on, seq![])
            } else {
                match d {
                    ReviewOptions::Yes => (
                        ReviewView {
                            seed: v.seed,
                            child: Some(k + 1),
                            downloads: with_mod(w, v.downloads, cs[k]),
                        },
                        mod_actions(w, v.downloads, cs[k]) + if export {
                            seq![Action::ExportLine { file_id: cs[k] }]
                        } else {
                            seq![]
                        },
                    ),
                    ReviewOptions::No => (on, seq![]),
                    ReviewOptions::Skip => (next_seed(v), close_actions(export)),
                }
            }
        },
    }
}

/// The number of mods of the collection at seed position `seed`, 0 where
/// there is none.
pub open spec fn children_count(w: WFiles, seed: int) -> int {
    if 0 <= seed < w.files@.len() && w.all_files@.contains_key(w.files@[seed])
        && w.all_files@[w.files@[seed]].children is Some {
        children_at(w, seed).len() as int
    } else {
        0
    }
}

/// How far the walk still has to go inside the current seed item.
pub open spec fn rank(w: WFiles, v: ReviewView) -> int {
    match v.child {
        None => children_count(w, v.seed) + 1,
        Some(k) => children_count(w, v.seed) - k,
    }
}

/// A position that the review can be at.
pub open spec fn position_ok(w: WFiles, v: ReviewView) -> bool {
    &&& 0 <= v.seed <= w.files@.len()
    &&& match v.child {
        Some(k) => {
            &&& v.seed < w.files@.len()
            &&& w.all_files@.contains_key(w.files@[v.seed])
            &&& w.all_files@[w.files@[v.seed]].children is Some
            &&& 0 <= k <= children_at(w, v.seed).len()
        },
        None => true,
    }
}

/// The end of the review when every decision is `Yes`, and the actions on
/// the way.
pub open spec fn unattended(w: WFiles, export: bool, v: ReviewView) -> (ReviewView, Seq<Action>)
    decreases w.files@.len() - v.seed, rank(w, v),
{
    if position_ok(w, v) && next_of(w, v) != Next::Done {
        let (v2, a) = step_of(w, export, v, ReviewOptions::Yes);
        let (v3, b) = unattended(w, export, v2);
        (v3, a + b)
    } else {
        (v, seq![])
    }
}

/// The review of a run: a walk over the seeds and, inside each accepted
/// collection, over its mods.
pub struct Review {
    pub wfiles: WFiles,
    /// Whether accepted collections are exported.
    pub export: bool,
    /// Position in the seed list.
    pub seed: usize,
    /// Position among the mods of the current collection, when inside one.
    pub child: Option<usize>,
    /// The mods already downloaded.
    pub seen: HashSet<FileId>,
    pub downloads: Vec<Download>,
}

impl View for Review {
    type V = ReviewView;

    open spec fn view(&self) -> ReviewView {
        ReviewView {
            seed: self.seed as int,
            child: match self.child {
                Some(k) => Some(k as int),
                None => None,
            },
            downloads: self.downloads@,
        }
    }
}

impl Review {
    /// The position is inside the run and no mod is downloaded twice.
    pub open spec fn wf(&self) -> bool {
        &&& self.seed <= self.wfiles.files@.len()
        &&& match self.child {
            Some(k) => {
                &&& self.seed < self.wfiles.files@.len()
                &&& self.wfiles.all_files@.contains_key(self.wfiles.files@[self.seed as int])
                &&& self.wfiles.all_files@[self.wfiles.files@[self.seed as int]].children is Some
                &&& k <= children_at(self.wfiles, self.seed as int).len()
            },
            None => true,
        }
        &&& no_duplicates(ids_of(self.downloads@))
        &&& forall|i: int|
            0 <= i < self.downloads@.len() ==> self.wfiles.all_files@.contains_key(
                #[trigger] self.downloads@[i].file_id,
            )
        &&& forall|x: FileId| self.seen@.contains(x) <==> ids_of(self.downloads@).contains(x)
    }

    /// The downloads accepted so far, in order.
    pub fn downloads(&self) -> (r: &Vec<Download>)
        ensures
            r@ == self@.downloads,
    {
        &self.downloads
    }

    /// A review at the first seed, with nothing downloaded.
    pub fn new(wfiles: WFiles, export: bool) -> (r: Review)
        ensures
            r.wf(),
            r.wfiles == wfiles,
            r.export == export,
            r@ == (ReviewView { seed: 0, child: None, downloads: seq![] }),
    {
        let r = Review {
            wfiles,
            export,
            seed: 0,
            child: None,
            seen: HashSet::new(),
            downloads: Vec::new(),
        };
        proof {
            assert(r@.downloads =~= seq![]);
        }
        r
    }

    /// What the review needs next.
    pub fn next(&self) -> (r: Next)
        requires
            self.wf(),
        ensures
            r == next_of(self.wfiles, self@),
    {
        let files = &self.wfiles.files;
        match self.child {
            None => {
                if self.seed >= files.len() {
                    Next::Done
                } else if self.wfiles.all_files.contains_key(&files[self.seed]) {
                    Next::Prompt(files[self.seed])
                } else {
                    Next::Advance
                }
            },
            Some(k) => {
                let cs = self.current_children();
                if k >= cs.len() {
                    Next::Advance
                } else if self.wfiles.all_files.contains_key(&cs[k]) {
                    Next::Prompt(cs[k])
                } else {
                    Next::Advance
                }
            },
        }
    }

    /// The mods of the collection being walked.
    fn current_children(&self) -> (r: &Vec<FileId>)
        requires
            self.wf(),
            self.child is Some,
        ensures
            r@ == children_at(self.wfiles, self.seed as int),
    {
        let id = self.wfiles.files[self.seed];
        match self.wfiles.all_files.get(&id) {
            Some(f) => match &f.children {
                Some(c) => c,
                None => {
                    proof {
                        assert(false);
                    }
                    &self.wfiles.files
                },
            },
            None => {
                proof {
                    assert(false);
                }
                &self.wfiles.files
            },
        }
    }

    /// Accepts the mod `id`: it is downloaded unless it was already.
    fn accept_mod(&mut self, id: FileId) -> (r: Vec<Action>)
        requires
            old(self).wf(),
            old(self).wfiles.all_files@.contains_key(id),
        ensures
            final(self).wf(),
            final(self).wfiles == old(self).wfiles,
            final(self).export == old(self).export,
            final(self).seed == old(self).seed,
            final(self).child == old(self).child,
            final(self)@.downloads == with_mod(old(self).wfiles, old(self)@.downloads, id),
            r@ == mod_actions(old(self).wfiles, old(self)@.downloads, id),
    {
        let ghost before = self.downloads@;
        let ghost seen_before = self.seen@;
        let mut r: Vec<Action> = Vec::new();
        if self.seen.insert(id) {
            let app_id = match self.wfiles.all_files.get(&id) {
                Some(f) => f.app_id,
                None => {
                    proof {
                        assert(false);
                    }
                    0
                },
            };
            proof {
                assert(!ids_of(before).contains(id));
            }
            self.downloads.push(Download { app_id, file_id: id });
            proof {
                let ids = ids_of(self.downloads@);
                assert forall|i: int, j: int| 0 <= i < j < ids.len() implies ids[i] != ids[j] by {
                    if j == ids.len() - 1 {
                        assert(ids_of(before)[i] == ids[i]);
                    } else {
                        assert(ids_of(before)[i] == ids[i]);
                        assert(ids_of(before)[j] == ids[j]);
                    }
                }
            }
            r.push(Action::Download { app_id, file_id: id });
            proof {
                assert(ids_of(self.downloads@) =~= ids_of(before).push(id));
                assert forall|x: FileId| self.seen@.contains(x) <==> ids_of(
                    self.downloads@,
                ).contains(x) by {
                    let ids = ids_of(self.downloads@);
                    assert(self.seen@ == seen_before.insert(id));
                    if x != id && ids_of(before).contains(x) {
                        let k = choose|k: int|
                            0 <= k < ids_of(before).len() && ids_of(before)[k] == x;
                        assert(ids[k] == x);
                    }
                    if x != id && ids_of(self.downloads@).contains(x) {
                        let k = choose|k: int|
                            0 <= k < ids_of(self.downloads@).len() && ids_of(self.downloads@)[k]
                                == x;
                        assert(ids_of(before)[k] == x);
                    }
                    if x == id {
                        assert(ids_of(self.downloads@)[ids_of(before).len() as int] == x);
                    }
                }
                assert(r@ =~= seq![Action::Download { app_id, file_id: id }]);
            }
        } else {
            proof {
                assert(self.seen@ =~= self.seen@.insert(id));
                assert(r@ =~= seq![]);
            }
        }
        r
    }

    fn close(&mut self) -> (r: Vec<Action>)
        requires
            old(self).wf(),
            old(self).seed < old(self).wfiles.files@.len(),
        ensures
            final(self).wf(),
            final(self).wfiles == old(self).wfiles,
            final(self).export == old(self).export,
            final(self)@ == next_seed(old(self)@),
            r@ == close_actions(old(self).export),
    {
        let n = self.wfiles.files.len();
        assert(self.seed < n);
        self.seed = self.seed + 1;
        self.child = None;
        let mut r: Vec<Action> = Vec::new();
        if self.export {
            r.push(Action::CloseExport);
        }
        proof {
            assert(r@ =~= close_actions(self.export));
        }
        r
    }

    /// Takes one step on the decision `d`, which counts only where the
    /// review asked for a decision.
    pub fn step(&mut self, d: ReviewOptions) -> (r: Vec<Action>)
        requires
            old(self).wf(),
            next_of(old(self).wfiles, old(self)@) != Next::Done,
        ensures
            final(self).wf(),
            final(self).wfiles == old(self).wfiles,
            final(self).export == old(self).export,
            (final(self)@, r@) == step_of(old(self).wfiles, old(self).export, old(self)@, d),
    {
        let ghost v = self@;
        match self.child {
            None => {
                let n = self.wfiles.files.len();
                let id = self.wfiles.files[self.seed];
                assert(self.seed < n);
                let is_collection = match self.wfiles.all_files.get(&id) {
                    Some(f) => Some(f.is_collection()),
                    None => None,
                };
                match is_collection {
                    Some(c) if d == ReviewOptions::Yes => {
                        if c {
                            self.child = Some(0);
                            let mut r: Vec<Action> = Vec::new();
                            if self.export {
                                r.push(Action::OpenExport { collection: id });
                            }
                            proof {
                                assert(r@ =~= step_of(self.wfiles, self.export, v, d).1);
                            }
                            r
                        } else {
                            let r = self.accept_mod(id);
                            self.seed = self.seed + 1;
                            r
                        }
                    },
                    _ => {
                        self.seed = self.seed + 1;
                        let r: Vec<Action> = Vec::new();
                        proof {
                            assert(r@ =~= seq![]);
                        }
                        r
                    },
                }
            },
            Some(k) => {
                let cs = self.current_children();
                if k >= cs.len() {
                    self.close()
                } else {
                    let id = cs[k];
                    if !self.wfiles.all_files.contains_key(&id) {
                        self.child = Some(k + 1);
                        let r: Vec<Action> = Vec::new();
                        proof {
                            assert(r@ =~= seq![]);
                        }
                        r
                    } else {
                        match d {
                            ReviewOptions::Yes => {
                                let mut r = self.accept_mod(id);
                                self.child = Some(k + 1);
                                if self.export {
                                    r.push(Action::ExportLine { file_id: id });
                                }
                                proof {
                                    assert(r@ =~= step_of(self.wfiles, self.export, v, d).1);
                                }
                                r
                            },
                            ReviewOptions::No => {
                                self.child = Some(k + 1);
                                let r: Vec<Action> = Vec::new();
                                proof {
                                    assert(r@ =~= seq![]);
                                }
                                r
                            },
                            ReviewOptions::Skip => self.close(),
                        }
                    }
                }
            },
        }
    }

    /// The download command: a login as `username`, one download per
    /// accepted mod in the order of acceptance, and a quit.
    pub fn build_cmd(&self, username: String) -> (r: Vec<Instruction>)
        ensures
            r@.len() == self@.downloads.len() + 2,
            r@[0] == (Instruction::Login { username }),
            r@.last() == Instruction::Quit,
            forall|i: int|
                0 <= i < self@.downloads.len() ==> r@[i + 1] == (Instruction::DownloadItem {
                    app_id: #[trigger] self@.downloads[i].app_id,
                    file_id: self@.downloads[i].file_id,
                }),
    {
        let ghost user = username;
        let mut r: Vec<Instruction> = Vec::new();
        r.push(Instruction::Login { username });
        let n = self.downloads.len();
        for i in 0..n
            invariant
                n == self.downloads@.len(),
                r@.len() == i + 1,
                r@[0] == (Instruction::Login { username: user }),
                forall|j: int|
                    0 <= j < i ==> r@[j + 1] == (Instruction::DownloadItem {
                        app_id: #[trigger] self.downloads@[j].app_id,
                        file_id: self.downloads@[j].file_id,
                    }),
        {
            let d = self.downloads[i];
            r.push(Instruction::DownloadItem { app_id: d.app_id, file_id: d.file_id });
        }
        r.push(Instruction::Quit);
        r
    }

    /// Answers `Yes` to every item, as a review without an operator does,
    /// until the review is over.
    pub fn run_unattended(&mut self) -> (r: Vec<Action>)
        requires
            old(self).wf(),
        ensures
            final(self).wf(),
            final(self).wfiles == old(self).wfiles,
            final(self).export == old(self).export,
            next_of(final(self).wfiles, final(self)@) == Next::Done,
            (final(self)@, r@) == unattended(old(self).wfiles, old(self).export, old(self)@),
    {
        let ghost w = self.wfiles;
        let ghost e = self.export;
        let ghost start = self@;
        let mut acts: Vec<Action> = Vec::new();
        proof {
            assert(acts@ + unattended(w, e, start).1 =~= unattended(w, e, start).1);
        }
        loop
            invariant
                self.wf(),
                self.wfiles == w,
                self.export == e,
                unattended(w, e, start) == (
                    unattended(w, e, self@).0,
                    acts@ + unattended(w, e, self@).1,
                ),
            ensures
                self.wf(),
                self.wfiles == w,
                self.export == e,
                next_of(w, self@) == Next::Done,
                unattended(w, e, start) == (self@, acts@),
            decreases self.wfiles.files@.len() - self.seed, rank(self.wfiles, self@),
        {
            let ghost v = self@;
            proof {
                self.lemma_position_ok();
            }
            if self.next() == Next::Done {
                assert(unattended(w, e, v).1 =~= seq![]);
                assert(acts@ + seq![] =~= acts@);
                break;
            }
            let mut a = self.step(ReviewOptions::Yes);
            let ghost before = acts@;
            acts.append(&mut a);
            proof {
                let rest = unattended(w, e, self@).1;
                assert(before + (step_of(w, e, v, ReviewOptions::Yes).1 + rest) =~= acts@ + rest);
            }
        }
        acts
    }

    proof fn lemma_position_ok(&self)
        requires
            self.wf(),
        ensures
            position_ok(self.wfiles, self@),
    {
    }
}

// ---------------------------------------------------------------------------
// Laws of the review
// ---------------------------------------------------------------------------

proof fn lemma_with_mod_unique(w: WFiles, downloads: Seq<Download>, id: FileId)
    requires
        no_duplicates(ids_of(downloads)),
    ensures
        no_duplicates(ids_of(with_mod(w, downloads, id))),
{
    if !ids_of(downloads).contains(id) {
        let ids = ids_of(with_mod(w, downloads, id));
        assert(ids =~= ids_of(downloads).push(id));
        assert forall|i: int, j: int| 0 <= i < j < ids.len() implies ids[i] != ids[j] by {
            if j == ids.len() - 1 {
                assert(ids_of(downloads)[i] == ids[i]);
            }
        }
    }
}

/// A step of the review never downloads a mod twice: whatever the seeds and
/// the decisions, the download instructions name each mod at most once, also
/// where several collections, or a collection and a seed, share it.
pub proof fn lemma_step_downloads_once(
    w: WFiles,
    export: bool,
    v: ReviewView,
    d: ReviewOptions,
)
    requires
        position_ok(w, v),
        next_of(w, v) != Next::Done,
        no_duplicates(ids_of(v.downloads)),
    ensures
        no_duplicates(ids_of(step_of(w, export, v, d).0.downloads)),
        forall|a: Action| #[trigger]
            step_of(w, export, v, d).1.contains(a) && a is Download ==> !ids_of(
                v.downloads,
            ).contains(a->Download_file_id),
{
    let cs = children_at(w, v.seed);
    match v.child {
        None => lemma_with_mod_unique(w, v.downloads, w.files@[v.seed]),
        Some(k) => {
            if k < cs.len() {
                lemma_with_mod_unique(w, v.downloads, cs[k]);
            }
        },
    }
    assert forall|a: Action| #[trigger]
        step_of(w, export, v, d).1.contains(a) && a is Download implies !ids_of(
        v.downloads,
    ).contains(a->Download_file_id) by {
        let acts = step_of(w, export, v, d).1;
        let i = choose|i: int| 0 <= i < acts.len() && acts[i] == a;
        match v.child {
            None => {},
            Some(k) => {
                if k < cs.len() && w.all_files@.contains_key(cs[k]) && d == ReviewOptions::Yes {
                    let m = mod_actions(w, v.downloads, cs[k]);
                    if i >= m.len() {
                        assert(acts[i] == Action::ExportLine { file_id: cs[k] });
                    }
                }
            },
        }
    }
}

/// `Skip` on a mod of a collection ends that collection: no later mod of it
/// is downloaded or exported, and the review goes on with the next seed item
/// exactly as if the collection had been walked to its end.
pub proof fn lemma_skip_ends_collection(w: WFiles, export: bool, v: ReviewView, other: ReviewOptions)
    requires
        position_ok(w, v),
        v.child is Some,
        next_of(w, v) is Prompt,
    ensures
        step_of(w, export, v, ReviewOptions::Skip) == (next_seed(v), close_actions(export)),
        step_of(w, export, v, ReviewOptions::Skip).0 == step_of(
            w,
            export,
            ReviewView {
                seed: v.seed,
                child: Some(children_at(w, v.seed).len() as int),
                downloads: v.downloads,
            },
            other,
        ).0,
        forall|a: Action| #[trigger]
            step_of(w, export, v, ReviewOptions::Skip).1.contains(a) ==> a == Action::CloseExport,
{
}

/// An item without a valid record is never downloaded.
pub proof fn lemma_only_resolved_downloaded(r: Review, id: FileId)
    requires
        r.wf(),
        !r.wfiles.all_files@.contains_key(id),
    ensures
        !ids_of(r@.downloads).contains(id),
{
    if ids_of(r@.downloads).contains(id) {
        let k = choose|k: int| 0 <= k < ids_of(r@.downloads).len() && ids_of(r@.downloads)[k] == id;
        assert(r.downloads@[k].file_id == id);
    }
}

/// `Yes` accepts what it is given: a mod is then among the downloads (once),
/// an accepted collection is entered at its first mod, and a mod accepted
/// inside a collection is exported when exports are on.
pub proof fn lemma_yes_accepts(w: WFiles, export: bool, v: ReviewView, id: FileId)
    requires
        position_ok(w, v),
        next_of(w, v) == Next::Prompt(id),
    ensures
        ({
            let (v2, acts) = step_of(w, export, v, ReviewOptions::Yes);
            &&& (v.child is Some || w.all_files@[id].children is None) ==> ids_of(
                v2.downloads,
            ).contains(id)
            &&& (v.child is None && w.all_files@[id].children is Some) ==> v2.child == Some(0int)
            &&& (v.child is Some && export) ==> acts.contains(Action::ExportLine { file_id: id })
        }),
{
    let (v2, acts) = step_of(w, export, v, ReviewOptions::Yes);
    if v.child is Some || w.all_files@[id].children is None {
        if !ids_of(v.downloads).contains(id) {
            let ids = ids_of(v2.downloads);
            assert(ids[ids.len() - 1] == id);
        }
    }
    if v.child is Some && export {
        let m = mod_actions(w, v.downloads, id);
        assert(acts[m.len() as int] == Action::ExportLine { file_id: id });
    }
}

/// The seed item at position `i` is fully accepted in `ids`: a mod is there,
/// and so is every mod with a valid record of a collection.
pub open spec fn seed_accepted(w: WFiles, ids: Seq<FileId>, i: int) -> bool {
    let id = w.files@[i];
    w.all_files@.contains_key(id) ==> match w.all_files@[id].children_view() {
        None => ids.contains(id),
        Some(cs) => forall|k: int|
            0 <= k < cs.len() && w.all_files@.contains_key(#[trigger] cs[k]) ==> ids.contains(
                cs[k],
            ),
    }
}

proof fn lemma_with_mod_grows(w: WFiles, downloads: Seq<Download>, id: FileId)
    ensures
        ids_of(with_mod(w, downloads, id)).contains(id),
        forall|x: FileId| #[trigger]
            ids_of(downloads).contains(x) ==> ids_of(with_mod(w, downloads, id)).contains(x),
{
    if !ids_of(downloads).contains(id) {
        let ids = ids_of(with_mod(w, downloads, id));
        assert(ids =~= ids_of(downloads).push(id));
        assert(ids[ids.len() - 1] == id);
        assert forall|x: FileId| #[trigger] ids_of(downloads).contains(x) implies ids.contains(x) by {
            let k = choose|k: int| 0 <= k < ids_of(downloads).len() && ids_of(downloads)[k] == x;
            assert(ids[k] == x);
        }
    }
}

proof fn lemma_unattended_covers(w: WFiles, export: bool, v: ReviewView)
    requires
        position_ok(w, v),
    ensures
        ({
            let fin = ids_of(unattended(w, export, v).0.downloads);
            &&& forall|x: FileId| #[trigger] ids_of(v.downloads).contains(x) ==> fin.contains(x)
            &&& forall|i: int|
                (if v.child is None { v.seed <= i } else { v.seed < i }) && i < w.files@.len()
                    ==> #[trigger] seed_accepted(w, fin, i)
            &&& v.child matches Some(k) ==> forall|j: int|
                k <= j < children_at(w, v.seed).len() && w.all_files@.contains_key(
                    #[trigger] children_at(w, v.seed)[j],
                ) ==> fin.contains(children_at(w, v.seed)[j])
        }),
    decreases w.files@.len() - v.seed, rank(w, v),
{
    if next_of(w, v) != Next::Done {
        let (v2, a) = step_of(w, export, v, ReviewOptions::Yes);
        assert(position_ok(w, v2));
        lemma_unattended_covers(w, export, v2);
        let fin = ids_of(unattended(w, export, v).0.downloads);
        assert(unattended(w, export, v).0 == unattended(w, export, v2).0);
        let cs = children_at(w, v.seed);
        match v.child {
            None => {
                let id = w.files@[v.seed];
                if w.all_files@.contains_key(id) && w.all_files@[id].children is None {
                    lemma_with_mod_grows(w, v.downloads, id);
                }
                if w.all_files@.contains_key(id) {
                    assert(seed_accepted(w, fin, v.seed));
                }
            },
            Some(k) => {
                if k < cs.len() && w.all_files@.contains_key(cs[k]) {
                    lemma_with_mod_grows(w, v.downloads, cs[k]);
                }
            },
        }
    }
}

/// Without an operator every item is accepted: after an unattended review
/// from the start, every seed mod with a valid record, and every mod with a
/// valid record of every seed collection, is among the downloads.
pub proof fn lemma_unattended_accepts_all(w: WFiles, export: bool)
    ensures
        forall|i: int|
            0 <= i < w.files@.len() ==> #[trigger] seed_accepted(
                w,
                ids_of(
                    unattended(
                        w,
                        export,
                        ReviewView { seed: 0, child: None, downloads: seq![] },
                    ).0.downloads,
                ),
                i,
            ),
{
    lemma_unattended_covers(w, export, ReviewView { seed: 0, child: None, downloads: seq![] });
}

/// The entries of `s` that have an item, in order.
pub open spec fn with_items(w: WFiles, s: Seq<FileId>) -> Seq<FileId>
    decreases s.len(),
{
    if s.len() == 0 {
        s
    } else if w.all_files@.contains_key(s[0]) {
        seq![s[0]] + with_items(w, s.drop_first())
    } else {
        with_items(w, s.drop_first())
    }
}

/// The mods that the seed at position `i` stands for: itself for a mod, its
/// mods with an item for a collection, nothing without an item.
pub open spec fn seed_mods(w: WFiles, i: int) -> Seq<FileId> {
    let id = w.files@[i];
    if !w.all_files@.contains_key(id) {
        seq![]
    } else {
        match w.all_files@[id].children_view() {
            None => seq![id],
            Some(cs) => with_items(w, cs),
        }
    }
}

/// The mods of the seeds from position `i` on, one after the other.
pub open spec fn mods_from(w: WFiles, i: int) -> Seq<FileId>
    decreases w.files@.len() - i,
{
    if i < 0 || i >= w.files@.len() {
        seq![]
    } else {
        seed_mods(w, i) + mods_from(w, i + 1)
    }
}

/// `p` followed by the entries of `s` that are not in `p` or earlier in `s`.
pub open spec fn append_new(p: Seq<FileId>, s: Seq<FileId>) -> Seq<FileId>
    decreases s.len(),
{
    if s.len() == 0 {
        p
    } else if p.contains(s[0]) {
        append_new(p, s.drop_first())
    } else {
        append_new(p.push(s[0]), s.drop_first())
    }
}

/// The mods that the walk still reaches from position `v`.
pub open spec fn mods_ahead(w: WFiles, v: ReviewView) -> Seq<FileId> {
    match v.child {
        None => mods_from(w, v.seed),
        Some(k) => with_items(w, children_at(w, v.seed).skip(k)) + mods_from(w, v.seed + 1),
    }
}

/// Every download carries the application of its item.
pub open spec fn apps_match(w: WFiles, downloads: Seq<Download>) -> bool {
    forall|i: int|
        0 <= i < downloads.len() ==> w.all_files@.contains_key(downloads[i].file_id) && (
        #[trigger] downloads[i]).app_id == w.all_files@[downloads[i].file_id].app_id
}

proof fn lemma_with_mod_ids(w: WFiles, downloads: Seq<Download>, id: FileId)
    requires
        apps_match(w, downloads),
        w.all_files@.contains_key(id),
    ensures
        ids_of(with_mod(w, downloads, id)) == if ids_of(downloads).contains(id) {
            ids_of(downloads)
        } else {
            ids_of(downloads).push(id)
        },
        apps_match(w, with_mod(w, downloads, id)),
{
    if !ids_of(downloads).contains(id) {
        assert(ids_of(with_mod(w, downloads, id)) =~= ids_of(downloads).push(id));
    }
}

proof fn lemma_append_new_front(p: Seq<FileId>, x: FileId, t: Seq<FileId>)
    ensures
        append_new(p, seq![x] + t) == append_new(
            if p.contains(x) {
                p
            } else {
                p.push(x)
            },
            t,
        ),
{
    let s = seq![x] + t;
    assert(s[0] == x);
    assert(s.drop_first() =~= t);
}

proof fn lemma_unattended_downloads_from(w: WFiles, export: bool, v: ReviewView)
    requires
        position_ok(w, v),
        apps_match(w, v.downloads),
    ensures
        ids_of(unattended(w, export, v).0.downloads) == append_new(
            ids_of(v.downloads),
            mods_ahead(w, v),
        ),
        apps_match(w, unattended(w, export, v).0.downloads),
    decreases w.files@.len() - v.seed, rank(w, v),
{
    let p = ids_of(v.downloads);
    if next_of(w, v) == Next::Done {
        assert(mods_ahead(w, v) =~= seq![]);
    } else {
        let (v2, a) = step_of(w, export, v, ReviewOptions::Yes);
        assert(position_ok(w, v2));
        let cs = children_at(w, v.seed);
        let rest = mods_from(w, v.seed + 1);
        assert(mods_from(w, v.seed) == seed_mods(w, v.seed) + rest);
        match v.child {
            None => {
                let id = w.files@[v.seed];
                if !w.all_files@.contains_key(id) {
                    assert(mods_ahead(w, v) =~= mods_ahead(w, v2));
                } else if w.all_files@[id].children is Some {
                    assert(cs.skip(0) =~= cs);
                    assert(mods_ahead(w, v) =~= mods_ahead(w, v2));
                } else {
                    lemma_with_mod_ids(w, v.downloads, id);
                    lemma_append_new_front(p, id, rest);
                    assert(mods_ahead(w, v) =~= seq![id] + rest);
                }
            },
            Some(k) => {
                if k >= cs.len() {
                    assert(cs.skip(k) =~= seq![]);
                    assert(mods_ahead(w, v) =~= mods_ahead(w, v2));
                } else {
                    let t = cs.skip(k);
                    assert(t[0] == cs[k]);
                    assert(t.drop_first() =~= cs.skip(k + 1));
                    if !w.all_files@.contains_key(cs[k]) {
                        assert(mods_ahead(w, v) =~= mods_ahead(w, v2));
                    } else {
                        lemma_with_mod_ids(w, v.downloads, cs[k]);
                        let after = with_items(w, cs.skip(k + 1)) + rest;
                        assert(mods_ahead(w, v) =~= seq![cs[k]] + after);
                        assert(mods_ahead(w, v2) =~= after);
                        lemma_append_new_front(p, cs[k], after);
                    }
                }
            },
        }
        lemma_unattended_downloads_from(w, export, v2);
        assert(unattended(w, export, v).0 == unattended(w, export, v2).0);
    }
}

/// Without an operator the downloads are exactly the mods of the seeds, one
/// seed after the other (a collection standing for its mods with an item),
/// each at its first occurrence, with the application of its item.
pub proof fn lemma_unattended_downloads(w: WFiles, export: bool)
    ensures
        ({
            let fin = unattended(
                w,
                export,
                ReviewView { seed: 0, child: None, downloads: seq![] },
            ).0.downloads;
            &&& ids_of(fin) == append_new(seq![], mods_from(w, 0))
            &&& apps_match(w, fin)
        }),
{
    let v = ReviewView { seed: 0, child: None, downloads: seq![] };
    assert(ids_of(v.downloads) =~= seq![]);
    lemma_unattended_downloads_from(w, export, v);
}

/// The position lies in the part of the collection at seed position `pos`
/// from its mod `k` on.
pub open spec fn in_cut(v: ReviewView, pos: int, k: int) -> bool {
    v.seed == pos && match v.child {
        Some(j) => j >= k,
        None => false,
    }
}

/// `Skip` only cuts the collection short. Take `w2`: the items of `w`,
/// but with the collection at seed position `pos` (which appears once among
/// the seeds) cut before its mod `k`. Then the two reviews take the same steps
/// at every position outside the cut part, given the same decisions. `Skip`
/// on mod `k` in `w` does what passing the end of the cut collection does in
/// `w2`. So the instructions, exports and later prompts of the two walks are
/// the same.
pub proof fn lemma_skip_is_truncation(
    w: WFiles,
    w2: WFiles,
    export: bool,
    pos: int,
    k: int,
    v: ReviewView,
    d: ReviewOptions,
    other: ReviewOptions,
)
    requires
        0 <= pos < w.files@.len(),
        forall|i: int| 0 <= i < w.files@.len() && w.files@[i] == w.files@[pos] ==> i == pos,
        w.all_files@.contains_key(w.files@[pos]),
        w.all_files@[w.files@[pos]].children is Some,
        0 <= k < children_at(w, pos).len(),
        w2.files@ == w.files@,
        forall|x: FileId| #[trigger]
            w2.all_files@.contains_key(x) == w.all_files@.contains_key(x),
        forall|x: FileId| #[trigger]
            w.all_files@.contains_key(x) ==> w2.all_files@[x].app_id == w.all_files@[x].app_id && (
            x != w.files@[pos] ==> w2.all_files@[x].children_view()
                == w.all_files@[x].children_view()),
        w2.all_files@[w.files@[pos]].children_view() == Some(children_at(w, pos).take(k)),
        position_ok(w, v),
    ensures
        !in_cut(v, pos, k) ==> next_of(w, v) == next_of(w2, v)
            && step_of(w, export, v, d) == step_of(w2, export, v, d),
        (v.seed == pos && v.child == Some(k) && next_of(w, v) is Prompt) ==> next_of(w2, v)
            == Next::Advance && step_of(w, export, v, ReviewOptions::Skip) == step_of(
            w2,
            export,
            v,
            other,
        ),
{
    let c = w.files@[pos];
    let cs = children_at(w, pos);
    assert(children_at(w2, pos) == cs.take(k));
    if v.seed != pos && 0 <= v.seed < w.files@.len() && w.all_files@.contains_key(
        w.files@[v.seed],
    ) {
        assert(w.files@[v.seed] != c);
        assert(children_at(w2, v.seed) == children_at(w, v.seed));
    }
    if v.seed == pos {
        if let Some(j) = v.child {
            if j < k {
                assert(cs.take(k)[j] == cs[j]);
            }
        }
    }
    if !in_cut(v, pos, k) {
        let (a, b) = step_of(w, export, v, d);
        let (a2, b2) = step_of(w2, export, v, d);
        match v.child {
            None => {
                if v.seed < w.files@.len() {
                    let id = w.files@[v.seed];
                    if w.all_files@.contains_key(id) {
                        assert(with_mod(w, v.downloads, id) == with_mod(w2, v.downloads, id));
                        assert(mod_actions(w, v.downloads, id) == mod_actions(w2, v.downloads, id));
                    }
                }
            },
            Some(j) => {
                let cj = children_at(w, v.seed);
                if j < cj.len() && w.all_files@.contains_key(cj[j]) {
                    assert(with_mod(w, v.downloads, cj[j]) == with_mod(w2, v.downloads, cj[j]));
                    assert(mod_actions(w, v.downloads, cj[j]) == mod_actions(
                        w2,
                        v.downloads,
                        cj[j],
                    ));
                }
            },
        }
    }
}

} // verus!
