//! Applying declarations to files, one step at a time.
//!
//! The engine decides and the caller acts: the engine names the next thing
//! to do with the file system, the caller does it and reports what came of
//! it. Declarations are applied in their order, each path read, patched,
//! written and given its mode before the next is looked at. The first
//! failure ends the run; what was written before it stays written, and
//! nothing guards a file against changes between its reading and its
//! writing.

use crate::text::string_views;
use super::{applied, entry_views, file_mode, is_outcome, Applied, ApplyError, Dotfile, Entry};
use vstd::prelude::*;
use vstd::string::*;

verus! {

/// Where a run stands.
#[derive(Debug, Clone, Copy)]
pub enum Step {
    /// The file at the current path is being read.
    Reading,
    /// The new content of the current path is being written.
    Writing,
    /// The mode of the current path is being set.
    SettingPermissions,
    /// Every declaration was applied.
    Finished,
    /// A declaration could not be applied.
    Failed,
}

/// What the caller is to do next.
#[derive(Debug)]
pub enum Action {
    /// Read the file at `path`.
    Read { path: String },
    /// Write `content` to the file at `path`.
    Write { path: String, content: Vec<u8> },
    /// Set the mode bits of the file at `path`.
    SetPermissions { path: String, mode: u32 },
    /// Nothing: every declaration was applied, and these paths were written.
    Finished { changed: Vec<String> },
    /// Nothing: the run ended with this error.
    Failed { error: ApplyError },
}

/// What came of the last action.
#[derive(Debug)]
pub enum Event {
    /// The path that was to be read does not exist.
    Missing,
    /// The bytes of the file that was read.
    Content(Vec<u8>),
    /// The file was written, or its mode set.
    Done,
    /// The file system refused.
    Failed(std::io::Error),
}

/// A run of the engine over a list of declarations.
#[derive(Debug)]
pub struct Applier {
    dotfiles: Vec<(String, Dotfile)>,
    position: usize,
    step: Step,
    changed: Vec<String>,
}

impl Applier {
    /// The declarations of the run.
    pub closed spec fn entries(&self) -> Seq<Entry> {
        entry_views(self.dotfiles@)
    }

    /// How many declarations are done with.
    pub closed spec fn position(&self) -> int {
        self.position as int
    }

    /// Where the run stands.
    pub closed spec fn step(&self) -> Step {
        self.step
    }

    /// The paths that were written so far, in the order of the declarations.
    pub closed spec fn changed(&self) -> Seq<Seq<char>> {
        string_views(self.changed@)
    }

    /// While a run goes on, it stands at one of its declarations.
    pub closed spec fn wf(&self) -> bool {
        &&& self.position <= self.dotfiles.len()
        &&& (self.step is Reading || self.step is Writing || self.step is SettingPermissions)
            ==> self.position < self.dotfiles.len()
    }

    /// Whether `event` can be what came of the last action.
    pub open spec fn expects(&self, event: Event) -> bool {
        match self.step() {
            Step::Reading => event is Missing || event is Content || event is Failed,
            Step::Writing | Step::SettingPermissions => event is Done || event is Failed,
            Step::Finished | Step::Failed => false,
        }
    }

    /// Whether `event` can be what came of the last action.
    pub fn accepts(&self, event: &Event) -> (r: bool)
        ensures
            r == self.expects(*event),
    {
        match self.step {
            Step::Reading => match event {
                Event::Missing | Event::Content(_) | Event::Failed(_) => true,
                Event::Done => false,
            },
            Step::Writing | Step::SettingPermissions => match event {
                Event::Done | Event::Failed(_) => true,
                Event::Missing | Event::Content(_) => false,
            },
            Step::Finished | Step::Failed => false,
        }
    }
}

/// The run went on to the declaration after the current one, or ended behind
/// the last; `changed` are the paths written so far.
pub open spec fn moved_on(before: Applier, after: Applier, action: Action, changed: Seq<Seq<char>>) -> bool {
    &&& after.changed() == changed
    &&& after.position() == before.position() + 1
    &&& if before.position() + 1 < before.entries().len() {
        &&& after.step() is Reading
        &&& action matches Action::Read { path }
        &&& path@ == before.entries()[before.position() + 1].0
    } else {
        &&& after.step() is Finished
        &&& action matches Action::Finished { changed: paths }
        &&& string_views(paths@) == changed
    }
}

/// The run stayed at its declaration and went to `step`.
pub open spec fn stayed(before: Applier, after: Applier, step: Step) -> bool {
    &&& after.changed() == before.changed()
    &&& after.position() == before.position()
    &&& after.step() == step
}

/// The run ended because the file system refused `operation` on `path`.
pub open spec fn failed_io(
    before: Applier,
    after: Applier,
    action: Action,
    operation: Seq<char>,
    cause: std::io::Error,
) -> bool {
    &&& stayed(before, after, Step::Failed)
    &&& action matches Action::Failed { error: ApplyError::IO { path, operation: op, err } }
    &&& path@ == before.entries()[before.position()].0
    &&& op@ == operation
    &&& err == cause
}

/// What the run does once the current file was read and held `existing`:
/// it goes on if the declaration leaves the file as it is, asks for the
/// new content to be written if it does not, and ends if the declaration
/// cannot be applied.
pub open spec fn after_read(before: Applier, after: Applier, action: Action, existing: Seq<u8>) -> bool {
    let entry = before.entries()[before.position()];
    match applied(entry.1, existing) {
        Applied::Unchanged => moved_on(before, after, action, before.changed()),
        Applied::Write(bytes) => {
            &&& stayed(before, after, Step::Writing)
            &&& action matches Action::Write { path, content }
            &&& path@ == entry.0
            &&& content@ == bytes
        },
        outcome => {
            &&& stayed(before, after, Step::Failed)
            &&& action matches Action::Failed { error }
            &&& is_outcome(Err::<Option<Vec<u8>>, ApplyError>(error), outcome, existing)
        },
    }
}

impl Applier {
    /// Goes on to the declaration after the current one, or ends the run.
    fn move_on(&mut self) -> (action: Action)
        requires
            old(self).position < old(self).dotfiles.len(),
        ensures
            final(self).wf(),
            final(self).entries() == old(self).entries(),
            moved_on(*old(self), *final(self), action, old(self).changed()),
    {
        self.position = self.position + 1;
        if self.position < self.dotfiles.len() {
            self.step = Step::Reading;
            Action::Read { path: self.dotfiles[self.position].0.clone() }
        } else {
            self.step = Step::Finished;
            let mut paths: Vec<String> = Vec::new();
            let mut i: usize = 0;
            while i < self.changed.len()
                invariant
                    i <= self.changed.len(),
                    string_views(paths@) == string_views(self.changed@).take(i as int),
                decreases self.changed.len() - i,
            {
                let path = self.changed[i].clone();
                assert(path@ == self.changed@[i as int]@);
                assert(string_views(paths@).len() == i);
                assert(string_views(paths@.push(path)) =~= string_views(paths@).push(path@));
                assert(string_views(self.changed@).take(i + 1) =~= string_views(
                    self.changed@,
                ).take(i as int).push(path@));
                paths.push(path);
                i += 1;
            }
            assert(string_views(self.changed@).take(self.changed.len() as int) =~= string_views(
                self.changed@,
            ));
            Action::Finished { changed: paths }
        }
    }

    /// Ends the run because the file system refused `operation`.
    fn fail_io(&mut self, operation: &str, err: std::io::Error) -> (action: Action)
        requires
            old(self).position < old(self).dotfiles.len(),
        ensures
            final(self).wf(),
            final(self).entries() == old(self).entries(),
            failed_io(*old(self), *final(self), action, operation@, err),
    {
        self.step = Step::Failed;
        Action::Failed {
            error: ApplyError::IO {
                path: self.dotfiles[self.position].0.clone(),
                operation: String::from_str(operation),
                err,
            },
        }
    }

    /// Takes what came of the last action and names the next one.
    ///
    /// A file that does not exist is read as an empty one. A file that the
    /// declaration leaves as it is, is neither written nor counted as
    /// changed. A file that was written gets the mode of its declaration,
    /// and counts as changed once the mode is set. A refusal of the file
    /// system ends the run with the path and the operation, `read`, `write`
    /// or `set_permissions`; so does a declaration that cannot be applied.
    pub fn advance(&mut self, event: Event) -> (action: Action)
        requires
            old(self).wf(),
            old(self).expects(event),
        ensures
            final(self).wf(),
            final(self).entries() == old(self).entries(),
            match (old(self).step(), event) {
                (Step::Reading, Event::Missing) => after_read(
                    *old(self),
                    *final(self),
                    action,
                    Seq::empty(),
                ),
                (Step::Reading, Event::Content(bytes)) => after_read(
                    *old(self),
                    *final(self),
                    action,
                    bytes@,
                ),
                (Step::Reading, Event::Failed(err)) => failed_io(
                    *old(self),
                    *final(self),
                    action,
                    "read"@,
                    err,
                ),
                (Step::Writing, Event::Done) => {
                    &&& stayed(*old(self), *final(self), Step::SettingPermissions)
                    &&& action matches Action::SetPermissions { path, mode }
                    &&& path@ == old(self).entries()[old(self).position()].0
                    &&& mode == file_mode(old(self).entries()[old(self).position()].1)
                },
                (Step::Writing, Event::Failed(err)) => failed_io(
                    *old(self),
                    *final(self),
                    action,
                    "write"@,
                    err,
                ),
                (Step::SettingPermissions, Event::Done) => moved_on(
                    *old(self),
                    *final(self),
                    action,
                    old(self).changed().push(old(self).entries()[old(self).position()].0),
                ),
                (Step::SettingPermissions, Event::Failed(err)) => failed_io(
                    *old(self),
                    *final(self),
                    action,
                    "set_permissions"@,
                    err,
                ),
                _ => true,
            },
    {
        match self.step {
            Step::Reading => {
                let existing = match event {
                    Event::Missing => Vec::new(),
                    Event::Content(bytes) => bytes,
                    Event::Failed(err) => {
                        return self.fail_io("read", err);
                    },
                    Event::Done => Vec::new(),
                };
                match self.dotfiles[self.position].1.apply(existing.as_slice()) {
                    Ok(None) => self.move_on(),
                    Ok(Some(content)) => {
                        self.step = Step::Writing;
                        Action::Write { path: self.dotfiles[self.position].0.clone(), content }
                    },
                    Err(error) => {
                        self.step = Step::Failed;
                        Action::Failed { error }
                    },
                }
            },
            Step::Writing => match event {
                Event::Failed(err) => self.fail_io("write", err),
                _ => {
                    self.step = Step::SettingPermissions;
                    Action::SetPermissions {
                        path: self.dotfiles[self.position].0.clone(),
                        mode: self.dotfiles[self.position].1.file_permission(),
                    }
                },
            },
            Step::SettingPermissions => match event {
                Event::Failed(err) => self.fail_io("set_permissions", err),
                _ => {
                    let path = self.dotfiles[self.position].0.clone();
                    assert(string_views(self.changed@.push(path)) =~= string_views(
                        self.changed@,
                    ).push(path@));
                    self.changed.push(path);
                    self.move_on()
                },
            },
            Step::Finished => Action::Finished { changed: Vec::new() },
            Step::Failed => Action::Finished { changed: Vec::new() },
        }
    }
}

/// Starts applying `dotfiles`, first to last, and names the first action:
/// to read the first path, or nothing where there is no declaration.
pub fn apply_dotfiles(dotfiles: Vec<(String, Dotfile)>) -> (r: (Applier, Action))
    ensures
        r.0.wf(),
        r.0.entries() == entry_views(dotfiles@),
        r.0.position() == 0,
        r.0.changed() == Seq::<Seq<char>>::empty(),
        if dotfiles.len() > 0 {
            &&& r.0.step() is Reading
            &&& r.1 matches Action::Read { path }
            &&& path@ == dotfiles[0].0@
        } else {
            &&& r.0.step() is Finished
            &&& r.1 matches Action::Finished { changed }
            &&& changed@.len() == 0
        },
{
    let changed: Vec<String> = Vec::new();
    assert(string_views(changed@) =~= Seq::<Seq<char>>::empty());
    if dotfiles.len() > 0 {
        let path = dotfiles[0].0.clone();
        (Applier { dotfiles, position: 0, step: Step::Reading, changed }, Action::Read { path })
    } else {
        (
            Applier { dotfiles, position: 0, step: Step::Finished, changed },
            Action::Finished { changed: Vec::new() },
        )
    }
}

} // verus!
