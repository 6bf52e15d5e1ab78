//! Carving a new subdirectory out of a numbered directory.
//!
//! A [`Carving`] first has the directories created that lead to the new one,
//! then tries to create the new one under the name that was asked for. Where
//! that name is taken it tries the name with `-0` appended, then with `-1`,
//! and so on.

use crate::decimal::{decimal, lemma_decimal_injective, render};
use crate::path::{branch, is_proper_name, is_relative, join, join_path, leaf, trimmed};
use crate::path::{proper_name, relative, split};
use crate::protocol::{describe_failure, detail, failure_text, into_detail};
use crate::protocol::{Reply, ReplyView, Request, RequestView};
use vstd::prelude::*;

verus! {

/// How many names a carving tries before it gives up: the plain name and
/// 65534 numbered ones.
pub const ATTEMPTS: u16 = 65535;

/// Why a carving failed.
#[derive(Clone, Debug, PartialEq, Eq)]
pub enum CarveError {
    /// The path of the subdirectory is not relative.
    NotRelative,
    /// The path of the subdirectory has no final component that could name a
    /// new directory.
    NoFinalComponent,
    /// Every name that was tried was taken already; `last` is the error of
    /// the last attempt.
    CollisionExhausted { last: String },
    /// An operation on the file system failed: `request` names the operation
    /// and its path, `detail` is the error of the file system.
    IoFailure { request: Request, detail: String },
}

/// What a [`CarveError`] stands for.
pub enum CarveErrorView {
    NotRelative,
    NoFinalComponent,
    CollisionExhausted { last: Seq<char> },
    IoFailure { request: RequestView, detail: Seq<char> },
}

impl View for CarveError {
    type V = CarveErrorView;

    open spec fn view(&self) -> CarveErrorView {
        match self {
            CarveError::NotRelative => CarveErrorView::NotRelative,
            CarveError::NoFinalComponent => CarveErrorView::NoFinalComponent,
            CarveError::CollisionExhausted { last } => CarveErrorView::CollisionExhausted {
                last: last@,
            },
            CarveError::IoFailure { request, detail } => CarveErrorView::IoFailure {
                request: request@,
                detail: detail@,
            },
        }
    }
}

impl CarveErrorView {
    /// The error in words.
    pub open spec fn message(self) -> Seq<char> {
        match self {
            CarveErrorView::NotRelative => "subdir is not a relative path"@,
            CarveErrorView::NoFinalComponent => "subdir does not end in a filename"@,
            CarveErrorView::CollisionExhausted { last } =>
                "subdir conflict, all filename alternatives exhausted: "@ + last,
            CarveErrorView::IoFailure { request, detail } => failure_text(request, detail),
        }
    }
}

impl CarveError {
    /// Says in words what went wrong, with the operation and the path that
    /// failed.
    pub fn message(&self) -> (text: String)
        ensures
            text@ == self@.message(),
    {
        match self {
            CarveError::NotRelative => String::from_str("subdir is not a relative path"),
            CarveError::NoFinalComponent => String::from_str("subdir does not end in a filename"),
            CarveError::CollisionExhausted { last } => {
                let mut text = String::from_str(
                    "subdir conflict, all filename alternatives exhausted: ",
                );
                text.append(last.as_str());
                text
            },
            CarveError::IoFailure { request, detail } => describe_failure(
                request,
                detail.as_str(),
            ),
        }
    }

    /// A copy of this error.
    pub fn duplicate(&self) -> (copy: CarveError)
        ensures
            copy@ == self@,
    {
        match self {
            CarveError::NotRelative => CarveError::NotRelative,
            CarveError::NoFinalComponent => CarveError::NoFinalComponent,
            CarveError::CollisionExhausted { last } => CarveError::CollisionExhausted {
                last: last.clone(),
            },
            CarveError::IoFailure { request, detail } => CarveError::IoFailure {
                request: request.duplicate(),
                detail: detail.clone(),
            },
        }
    }
}

/// What a carving asks for next, or how it ended.
#[derive(Clone, Debug, PartialEq, Eq)]
pub enum CarveStep {
    /// Perform this request and hand the reply to [`Carving::step`].
    Perform(Request),
    /// The subdirectory was created at this path.
    Finished(String),
    /// The carving failed.
    Failed(CarveError),
}

/// What a [`CarveStep`] stands for.
pub enum CarveStepView {
    Perform(RequestView),
    Finished(Seq<char>),
    Failed(CarveErrorView),
}

impl View for CarveStep {
    type V = CarveStepView;

    open spec fn view(&self) -> CarveStepView {
        match self {
            CarveStep::Perform(request) => CarveStepView::Perform(request@),
            CarveStep::Finished(path) => CarveStepView::Finished(path@),
            CarveStep::Failed(error) => CarveStepView::Failed(error@),
        }
    }
}

/// Where a carving stands.
#[derive(Clone, Copy, Debug, PartialEq, Eq)]
pub enum CarvePhase {
    /// The directories that lead to the new one are being created.
    Ancestors,
    /// The new directory is being created.
    Creating,
    /// The subdirectory is created.
    Finished,
    /// The carving failed.
    Failed,
}

/// What is appended to the name after `collisions` names were found taken:
/// nothing at first, then `-0`, `-1` and so on.
pub open spec fn suffix(collisions: nat) -> Seq<char> {
    if collisions == 0 {
        Seq::empty()
    } else {
        seq!['-'] + decimal((collisions - 1) as nat)
    }
}

/// The state of a carving.
pub struct CarveState {
    /// The path of the numbered directory.
    pub dir: Seq<char>,
    /// The relative path of the subdirectory, without separators at its end.
    pub stem: Seq<char>,
    /// The part of `stem` before its final component.
    pub branch: Seq<char>,
    pub phase: CarvePhase,
    /// How many names were found taken.
    pub collisions: nat,
    /// Why the carving failed, once it has.
    pub error: Option<CarveErrorView>,
}

impl CarveState {
    /// The state in which the carving of `rel_path` out of `dir` starts.
    pub open spec fn initial(dir: Seq<char>, rel_path: Seq<char>) -> CarveState {
        CarveState {
            dir,
            stem: trimmed(rel_path),
            branch: branch(rel_path),
            phase: CarvePhase::Ancestors,
            collisions: 0,
            error: None,
        }
    }

    /// What holds of every state that a carving reaches.
    pub open spec fn wf(self) -> bool {
        &&& self.collisions < ATTEMPTS
        &&& self.phase is Failed <==> self.error is Some
    }

    /// The path of the directory that holds the new one. With a single
    /// component to carve, this is the numbered directory itself.
    pub open spec fn ancestors(self) -> Seq<char> {
        if self.branch.len() == 0 {
            self.dir
        } else {
            join(self.dir, self.branch)
        }
    }

    /// The path that is tried next, or the path of the new directory once it
    /// is created.
    pub open spec fn target(self) -> Seq<char> {
        join(self.dir, self.stem) + suffix(self.collisions)
    }

    /// The request that is under way in a state that has one.
    pub open spec fn request(self) -> RequestView {
        match self.phase {
            CarvePhase::Ancestors => RequestView::CreateAll { path: self.ancestors() },
            _ => RequestView::CreateDir { path: self.target() },
        }
    }

    /// What the carving asks for in this state, or how it ended.
    pub open spec fn pending(self) -> CarveStepView {
        match self.phase {
            CarvePhase::Finished => CarveStepView::Finished(self.target()),
            CarvePhase::Failed => CarveStepView::Failed(self.error->0),
            _ => CarveStepView::Perform(self.request()),
        }
    }

    /// The state after the request under way has failed for good.
    pub open spec fn failed(self, reply: ReplyView) -> CarveState {
        CarveState {
            phase: CarvePhase::Failed,
            error: Some(
                CarveErrorView::IoFailure { request: self.request(), detail: detail(reply) },
            ),
            ..self
        }
    }

    /// The state after `reply` was given to the request under way: once the
    /// ancestors are there the new directory is tried; a taken name makes
    /// way for the next one, unless that was the last attempt; any other
    /// failure ends the carving.
    pub open spec fn advance(self, reply: ReplyView) -> CarveState {
        match self.phase {
            CarvePhase::Ancestors => match reply {
                ReplyView::Done => CarveState { phase: CarvePhase::Creating, ..self },
                _ => self.failed(reply),
            },
            CarvePhase::Creating => match reply {
                ReplyView::Done => CarveState { phase: CarvePhase::Finished, ..self },
                ReplyView::Exists(last) => if self.collisions + 1 < ATTEMPTS {
                    CarveState { collisions: self.collisions + 1, ..self }
                } else {
                    CarveState {
                        phase: CarvePhase::Failed,
                        error: Some(CarveErrorView::CollisionExhausted { last }),
                        ..self
                    }
                },
                _ => self.failed(reply),
            },
            CarvePhase::Finished => self,
            CarvePhase::Failed => self,
        }
    }
}

impl CarveState {
    /// How many requests a carving in this state makes at most before it
    /// ends.
    pub open spec fn budget(self) -> nat {
        match self.phase {
            CarvePhase::Ancestors => (ATTEMPTS + 1) as nat,
            CarvePhase::Creating => (ATTEMPTS - self.collisions) as nat,
            CarvePhase::Finished => 0,
            CarvePhase::Failed => 0,
        }
    }
}

/// Every reply leaves a carving in a state that carvings reach, and brings
/// it closer to its end: whatever the file system answers, no carving goes
/// on for ever.
pub proof fn lemma_advance_uses_budget(state: CarveState, reply: ReplyView)
    requires
        state.wf(),
    ensures
        state.advance(reply).wf(),
        !(state.phase is Finished) && !(state.phase is Failed) ==> state.advance(reply).budget()
            < state.budget(),
{
}

/// A carving finishes only when the file system has created the very path
/// that it hands out: the reply was success, and the request was for the
/// creation of that path.
pub proof fn lemma_finishes_on_creation(state: CarveState, reply: ReplyView)
    requires
        !(state.phase is Finished),
        state.advance(reply).phase is Finished,
    ensures
        reply is Done,
        state.advance(reply).pending() is Finished,
        state.request() == (RequestView::CreateDir {
            path: state.advance(reply).pending()->Finished_0,
        }),
{
}

/// Different counts of collisions give different suffixes, and so different
/// paths to try.
pub proof fn lemma_suffix_injective(a: nat, b: nat)
    requires
        suffix(a) == suffix(b),
    ensures
        a == b,
{
    if a == 0 || b == 0 {
        assert(suffix(0).len() == 0);
        if a > 0 {
            assert(suffix(a).len() > 0);
        }
        if b > 0 {
            assert(suffix(b).len() > 0);
        }
    } else {
        let x = decimal((a - 1) as nat);
        let y = decimal((b - 1) as nat);
        assert(suffix(a).subrange(1, suffix(a).len() as int) =~= x);
        assert(suffix(b).subrange(1, suffix(b).len() as int) =~= y);
        lemma_decimal_injective((a - 1) as nat, (b - 1) as nat);
    }
}

/// A carving under way.
#[derive(Clone, Debug)]
pub struct Carving {
    dir: String,
    stem: String,
    branch: String,
    phase: CarvePhase,
    collisions: u16,
    error: Option<CarveError>,
}

impl View for Carving {
    type V = CarveState;

    closed spec fn view(&self) -> CarveState {
        CarveState {
            dir: self.dir@,
            stem: self.stem@,
            branch: self.branch@,
            phase: self.phase,
            collisions: self.collisions as nat,
            error: match self.error {
                Some(error) => Some(error@),
                None => None,
            },
        }
    }
}

impl Carving {
    /// Whether this carving is in a state that a carving can reach.
    pub closed spec fn wf(&self) -> bool {
        self@.wf()
    }

    /// Starts the carving of the subdirectory `rel_path` out of the
    /// directory `dir`. The path must be relative, and its final component
    /// must be able to name a new directory.
    pub fn new(dir: &str, rel_path: &str) -> (r: Result<Carving, CarveError>)
        ensures
            !is_relative(rel_path@) ==> r == Err::<Carving, _>(CarveError::NotRelative),
            is_relative(rel_path@) && !is_proper_name(leaf(rel_path@)) ==> r == Err::<Carving, _>(
                CarveError::NoFinalComponent,
            ),
            is_relative(rel_path@) && is_proper_name(leaf(rel_path@)) ==> r is Ok && r->Ok_0.wf()
                && r->Ok_0@ == CarveState::initial(dir@, rel_path@),
    {
        if !relative(rel_path) {
            return Err(CarveError::NotRelative);
        }
        let (stem, branch, leaf) = split(rel_path);
        if !proper_name(leaf) {
            return Err(CarveError::NoFinalComponent);
        }
        Ok(
            Carving {
                dir: String::from_str(dir),
                stem: String::from_str(stem),
                branch: String::from_str(branch),
                phase: CarvePhase::Ancestors,
                collisions: 0,
                error: None,
            },
        )
    }

    /// The path that is tried next.
    fn target(&self) -> (path: String)
        ensures
            path@ == self@.target(),
    {
        let mut path = join_path(self.dir.as_str(), self.stem.as_str());
        if self.collisions > 0 {
            proof {
                reveal_strlit("-");
            }
            path.append("-");
            let digits = render(self.collisions - 1);
            path.append(digits.as_str());
        }
        assert(path@ =~= self@.target());
        path
    }

    /// The request that is under way.
    fn request(&self) -> (request: Request)
        ensures
            request@ == self@.request(),
    {
        match self.phase {
            CarvePhase::Ancestors => {
                if self.branch.as_str().unicode_len() == 0 {
                    Request::CreateAll { path: self.dir.clone() }
                } else {
                    Request::CreateAll {
                        path: join_path(self.dir.as_str(), self.branch.as_str()),
                    }
                }
            },
            _ => Request::CreateDir { path: self.target() },
        }
    }

    /// What to do next: the request to perform, or the end of the carving.
    pub fn pending(&self) -> (step: CarveStep)
        requires
            self.wf(),
        ensures
            step@ == self@.pending(),
    {
        match self.phase {
            CarvePhase::Finished => CarveStep::Finished(self.target()),
            CarvePhase::Failed => match &self.error {
                Some(error) => CarveStep::Failed(error.duplicate()),
                None => CarveStep::Failed(CarveError::NotRelative),
            },
            _ => CarveStep::Perform(self.request()),
        }
    }

    /// Ends the carving because the request under way has failed.
    fn fail(&mut self, reply: Reply)
        requires
            old(self).wf(),
        ensures
            final(self).wf(),
            final(self)@ == old(self)@.failed(reply@),
    {
        let request = self.request();
        self.error = Some(CarveError::IoFailure { request, detail: into_detail(reply) });
        self.phase = CarvePhase::Failed;
    }

    /// Takes the reply to the request under way and moves on to the next
    /// step.
    pub fn step(&mut self, reply: Reply)
        requires
            old(self).wf(),
        ensures
            final(self).wf(),
            final(self)@ == old(self)@.advance(reply@),
    {
        match self.phase {
            CarvePhase::Ancestors => match reply {
                Reply::Done => {
                    self.phase = CarvePhase::Creating;
                },
                _ => {
                    self.fail(reply);
                },
            },
            CarvePhase::Creating => match reply {
                Reply::Done => {
                    self.phase = CarvePhase::Finished;
                },
                Reply::Exists(last) => {
                    if self.collisions + 1 < ATTEMPTS {
                        self.collisions = self.collisions + 1;
                    } else {
                        self.error = Some(CarveError::CollisionExhausted { last });
                        self.phase = CarvePhase::Failed;
                    }
                },
                _ => {
                    self.fail(reply);
                },
            },
            CarvePhase::Finished => {},
            CarvePhase::Failed => {},
        }
    }
}

} // verus!
