//! The [`NumberedDirBuilder`].

use crate::allocation::{AllocState, AllocStep, AllocStepView, Allocated, AllocatedView};
use crate::allocation::{Allocation, AllocationError, AllocationErrorView};
use crate::names::{contains_separator, has_separator};
use crate::numbered_dir::{directories, NumberedDir, NumberedDirIter, NumberedDirView};
use crate::path::{is_proper_name, leaf, proper_name, push_component, push_path, replace_leaf};
use crate::path::{split, with_leaf};
use crate::protocol::{detail, into_detail, Reply, ReplyView, Request, RequestView};
use crate::scan::scan;
use crate::{KEEP_DEFAULT, ROOT_DEFAULT};
use vstd::prelude::*;

verus! {

/// Builder to create a numbered directory.
///
/// Where [`NumberedDir::create`] takes the parent directory as it is given,
/// the builder knows a **root**: a directory inside the directory for
/// temporary files, in which the numbered directories are made. By default
/// the root is `testdir-of-` with the name of the user.
///
/// An external condition may call for an existing numbered directory to be
/// used again, such as a test run that is spread over several processes.
/// With [`NumberedDirBuilder::reusefn`] the builder puts every existing
/// directory of the series before the caller, and allocates a new one only
/// if none is taken.
#[derive(Clone, Debug)]
pub struct NumberedDirBuilder {
    /// The directory in which the numbered directories are made. Its last
    /// component is the root.
    parent: String,
    /// The base of the series: the name of a numbered directory without its
    /// number.
    base: String,
    /// How many numbered directories are kept, the new one included.
    count: u8,
    /// Whether existing directories are offered for reuse.
    reuse: bool,
}

/// What a [`NumberedDirBuilder`] stands for.
pub struct BuilderView {
    pub parent: Seq<char>,
    pub base: Seq<char>,
    pub count: u8,
    pub reuse: bool,
}

impl BuilderView {
    /// What holds of the settings of every builder: at least one directory
    /// is kept.
    pub open spec fn wf(self) -> bool {
        self.count >= 1
    }
}

impl View for NumberedDirBuilder {
    type V = BuilderView;

    closed spec fn view(&self) -> BuilderView {
        BuilderView { parent: self.parent@, base: self.base@, count: self.count, reuse: self.reuse }
    }
}

/// The name of the default root for the user `user`.
pub open spec fn default_root(user: Seq<char>) -> Seq<char> {
    ROOT_DEFAULT@ + "-of-"@ + user
}

/// The name of the user who runs this process, as `whoami::username` gives
/// it. Nothing is known of the name.
#[verifier::external_body]
fn username() -> (name: String) {
    whoami::username()
}

impl NumberedDirBuilder {
    /// Creates a builder for the series `base` of the user `user`, with its
    /// root in the directory `tmpdir`.
    pub fn for_user(base: String, tmpdir: &str, user: &str) -> (builder: Self)
        requires
            !has_separator(base@),
        ensures
            builder@ == (BuilderView {
                parent: push_component(tmpdir@, default_root(user@)),
                base: base@,
                count: KEEP_DEFAULT,
                reuse: false,
            }),
            builder@.wf(),
    {
        let mut root = String::from_str(ROOT_DEFAULT);
        root.append("-of-");
        root.append(user);
        NumberedDirBuilder {
            parent: push_path(tmpdir, root.as_str()),
            base,
            count: KEEP_DEFAULT,
            reuse: false,
        }
    }

    /// Creates a builder for the series `base`, with its root in the
    /// directory `tmpdir`.
    ///
    /// The root is `testdir-of-` with the name of the user, and 8
    /// directories are kept.
    pub fn new(base: String, tmpdir: &str) -> (builder: Self)
        requires
            !has_separator(base@),
        ensures
            exists|user: Seq<char>|
                builder@ == (BuilderView {
                    parent: push_component(tmpdir@, #[trigger] default_root(user)),
                    base: base@,
                    count: KEEP_DEFAULT,
                    reuse: false,
                }),
            builder@.wf(),
    {
        let user = username();
        let builder = Self::for_user(base, tmpdir, user.as_str());
        assert(builder@.parent == push_component(tmpdir@, default_root(user@)));
        builder
    }

    /// Resets the base of the series.
    pub fn base(&mut self, base: String) -> (r: &mut Self)
        requires
            old(self)@.wf(),
        ensures
            *final(self) == *final(r),
            r@.wf(),
            r@ == (BuilderView { base: base@, ..old(self)@ }),
    {
        self.base = base;
        self
    }

    /// Sets the root: the last component of the parent directory becomes
    /// `root`.
    pub fn root(&mut self, root: &str) -> (r: &mut Self)
        requires
            old(self)@.wf(),
        ensures
            *final(self) == *final(r),
            r@.wf(),
            r@ == (BuilderView { parent: with_leaf(old(self)@.parent, root@), ..old(self)@ }),
    {
        self.parent = replace_leaf(self.parent.as_str(), root);
        self
    }

    /// Sets the root to `prefix` with the name of the user affixed.
    pub fn user_root(&mut self, prefix: &str) -> (r: &mut Self)
        requires
            old(self)@.wf(),
        ensures
            *final(self) == *final(r),
            r@.wf(),
            exists|user: Seq<char>|
                r@ == (BuilderView {
                    parent: #[trigger] with_leaf(old(self)@.parent, prefix@ + user),
                    ..old(self)@
                }),
    {
        let user = username();
        let mut root = String::from_str(prefix);
        root.append(user.as_str());
        self.parent = replace_leaf(self.parent.as_str(), root.as_str());
        assert(self@.parent == with_leaf(old(self)@.parent, prefix@ + user@));
        self
    }

    /// Places the root into the directory that `provider` returns, in place
    /// of the directory for temporary files. The root keeps its name.
    pub fn tmpdir_provider<F>(&mut self, provider: F) -> (r: &mut Self) where F: FnOnce() -> String
        requires
            old(self)@.wf(),
            provider.requires(()),
        ensures
            *final(self) == *final(r),
            r@.wf(),
            exists|tmpdir: String|
                provider.ensures((), tmpdir) && r@ == (BuilderView {
                    parent: #[trigger] push_component(tmpdir@, root_of(old(self)@.parent)),
                    ..old(self)@
                }),
    {
        let tmpdir = provider();
        let (_, _, leaf) = split(self.parent.as_str());
        let parent = if proper_name(leaf) {
            push_path(tmpdir.as_str(), leaf)
        } else {
            push_path(tmpdir.as_str(), ROOT_DEFAULT)
        };
        self.parent = parent;
        assert(self@.parent == push_component(tmpdir@, root_of(old(self)@.parent)));
        self
    }

    /// Sets the parent directory for the numbered directories, root
    /// included. The path must end in a name.
    pub fn set_parent(&mut self, path: String) -> (r: &mut Self)
        requires
            old(self)@.wf(),
            is_proper_name(leaf(path@)),
        ensures
            *final(self) == *final(r),
            r@.wf(),
            r@ == (BuilderView { parent: path@, ..old(self)@ }),
    {
        self.parent = path;
        self
    }

    /// Sets the number of numbered directories to keep, the new one
    /// included. Older directories are removed when a new one is made.
    pub fn count(&mut self, count: u8) -> (r: &mut Self)
        requires
            count >= 1,
        ensures
            *final(self) == *final(r),
            r@.wf(),
            r@ == (BuilderView { count, ..old(self)@ }),
    {
        self.count = count;
        self
    }

    /// Enables the reuse of numbered directories: every existing directory
    /// of the series is put before the caller as [`BuildStep::Consider`],
    /// and the first that the caller takes is used in place of a new one.
    pub fn reusefn(&mut self) -> (r: &mut Self)
        requires
            old(self)@.wf(),
        ensures
            *final(self) == *final(r),
            r@.wf(),
            r@ == (BuilderView { reuse: true, ..old(self)@ }),
    {
        self.reuse = true;
        self
    }

    /// Disables the reuse of numbered directories.
    pub fn disable_reuse(&mut self) -> (r: &mut Self)
        requires
            old(self)@.wf(),
        ensures
            *final(self) == *final(r),
            r@.wf(),
            r@ == (BuilderView { reuse: false, ..old(self)@ }),
    {
        self.reuse = false;
        self
    }

    /// Starts the creation of a numbered directory as configured.
    pub fn create(&self) -> (build: Build)
        requires
            self@.wf(),
        ensures
            build.wf(),
            build@ == BuildState::initial(self@),
    {
        let iter = NumberedDir::iterate(self.parent.as_str(), self.base.as_str(), Vec::new());
        Build {
            parent: self.parent.clone(),
            base: self.base.clone(),
            count: self.count,
            reuse: self.reuse,
            phase: BuildPhase::Parent,
            iter,
            candidate: None,
            allocation: None,
            error: None,
        }
    }
}

/// The name of the root in the parent directory `parent`; the default where
/// `parent` does not end in a name.
pub open spec fn root_of(parent: Seq<char>) -> Seq<char> {
    if is_proper_name(leaf(parent)) {
        leaf(parent)
    } else {
        ROOT_DEFAULT@
    }
}

/// What a build asks for next, or how it ended.
#[derive(Clone, Debug, PartialEq, Eq)]
pub enum BuildStep {
    /// Perform this request and hand the reply to [`Build::step`].
    Perform(Request),
    /// Say whether this existing directory is to be used again, with
    /// [`Build::decide`].
    Consider(NumberedDir),
    /// The directory is there: a new one, or one that is used again.
    Finished(Allocated),
    /// The build failed.
    Failed(AllocationError),
}

/// What a [`BuildStep`] stands for.
pub enum BuildStepView {
    Perform(RequestView),
    Consider(NumberedDirView),
    Finished(AllocatedView),
    Failed(AllocationErrorView),
}

impl View for BuildStep {
    type V = BuildStepView;

    open spec fn view(&self) -> BuildStepView {
        match self {
            BuildStep::Perform(request) => BuildStepView::Perform(request@),
            BuildStep::Consider(dir) => BuildStepView::Consider(dir@),
            BuildStep::Finished(allocated) => BuildStepView::Finished(allocated@),
            BuildStep::Failed(error) => BuildStepView::Failed(error@),
        }
    }
}

/// Where a build stands.
#[derive(Clone, Copy, Debug, PartialEq, Eq)]
pub enum BuildPhase {
    /// The parent directory is being created.
    Parent,
    /// The parent directory is being read for directories to use again.
    Listing,
    /// An existing directory is before the caller.
    Asking,
    /// A new directory is being allocated.
    Allocating,
    /// An existing directory is used again.
    Reused,
    /// The build failed.
    Failed,
}

/// The state of a build.
pub struct BuildState {
    pub parent: Seq<char>,
    pub base: Seq<char>,
    pub count: u8,
    pub reuse: bool,
    pub phase: BuildPhase,
    /// The existing directories that are yet to be considered, the one
    /// before the caller first.
    pub candidates: Seq<NumberedDirView>,
    /// The allocation of a new directory, once it has started.
    pub allocation: Option<AllocState>,
    /// Why the build failed, if it failed before an allocation started.
    pub error: Option<AllocationErrorView>,
}

/// What an allocation asks for or ends in, as a step of a build.
pub open spec fn lifted(step: AllocStepView) -> BuildStepView {
    match step {
        AllocStepView::Perform(request) => BuildStepView::Perform(request),
        AllocStepView::Finished(allocated) => BuildStepView::Finished(allocated),
        AllocStepView::Failed(error) => BuildStepView::Failed(error),
    }
}

impl BuildState {
    /// The state in which a build with the settings of `builder` starts.
    pub open spec fn initial(builder: BuilderView) -> BuildState {
        BuildState {
            parent: builder.parent,
            base: builder.base,
            count: builder.count,
            reuse: builder.reuse,
            phase: BuildPhase::Parent,
            candidates: Seq::empty(),
            allocation: None,
            error: None,
        }
    }

    /// What holds of every state that a build reaches.
    pub open spec fn wf(self) -> bool {
        &&& self.count >= 1
        &&& self.phase is Asking || self.phase is Reused ==> self.candidates.len() > 0
        &&& self.phase is Allocating <==> self.allocation is Some
        &&& self.allocation matches Some(allocation) ==> allocation.wf()
        &&& self.phase is Failed <==> self.error is Some
    }

    /// The request that is under way while the parent directory is created
    /// or read.
    pub open spec fn request(self) -> RequestView {
        match self.phase {
            BuildPhase::Parent => RequestView::CreateAll { path: self.parent },
            _ => RequestView::List { path: self.parent },
        }
    }

    /// What the build asks for in this state, or how it ended.
    pub open spec fn pending(self) -> BuildStepView {
        match self.phase {
            BuildPhase::Asking => BuildStepView::Consider(self.candidates[0]),
            BuildPhase::Allocating => lifted(self.allocation->0.pending()),
            BuildPhase::Reused => BuildStepView::Finished(
                AllocatedView { dir: self.candidates[0], unretired: Seq::empty() },
            ),
            BuildPhase::Failed => BuildStepView::Failed(self.error->0),
            _ => BuildStepView::Perform(self.request()),
        }
    }

    /// The state after the request under way has failed.
    pub open spec fn failed(self, reply: ReplyView) -> BuildState {
        BuildState {
            phase: BuildPhase::Failed,
            error: Some(
                AllocationErrorView::IoFailure { request: self.request(), detail: detail(reply) },
            ),
            ..self
        }
    }

    /// The state once no existing directory is left to consider: a new one
    /// is allocated, unless the base holds a path separator.
    pub open spec fn allocating(self) -> BuildState {
        if has_separator(self.base) {
            BuildState {
                phase: BuildPhase::Failed,
                candidates: Seq::empty(),
                error: Some(AllocationErrorView::InvalidInput),
                ..self
            }
        } else {
            BuildState {
                phase: BuildPhase::Allocating,
                candidates: Seq::empty(),
                allocation: Some(AllocState::initial(self.parent, self.base, self.count)),
                ..self
            }
        }
    }

    /// The state with `candidates` left to consider.
    pub open spec fn asking(self, candidates: Seq<NumberedDirView>) -> BuildState {
        if candidates.len() == 0 {
            self.allocating()
        } else {
            BuildState { phase: BuildPhase::Asking, candidates, ..self }
        }
    }

    /// The state after `reply` was given to the request under way. While a
    /// directory is before the caller no request is under way, and a reply
    /// changes nothing.
    pub open spec fn advance(self, reply: ReplyView) -> BuildState {
        match self.phase {
            BuildPhase::Parent => match reply {
                ReplyView::Done => if self.reuse {
                    BuildState { phase: BuildPhase::Listing, ..self }
                } else {
                    self.allocating()
                },
                _ => self.failed(reply),
            },
            BuildPhase::Listing => match reply {
                ReplyView::Entries(listing) => self.asking(
                    directories(self.parent, self.base, scan(listing, self.base)),
                ),
                _ => self.failed(reply),
            },
            BuildPhase::Allocating => BuildState {
                allocation: Some(self.allocation->0.advance(reply)),
                ..self
            },
            _ => self,
        }
    }

    /// The state after the caller has said whether the directory before it
    /// is to be used again. Where no directory is before the caller, the
    /// answer changes nothing.
    pub open spec fn decide(self, reuse: bool) -> BuildState {
        match self.phase {
            BuildPhase::Asking => if reuse {
                BuildState { phase: BuildPhase::Reused, ..self }
            } else {
                self.asking(self.candidates.drop_first())
            },
            _ => self,
        }
    }
}

/// The creation of a numbered directory under way.
#[derive(Clone, Debug)]
pub struct Build {
    parent: String,
    base: String,
    count: u8,
    reuse: bool,
    phase: BuildPhase,
    /// The existing directories behind the one before the caller.
    iter: NumberedDirIter,
    /// The existing directory before the caller.
    candidate: Option<NumberedDir>,
    allocation: Option<Allocation>,
    error: Option<AllocationError>,
}

impl View for Build {
    type V = BuildState;

    closed spec fn view(&self) -> BuildState {
        BuildState {
            parent: self.parent@,
            base: self.base@,
            count: self.count,
            reuse: self.reuse,
            phase: self.phase,
            candidates: match self.candidate {
                Some(dir) => seq![dir@] + self.iter@,
                None => Seq::empty(),
            },
            allocation: match self.allocation {
                Some(allocation) => Some(allocation@),
                None => None,
            },
            error: match self.error {
                Some(error) => Some(error@),
                None => None,
            },
        }
    }
}

impl Build {
    /// Whether this build is in a state that a build can reach.
    pub closed spec fn wf(&self) -> bool {
        &&& self@.wf()
        &&& self.iter.wf()
        &&& self.allocation matches Some(allocation) ==> allocation.wf()
    }

    /// The request that is under way while the parent directory is created
    /// or read.
    fn request(&self) -> (request: Request)
        ensures
            request@ == self@.request(),
    {
        match self.phase {
            BuildPhase::Parent => Request::CreateAll { path: self.parent.clone() },
            _ => Request::List { path: self.parent.clone() },
        }
    }

    /// What to do next: the request to perform, the directory to consider,
    /// or the end of the build.
    pub fn pending(&self) -> (step: BuildStep)
        requires
            self.wf(),
        ensures
            step@ == self@.pending(),
    {
        match self.phase {
            BuildPhase::Asking => match &self.candidate {
                Some(dir) => BuildStep::Consider(dir.duplicate()),
                None => BuildStep::Failed(AllocationError::InvalidInput),
            },
            BuildPhase::Allocating => match &self.allocation {
                Some(allocation) => match allocation.pending() {
                    AllocStep::Perform(request) => BuildStep::Perform(request),
                    AllocStep::Finished(allocated) => BuildStep::Finished(allocated),
                    AllocStep::Failed(error) => BuildStep::Failed(error),
                },
                None => BuildStep::Failed(AllocationError::InvalidInput),
            },
            BuildPhase::Reused => match &self.candidate {
                Some(dir) => {
                    let unretired = Vec::new();
                    assert(unretired.deep_view() =~= Seq::empty());
                    BuildStep::Finished(Allocated { dir: dir.duplicate(), unretired })
                },
                None => BuildStep::Failed(AllocationError::InvalidInput),
            },
            BuildPhase::Failed => match &self.error {
                Some(error) => BuildStep::Failed(error.duplicate()),
                None => BuildStep::Failed(AllocationError::InvalidInput),
            },
            _ => BuildStep::Perform(self.request()),
        }
    }

    /// Ends the build because the request under way has failed.
    fn fail(&mut self, reply: Reply)
        requires
            old(self).wf(),
            old(self)@.phase is Parent || old(self)@.phase is Listing,
        ensures
            final(self).wf(),
            final(self)@ == old(self)@.failed(reply@),
    {
        let request = self.request();
        self.error = Some(AllocationError::IoFailure { request, detail: into_detail(reply) });
        self.phase = BuildPhase::Failed;
    }

    /// Turns to the allocation of a new directory.
    fn allocate(&mut self)
        requires
            old(self).wf(),
            !(old(self)@.phase is Allocating),
            !(old(self)@.phase is Failed),
        ensures
            final(self).wf(),
            final(self)@ == old(self)@.allocating(),
    {
        self.candidate = None;
        match Allocation::new(self.parent.as_str(), self.base.as_str(), self.count) {
            Ok(allocation) => {
                self.allocation = Some(allocation);
                self.phase = BuildPhase::Allocating;
            },
            Err(error) => {
                self.error = Some(error);
                self.phase = BuildPhase::Failed;
            },
        }
    }

    /// Puts the next existing directory before the caller, or turns to the
    /// allocation of a new one if none is left.
    fn ask(&mut self)
        requires
            old(self).wf(),
            !(old(self)@.phase is Allocating),
            !(old(self)@.phase is Failed),
        ensures
            final(self).wf(),
            final(self)@ == old(self)@.asking(old(self).iter@),
    {
        let next = self.iter.next();
        match next {
            Some(dir) => {
                self.candidate = Some(dir);
                self.phase = BuildPhase::Asking;
                assert(self@.candidates =~= old(self).iter@);
            },
            None => {
                self.allocate();
            },
        }
    }

    /// Takes the reply to the request under way and moves on to the next
    /// step.
    pub fn step(&mut self, reply: Reply)
        requires
            old(self).wf(),
        ensures
            final(self).wf(),
            final(self)@ == old(self)@.advance(reply@),
    {
        match self.phase {
            BuildPhase::Parent => match reply {
                Reply::Done => {
                    if self.reuse {
                        self.phase = BuildPhase::Listing;
                    } else {
                        self.allocate();
                    }
                },
                _ => {
                    self.fail(reply);
                },
            },
            BuildPhase::Listing => match reply {
                Reply::Entries(listing) => {
                    self.iter = NumberedDir::iterate(
                        self.parent.as_str(),
                        self.base.as_str(),
                        listing,
                    );
                    self.candidate = None;
                    self.ask();
                },
                _ => {
                    self.fail(reply);
                },
            },
            BuildPhase::Allocating => {
                let taken = self.allocation.take();
                match taken {
                    Some(mut allocation) => {
                        allocation.step(reply);
                        self.allocation = Some(allocation);
                    },
                    None => {},
                }
            },
            _ => {},
        }
    }

    /// Takes the answer of the caller on the directory before it: it is
    /// used again, or the next one is considered.
    pub fn decide(&mut self, reuse: bool)
        requires
            old(self).wf(),
        ensures
            final(self).wf(),
            final(self)@ == old(self)@.decide(reuse),
    {
        match self.phase {
            BuildPhase::Asking => {
                if reuse {
                    self.phase = BuildPhase::Reused;
                } else {
                    assert(old(self)@.candidates.drop_first() =~= self.iter@);
                    self.ask();
                }
            },
            _ => {},
        }
    }
}

} // verus!
