//! Allocating the next numbered directory of a series.
//!
//! An [`Allocation`] goes through these steps: make sure that the parent
//! directory is there, read its entries, remove the directories that have
//! become obsolete, create the new directory under the first free number,
//! and point the link `<base>-current` to it. Each step is one [`Request`];
//! the [`Reply`] to it decides what comes next.

use crate::names::{contains_separator, make_entry_name, make_link_name};
use crate::names::{entry_name, has_separator, is_separator, link_name};
use crate::names::{lemma_entry_name_is_flat, lemma_entry_round_trip};
use crate::numbered_dir::{NumberedDir, NumberedDirView};
use crate::path::{join, join_path, leaf, lemma_leaf_of_join};
use crate::protocol::{describe_failure, detail, failure_text, into_detail};
use crate::protocol::{Reply, ReplyView, Request, RequestView};
use crate::scan::{current_entry_count, list_entries, obsolete_names};
use crate::scan::{doomed, newest, scan, EntryView};
use vstd::prelude::*;

verus! {

/// How many numbers an allocation tries before it gives up.
pub const ATTEMPTS: u8 = 16;

/// Why an allocation failed.
#[derive(Clone, Debug, PartialEq, Eq)]
pub enum AllocationError {
    /// The base holds a path separator.
    InvalidInput,
    /// Every number that was tried was taken already; `last` is the error of
    /// the last attempt.
    CollisionExhausted { last: String },
    /// An operation on the file system failed: `request` names the operation
    /// and its path, `detail` is the error of the file system.
    IoFailure { request: Request, detail: String },
}

/// What an [`AllocationError`] stands for.
pub enum AllocationErrorView {
    InvalidInput,
    CollisionExhausted { last: Seq<char> },
    IoFailure { request: RequestView, detail: Seq<char> },
}

impl View for AllocationError {
    type V = AllocationErrorView;

    open spec fn view(&self) -> AllocationErrorView {
        match self {
            AllocationError::InvalidInput => AllocationErrorView::InvalidInput,
            AllocationError::CollisionExhausted { last } => AllocationErrorView::CollisionExhausted {
                last: last@,
            },
            AllocationError::IoFailure { request, detail } => AllocationErrorView::IoFailure {
                request: request@,
                detail: detail@,
            },
        }
    }
}

impl AllocationErrorView {
    /// The error in words.
    pub open spec fn message(self) -> Seq<char> {
        match self {
            AllocationErrorView::InvalidInput => "base must not contain path separators"@,
            AllocationErrorView::CollisionExhausted { last } =>
                "failed to create numbered dir, all numbers tried are taken: "@ + last,
            AllocationErrorView::IoFailure { request, detail } => failure_text(request, detail),
        }
    }
}

impl AllocationError {
    /// Says in words what went wrong, with the operation and the path that
    /// failed.
    pub fn message(&self) -> (text: String)
        ensures
            text@ == self@.message(),
    {
        match self {
            AllocationError::InvalidInput => String::from_str(
                "base must not contain path separators",
            ),
            AllocationError::CollisionExhausted { last } => {
                let mut text = String::from_str(
                    "failed to create numbered dir, all numbers tried are taken: ",
                );
                text.append(last.as_str());
                text
            },
            AllocationError::IoFailure { request, detail } => describe_failure(
                request,
                detail.as_str(),
            ),
        }
    }

    /// A copy of this error.
    pub fn duplicate(&self) -> (copy: AllocationError)
        ensures
            copy@ == self@,
    {
        match self {
            AllocationError::InvalidInput => AllocationError::InvalidInput,
            AllocationError::CollisionExhausted { last } => AllocationError::CollisionExhausted {
                last: last.clone(),
            },
            AllocationError::IoFailure { request, detail } => AllocationError::IoFailure {
                request: request.duplicate(),
                detail: detail.clone(),
            },
        }
    }
}

/// An obsolete directory that could not be removed. The allocation goes on
/// all the same.
#[derive(Clone, Debug, PartialEq, Eq)]
pub struct RetirementFailure {
    /// The path of the directory that is still there.
    pub path: String,
    /// The error of the file system.
    pub detail: String,
}

/// What a [`RetirementFailure`] stands for.
pub struct RetirementFailureView {
    pub path: Seq<char>,
    pub detail: Seq<char>,
}

impl View for RetirementFailure {
    type V = RetirementFailureView;

    open spec fn view(&self) -> RetirementFailureView {
        RetirementFailureView { path: self.path@, detail: self.detail@ }
    }
}

impl RetirementFailure {
    /// Says in words which directory is still there, and why.
    pub fn message(&self) -> (text: String)
        ensures
            text@ == failure_text(RequestView::RemoveTree { path: self@.path }, self@.detail),
    {
        let request = Request::RemoveTree { path: self.path.clone() };
        describe_failure(&request, self.detail.as_str())
    }
}

impl DeepView for RetirementFailure {
    type V = RetirementFailureView;

    open spec fn deep_view(&self) -> RetirementFailureView {
        self@
    }
}

/// A copy of a list of failures.
fn duplicate_failures(failures: &Vec<RetirementFailure>) -> (copy: Vec<RetirementFailure>)
    ensures
        copy.deep_view() == failures.deep_view(),
{
    let mut copy: Vec<RetirementFailure> = Vec::new();
    let mut i: usize = 0;
    while i < failures.len()
        invariant
            i <= failures.len(),
            copy.len() == i,
            forall|j: int| 0 <= j < i ==> (#[trigger] copy[j])@ == failures[j]@,
        decreases failures.len() - i,
    {
        copy.push(
            RetirementFailure {
                path: failures[i].path.clone(),
                detail: failures[i].detail.clone(),
            },
        );
        i = i + 1;
    }
    assert(copy.deep_view() =~= failures.deep_view());
    copy
}

/// A finished allocation: the new directory, and the obsolete directories
/// that could not be removed on the way.
#[derive(Clone, Debug, PartialEq, Eq)]
pub struct Allocated {
    pub dir: NumberedDir,
    pub unretired: Vec<RetirementFailure>,
}

/// What an [`Allocated`] stands for.
pub struct AllocatedView {
    pub dir: NumberedDirView,
    pub unretired: Seq<RetirementFailureView>,
}

impl View for Allocated {
    type V = AllocatedView;

    open spec fn view(&self) -> AllocatedView {
        AllocatedView { dir: self.dir@, unretired: self.unretired.deep_view() }
    }
}

/// What an allocation asks for next, or how it ended.
#[derive(Clone, Debug, PartialEq, Eq)]
pub enum AllocStep {
    /// Perform this request and hand the reply to [`Allocation::step`].
    Perform(Request),
    /// The directory is allocated.
    Finished(Allocated),
    /// The allocation failed.
    Failed(AllocationError),
}

/// What an [`AllocStep`] stands for.
pub enum AllocStepView {
    Perform(RequestView),
    Finished(AllocatedView),
    Failed(AllocationErrorView),
}

impl View for AllocStep {
    type V = AllocStepView;

    open spec fn view(&self) -> AllocStepView {
        match self {
            AllocStep::Perform(request) => AllocStepView::Perform(request@),
            AllocStep::Finished(allocated) => AllocStepView::Finished(allocated@),
            AllocStep::Failed(error) => AllocStepView::Failed(error@),
        }
    }
}

/// Where an allocation stands.
#[derive(Clone, Copy, Debug, PartialEq, Eq)]
pub enum Phase {
    /// The parent directory is being created.
    Parent,
    /// The parent directory is being read.
    Listing,
    /// Obsolete directories are being removed.
    Retiring,
    /// The new directory is being created.
    Creating,
    /// The old link to the newest directory is being removed.
    Unlinking,
    /// The link to the new directory is being created.
    Linking,
    /// The directory is allocated.
    Finished,
    /// The allocation failed.
    Failed,
}

/// The state of an allocation.
pub struct AllocState {
    /// The directory in which the series lies.
    pub parent: Seq<char>,
    /// The base of the series.
    pub base: Seq<char>,
    /// How many directories of the series are to remain, the new one
    /// included.
    pub count: u8,
    pub phase: Phase,
    /// The names of the obsolete directories that are yet to be removed.
    pub doomed: Seq<Seq<char>>,
    /// The number to try next, or the number of the new directory once it is
    /// created.
    pub number: u16,
    /// How many numbers were found taken.
    pub collisions: nat,
    /// The obsolete directories that could not be removed.
    pub unretired: Seq<RetirementFailureView>,
    /// Why the allocation failed, once it has.
    pub error: Option<AllocationErrorView>,
}

/// The number after `number`; after the largest comes zero.
pub open spec fn bump(number: u16) -> u16 {
    if number == u16::MAX {
        0
    } else {
        (number + 1) as u16
    }
}

impl AllocState {
    /// The state in which an allocation starts.
    pub open spec fn initial(parent: Seq<char>, base: Seq<char>, count: u8) -> AllocState {
        AllocState {
            parent,
            base,
            count,
            phase: Phase::Parent,
            doomed: Seq::empty(),
            number: 0,
            collisions: 0,
            unretired: Seq::empty(),
            error: None,
        }
    }

    /// What holds of every state that an allocation reaches.
    pub open spec fn wf(self) -> bool {
        &&& self.count >= 1
        &&& !has_separator(self.base)
        &&& self.collisions < ATTEMPTS
        &&& self.phase is Retiring ==> self.doomed.len() > 0
        &&& self.phase is Failed <==> self.error is Some
    }

    /// The path of the directory that is being allocated.
    pub open spec fn target(self) -> Seq<char> {
        join(self.parent, entry_name(self.base, self.number))
    }

    /// The path of the link to the newest directory.
    pub open spec fn link(self) -> Seq<char> {
        join(self.parent, link_name(self.base))
    }

    /// The request that is under way in a state that has one.
    pub open spec fn request(self) -> RequestView {
        match self.phase {
            Phase::Parent => RequestView::CreateAll { path: self.parent },
            Phase::Listing => RequestView::List { path: self.parent },
            Phase::Retiring => RequestView::RemoveTree { path: join(self.parent, self.doomed[0]) },
            Phase::Creating => RequestView::CreateDir { path: self.target() },
            Phase::Unlinking => RequestView::RemoveLink { path: self.link() },
            _ => RequestView::Symlink { target: self.target(), link: self.link() },
        }
    }

    /// What the allocation asks for in this state, or how it ended.
    pub open spec fn pending(self) -> AllocStepView {
        match self.phase {
            Phase::Finished => AllocStepView::Finished(
                AllocatedView {
                    dir: NumberedDirView {
                        path: self.target(),
                        base: self.base,
                        number: self.number,
                    },
                    unretired: self.unretired,
                },
            ),
            Phase::Failed => AllocStepView::Failed(self.error->0),
            _ => AllocStepView::Perform(self.request()),
        }
    }

    /// The state after the request under way has failed for good.
    pub open spec fn failed(self, reply: ReplyView) -> AllocState {
        AllocState {
            phase: Phase::Failed,
            error: Some(
                AllocationErrorView::IoFailure { request: self.request(), detail: detail(reply) },
            ),
            ..self
        }
    }

    /// The state after the parent directory was read and held `entries`:
    /// without entries the series starts at zero and nothing is removed; else
    /// the number after the newest is tried first, and all but the newest
    /// `count - 1` entries behind it are to be removed.
    pub open spec fn planned(self, entries: Seq<EntryView>) -> AllocState {
        match newest(entries) {
            None => AllocState { phase: Phase::Creating, number: 0, ..self },
            Some(current) => {
                let names = doomed(entries, current, (self.count - 1) as u8);
                AllocState {
                    phase: if names.len() == 0 {
                        Phase::Creating
                    } else {
                        Phase::Retiring
                    },
                    doomed: names,
                    number: bump(current),
                    ..self
                }
            },
        }
    }

    /// The state after one removal: the directory is off the list whatever
    /// the reply, and a reply other than success is put on record.
    pub open spec fn retired(self, reply: ReplyView) -> AllocState {
        let rest = self.doomed.drop_first();
        AllocState {
            phase: if rest.len() == 0 {
                Phase::Creating
            } else {
                Phase::Retiring
            },
            doomed: rest,
            unretired: if reply is Done {
                self.unretired
            } else {
                self.unretired.push(
                    RetirementFailureView {
                        path: join(self.parent, self.doomed[0]),
                        detail: detail(reply),
                    },
                )
            },
            ..self
        }
    }

    /// The state after an attempt to create the directory: on success the
    /// link is next; a taken number makes way for the one after it, unless
    /// that was the last attempt; any other failure ends the allocation.
    pub open spec fn attempted(self, reply: ReplyView) -> AllocState {
        match reply {
            ReplyView::Done => AllocState { phase: Phase::Unlinking, ..self },
            ReplyView::Exists(last) => if self.collisions + 1 < ATTEMPTS {
                AllocState {
                    number: bump(self.number),
                    collisions: self.collisions + 1,
                    ..self
                }
            } else {
                AllocState {
                    phase: Phase::Failed,
                    error: Some(AllocationErrorView::CollisionExhausted { last }),
                    ..self
                }
            },
            _ => self.failed(reply),
        }
    }

    /// The state after `reply` was given to the request under way.
    pub open spec fn advance(self, reply: ReplyView) -> AllocState {
        match self.phase {
            Phase::Parent => match reply {
                ReplyView::Done => AllocState { phase: Phase::Listing, ..self },
                _ => self.failed(reply),
            },
            Phase::Listing => match reply {
                ReplyView::Entries(listing) => self.planned(scan(listing, self.base)),
                _ => self.failed(reply),
            },
            Phase::Retiring => self.retired(reply),
            Phase::Creating => self.attempted(reply),
            Phase::Unlinking => match reply {
                ReplyView::Done => AllocState { phase: Phase::Linking, ..self },
                _ => self.failed(reply),
            },
            Phase::Linking => AllocState { phase: Phase::Finished, ..self },
            Phase::Finished => self,
            Phase::Failed => self,
        }
    }
}

/// Every reply leaves an allocation in a state that allocations reach.
pub proof fn lemma_advance_keeps_wf(state: AllocState, reply: ReplyView)
    requires
        state.wf(),
    ensures
        state.advance(reply).wf(),
        state.advance(reply).parent == state.parent,
        state.advance(reply).base == state.base,
        state.advance(reply).count == state.count,
{
}

/// No list of doomed names is longer than the listing that it was taken
/// from.
pub proof fn lemma_doomed_is_short(
    listing: Seq<Option<Seq<char>>>,
    base: Seq<char>,
    current: u16,
    keep: u8,
)
    ensures
        scan(listing, base).len() <= listing.len(),
        doomed(scan(listing, base), current, keep).len() <= listing.len(),
{
    lemma_scan_is_short(listing, base);
    lemma_doomed_is_shorter(scan(listing, base), current, keep);
}

proof fn lemma_scan_is_short(listing: Seq<Option<Seq<char>>>, base: Seq<char>)
    ensures
        scan(listing, base).len() <= listing.len(),
    decreases listing.len(),
{
    if listing.len() > 0 {
        lemma_scan_is_short(listing.drop_last(), base);
    }
}

proof fn lemma_doomed_is_shorter(entries: Seq<EntryView>, current: u16, keep: u8)
    ensures
        doomed(entries, current, keep).len() <= entries.len(),
    decreases entries.len(),
{
    if entries.len() > 0 {
        lemma_doomed_is_shorter(entries.drop_last(), current, keep);
    }
}

impl AllocState {
    /// How many requests an allocation in this state makes at most before
    /// it ends, where reading the parent directory gives `listing`.
    pub open spec fn budget(self, listing: Seq<Option<Seq<char>>>) -> nat {
        match self.phase {
            Phase::Parent => listing.len() + 20,
            Phase::Listing => listing.len() + 19,
            Phase::Retiring => self.doomed.len() + 18,
            Phase::Creating => (18 - self.collisions) as nat,
            Phase::Unlinking => 2,
            Phase::Linking => 1,
            Phase::Finished => 0,
            Phase::Failed => 0,
        }
    }
}

/// Every reply brings an allocation closer to its end: whatever the file
/// system answers, no allocation goes on for ever.
pub proof fn lemma_advance_uses_budget(
    state: AllocState,
    reply: ReplyView,
    listing: Seq<Option<Seq<char>>>,
)
    requires
        state.wf(),
        !(state.phase is Finished),
        !(state.phase is Failed),
        state.phase is Listing ==> reply == ReplyView::Entries(listing) || !(reply is Entries),
    ensures
        state.advance(reply).budget(listing) < state.budget(listing),
{
    if state.phase is Listing && reply is Entries {
        let entries = scan(listing, state.base);
        if newest(entries) is Some {
            lemma_doomed_is_short(
                listing,
                state.base,
                newest(entries)->0,
                (state.count - 1) as u8,
            );
        }
    }
}

/// An allocation moves on from the creation of its directory only when the
/// file system has created the very path that it then holds on to: the
/// reply was success, and the request was for the target of the new state.
pub proof fn lemma_created_before_linked(state: AllocState, reply: ReplyView)
    requires
        state.phase is Creating,
        !(state.advance(reply).phase is Creating),
        !(state.advance(reply).phase is Failed),
    ensures
        reply is Done,
        state.advance(reply).phase is Unlinking,
        state.request() == (RequestView::CreateDir { path: state.advance(reply).target() }),
{
}

/// Once the directory is created the allocation holds on to it: whatever
/// the replies, it ends with that directory or with a failure, never with
/// another directory.
pub proof fn lemma_target_is_kept(state: AllocState, reply: ReplyView)
    requires
        state.phase is Unlinking || state.phase is Linking || state.phase is Finished,
    ensures
        state.advance(reply).target() == state.target(),
        state.advance(reply).phase is Failed || state.advance(reply).phase is Linking
            || state.advance(reply).phase is Finished,
        state.advance(reply).phase is Finished ==> state.advance(reply).pending()
            is Finished && state.advance(reply).pending()->Finished_0.dir.path == state.target(),
{
}

/// The directory that a finished allocation hands out is named for its
/// number: the final component of its path is the base, a hyphen and the
/// number.
pub proof fn lemma_allocated_is_named(state: AllocState)
    requires
        state.wf(),
        state.phase is Finished,
    ensures
        state.pending() matches AllocStepView::Finished(allocated) && {
            &&& leaf(allocated.dir.path) == entry_name(allocated.dir.base, allocated.dir.number)
            &&& allocated.dir.consistent()
        },
{
    let name = entry_name(state.base, state.number);
    lemma_entry_name_is_flat(state.base, state.number);
    assert forall|i: int| 0 <= i < name.len() implies name[i] != '/' by {
        assert(!is_separator(name[i]));
    }
    lemma_leaf_of_join(state.parent, name);
    lemma_entry_round_trip(state.base, state.number);
}

/// An allocation under way.
#[derive(Clone, Debug)]
pub struct Allocation {
    parent: String,
    base: String,
    count: u8,
    phase: Phase,
    /// The names of the obsolete directories; those before `cursor` are
    /// dealt with.
    doomed: Vec<String>,
    cursor: usize,
    number: u16,
    collisions: u8,
    unretired: Vec<RetirementFailure>,
    error: Option<AllocationError>,
}

impl View for Allocation {
    type V = AllocState;

    closed spec fn view(&self) -> AllocState {
        AllocState {
            parent: self.parent@,
            base: self.base@,
            count: self.count,
            phase: self.phase,
            doomed: self.doomed.deep_view().skip(self.cursor as int),
            number: self.number,
            collisions: self.collisions as nat,
            unretired: self.unretired.deep_view(),
            error: match self.error {
                Some(error) => Some(error@),
                None => None,
            },
        }
    }
}

impl Allocation {
    /// Whether this allocation is in a state that an allocation can reach.
    pub closed spec fn wf(&self) -> bool {
        &&& self@.wf()
        &&& self.cursor <= self.doomed.len()
    }

    /// Starts the allocation of the next directory of the series `base` in
    /// `parent`, of which `count` directories are to remain. A base with a
    /// path separator is refused.
    pub fn new(parent: &str, base: &str, count: u8) -> (r: Result<Allocation, AllocationError>)
        requires
            count >= 1,
        ensures
            has_separator(base@) ==> r == Err::<Allocation, _>(AllocationError::InvalidInput),
            !has_separator(base@) ==> r is Ok && r->Ok_0.wf() && r->Ok_0@ == AllocState::initial(
                parent@,
                base@,
                count,
            ),
    {
        if contains_separator(base) {
            return Err(AllocationError::InvalidInput);
        }
        let allocation = Allocation {
            parent: String::from_str(parent),
            base: String::from_str(base),
            count,
            phase: Phase::Parent,
            doomed: Vec::new(),
            cursor: 0,
            number: 0,
            collisions: 0,
            unretired: Vec::new(),
            error: None,
        };
        assert(allocation@.doomed =~= Seq::empty());
        assert(allocation@.unretired =~= Seq::empty());
        Ok(allocation)
    }

    /// The path of the directory that is being allocated.
    fn target(&self) -> (path: String)
        ensures
            path@ == self@.target(),
    {
        let name = make_entry_name(self.base.as_str(), self.number);
        join_path(self.parent.as_str(), name.as_str())
    }

    /// The path of the link to the newest directory.
    fn link(&self) -> (path: String)
        ensures
            path@ == self@.link(),
    {
        let name = make_link_name(self.base.as_str());
        join_path(self.parent.as_str(), name.as_str())
    }

    /// The request that is under way.
    fn request(&self) -> (request: Request)
        requires
            self.wf(),
        ensures
            request@ == self@.request(),
    {
        match self.phase {
            Phase::Parent => Request::CreateAll { path: self.parent.clone() },
            Phase::Listing => Request::List { path: self.parent.clone() },
            Phase::Retiring => {
                assert(self@.doomed[0] == self.doomed[self.cursor as int]@);
                Request::RemoveTree {
                    path: join_path(self.parent.as_str(), self.doomed[self.cursor].as_str()),
                }
            },
            Phase::Creating => Request::CreateDir { path: self.target() },
            Phase::Unlinking => Request::RemoveLink { path: self.link() },
            _ => Request::Symlink { target: self.target(), link: self.link() },
        }
    }

    /// What to do next: the request to perform, or the end of the allocation.
    pub fn pending(&self) -> (step: AllocStep)
        requires
            self.wf(),
        ensures
            step@ == self@.pending(),
    {
        match self.phase {
            Phase::Finished => AllocStep::Finished(
                Allocated {
                    dir: NumberedDir::assemble(self.target(), self.base.clone(), self.number),
                    unretired: duplicate_failures(&self.unretired),
                },
            ),
            Phase::Failed => match &self.error {
                Some(error) => AllocStep::Failed(error.duplicate()),
                None => AllocStep::Failed(AllocationError::InvalidInput),
            },
            _ => AllocStep::Perform(self.request()),
        }
    }

    /// Ends the allocation because the request under way has failed.
    fn fail(&mut self, reply: Reply)
        requires
            old(self).wf(),
        ensures
            final(self).wf(),
            final(self)@ == old(self)@.failed(reply@),
    {
        let request = self.request();
        self.error = Some(AllocationError::IoFailure { request, detail: into_detail(reply) });
        self.phase = Phase::Failed;
    }

    /// Takes the reply to the request under way and moves on to the next
    /// step.
    pub fn step(&mut self, reply: Reply)
        requires
            old(self).wf(),
        ensures
            final(self).wf(),
            final(self)@ == old(self)@.advance(reply@),
    {
        match self.phase {
            Phase::Parent => match reply {
                Reply::Done => {
                    self.phase = Phase::Listing;
                },
                _ => {
                    self.fail(reply);
                },
            },
            Phase::Listing => match reply {
                Reply::Entries(listing) => {
                    let entries = list_entries(&listing, self.base.as_str());
                    match current_entry_count(&entries) {
                        None => {
                            self.number = 0;
                            self.phase = Phase::Creating;
                        },
                        Some(current) => {
                            self.doomed = obsolete_names(&entries, current, self.count - 1);
                            self.cursor = 0;
                            self.number = current.wrapping_add(1);
                            self.phase = if self.doomed.len() == 0 {
                                Phase::Creating
                            } else {
                                Phase::Retiring
                            };
                            assert(self@.doomed =~= self.doomed.deep_view());
                        },
                    }
                },
                _ => {
                    self.fail(reply);
                },
            },
            Phase::Retiring => {
                match reply {
                    Reply::Done => {},
                    _ => {
                        let ghost before = self.unretired.deep_view();
                        let path = join_path(
                            self.parent.as_str(),
                            self.doomed[self.cursor].as_str(),
                        );
                        let failure = RetirementFailure { path, detail: into_detail(reply) };
                        assert(old(self)@.doomed[0] == self.doomed[self.cursor as int]@);
                        self.unretired.push(failure);
                        assert(self.unretired.deep_view() =~= before.push(failure@));
                    },
                }
                self.cursor = self.cursor + 1;
                if self.cursor == self.doomed.len() {
                    self.phase = Phase::Creating;
                }
                assert(self@.doomed =~= old(self)@.doomed.drop_first());
            },
            Phase::Creating => match reply {
                Reply::Done => {
                    self.phase = Phase::Unlinking;
                },
                Reply::Exists(last) => {
                    if self.collisions + 1 < ATTEMPTS {
                        self.number = self.number.wrapping_add(1);
                        self.collisions = self.collisions + 1;
                    } else {
                        self.error = Some(AllocationError::CollisionExhausted { last });
                        self.phase = Phase::Failed;
                    }
                },
                _ => {
                    self.fail(reply);
                },
            },
            Phase::Unlinking => match reply {
                Reply::Done => {
                    self.phase = Phase::Linking;
                },
                _ => {
                    self.fail(reply);
                },
            },
            Phase::Linking => {
                self.phase = Phase::Finished;
            },
            Phase::Finished => {},
            Phase::Failed => {},
        }
    }
}

} // verus!
