//! What allocations and carvings do to a file system that nobody else
//! touches.
//!
//! A [`Disk`] is a file system in its simplest form: the paths of its
//! directories, and its symbolic links with their targets. It answers every
//! request at once and as asked. The laws of this module run an allocation
//! or a carving against it, request by request, and state what is on the
//! disk at the end.

use crate::allocation::{lemma_advance_keeps_wf, lemma_advance_uses_budget};
use crate::allocation::{AllocState, AllocStepView, AllocatedView, RetirementFailureView};
use crate::names::{entry_name, entry_number, has_separator, is_separator, link_name};
use crate::names::{lemma_entry_name_injective, lemma_entry_name_is_flat};
use crate::names::{lemma_entry_round_trip, lemma_link_is_no_entry};
use crate::numbered_dir::NumberedDirView;
use crate::path::{join, lemma_join_injective};
use crate::protocol::{ReplyView, RequestView};
use crate::retire::obsolete;
use crate::scan::{doomed, lemma_doomed_contains, lemma_newest_is_max, lemma_scan_contains};
use crate::scan::{newest, scan, EntryView};
use vstd::prelude::*;

verus! {

/// A file system: the paths of the directories, and the symbolic links with
/// the paths they point to.
pub struct Disk {
    pub dirs: Set<Seq<char>>,
    pub links: Map<Seq<char>, Seq<char>>,
}

/// Whether `name` is a single component: not empty and without `/`.
pub open spec fn is_flat(name: Seq<char>) -> bool {
    name.len() > 0 && forall|i: int| 0 <= i < name.len() ==> name[i] != '/'
}

/// Whether `path` is the directory `dir` or lies below it.
pub open spec fn within(dir: Seq<char>, path: Seq<char>) -> bool {
    path == dir || dir.push('/').is_prefix_of(path)
}

/// Whether `step` is `path` or one of the directories that lead to it.
pub open spec fn on_the_way(step: Seq<char>, path: Seq<char>) -> bool {
    step.len() > 0 && (step == path || within(step, path))
}

impl Disk {
    /// Whether anything is at `path`.
    pub open spec fn occupied(self, path: Seq<char>) -> bool {
        self.dirs.contains(path) || self.links.dom().contains(path)
    }

    /// Whether the directory `dir` has an entry named `name`.
    pub open spec fn holds(self, dir: Seq<char>, name: Seq<char>) -> bool {
        is_flat(name) && self.occupied(join(dir, name))
    }

    /// Whether `listing` is what reading the directory `dir` gives: every
    /// entry by its name, once, in any order.
    pub open spec fn lists(self, dir: Seq<char>, listing: Seq<Option<Seq<char>>>) -> bool {
        &&& listing.no_duplicates()
        &&& forall|i: int| 0 <= i < listing.len() ==> (#[trigger] listing[i]) is Some
        &&& forall|name: Seq<char>| #[trigger]
            listing.contains(Some(name)) <==> self.holds(dir, name)
    }

    /// The disk and the reply after `request` is performed. Reading a
    /// directory gives `listing`.
    pub open spec fn respond(
        self,
        request: RequestView,
        listing: Seq<Option<Seq<char>>>,
    ) -> (Disk, ReplyView) {
        match request {
            RequestView::CreateAll { path } => (
                Disk {
                    dirs: Set::new(|p: Seq<char>| self.dirs.contains(p) || on_the_way(p, path)),
                    ..self
                },
                ReplyView::Done,
            ),
            RequestView::List { path } => (self, ReplyView::Entries(listing)),
            RequestView::RemoveTree { path } => if self.dirs.contains(path) {
                (
                    Disk {
                        dirs: Set::new(|p: Seq<char>| self.dirs.contains(p) && !within(path, p)),
                        links: Map::new(
                            |p: Seq<char>| self.links.dom().contains(p) && !within(path, p),
                            |p: Seq<char>| self.links[p],
                        ),
                    },
                    ReplyView::Done,
                )
            } else {
                (self, ReplyView::Failed(Seq::empty()))
            },
            RequestView::CreateDir { path } => if self.occupied(path) {
                (self, ReplyView::Exists(Seq::empty()))
            } else {
                (Disk { dirs: self.dirs.insert(path), ..self }, ReplyView::Done)
            },
            RequestView::RemoveLink { path } => (
                Disk { links: self.links.remove(path), ..self },
                ReplyView::Done,
            ),
            RequestView::Symlink { target, link } => if self.occupied(link) {
                (self, ReplyView::Exists(Seq::empty()))
            } else {
                (Disk { links: self.links.insert(link, target), ..self }, ReplyView::Done)
            },
        }
    }
}

/// The state and the disk after an allocation in state `state` has gone on
/// for up to `steps` requests, each performed on the disk as it then is.
pub open spec fn run(
    state: AllocState,
    disk: Disk,
    listing: Seq<Option<Seq<char>>>,
    steps: nat,
) -> (AllocState, Disk)
    decreases steps,
{
    if steps == 0 || state.phase is Finished || state.phase is Failed {
        (state, disk)
    } else {
        let (next, reply) = disk.respond(state.request(), listing);
        run(state.advance(reply), next, listing, (steps - 1) as nat)
    }
}

/// How an allocation of the series `base` in `parent` ends on `disk`, and
/// the disk that it leaves. Reading the parent directory gives `listing`.
pub open spec fn allocate(
    disk: Disk,
    parent: Seq<char>,
    base: Seq<char>,
    count: u8,
    listing: Seq<Option<Seq<char>>>,
) -> (AllocStepView, Disk) {
    let (state, after) = run(
        AllocState::initial(parent, base, count),
        disk,
        listing,
        listing.len() + 20,
    );
    (state.pending(), after)
}

/// An allocation that is run for as many requests as its budget allows has
/// ended, whatever is on the disk.
pub proof fn lemma_run_ends(
    state: AllocState,
    disk: Disk,
    listing: Seq<Option<Seq<char>>>,
    steps: nat,
)
    requires
        state.wf(),
        steps >= state.budget(listing),
    ensures
        run(state, disk, listing, steps).0.phase is Finished || run(
            state,
            disk,
            listing,
            steps,
        ).0.phase is Failed,
    decreases steps,
{
    if !(state.phase is Finished || state.phase is Failed) {
        let (next, reply) = disk.respond(state.request(), listing);
        lemma_advance_keeps_wf(state, reply);
        lemma_advance_uses_budget(state, reply, listing);
        lemma_run_ends(state.advance(reply), next, listing, (steps - 1) as nat);
    }
}

/// Every allocation comes to an end on the disk: it finishes or fails.
pub proof fn lemma_allocation_ends(
    disk: Disk,
    parent: Seq<char>,
    base: Seq<char>,
    count: u8,
    listing: Seq<Option<Seq<char>>>,
)
    requires
        count >= 1,
        !has_separator(base),
    ensures
        !(allocate(disk, parent, base, count, listing).0 is Perform),
{
    lemma_run_ends(AllocState::initial(parent, base, count), disk, listing, listing.len() + 20);
}

/// The path of the directory numbered `i` of the series `base` in `parent`.
pub open spec fn numbered(parent: Seq<char>, base: Seq<char>, i: int) -> Seq<char> {
    join(parent, entry_name(base, i as u16))
}

/// The path of the link to the newest directory of the series.
pub open spec fn current(parent: Seq<char>, base: Seq<char>) -> Seq<char> {
    join(parent, link_name(base))
}

/// Whether the series `base` in `parent` consists of the directories
/// numbered from `lo` up to, not including, `hi`, each under the name that
/// is made for its number, and no directory stands where the link to the
/// newest belongs. Entries of `parent` that do not belong to the series may
/// be there.
pub open spec fn tidy(disk: Disk, parent: Seq<char>, base: Seq<char>, lo: int, hi: int) -> bool {
    &&& 0 <= lo <= hi <= 65536
    &&& forall|i: int| lo <= i < hi ==> disk.dirs.contains(#[trigger] numbered(parent, base, i))
    &&& forall|name: Seq<char>| #[trigger]
        disk.holds(parent, name) && entry_number(name, base) is Some ==> {
            let k = entry_number(name, base)->0;
            lo <= k < hi && name == entry_name(base, k)
        }
    &&& !disk.dirs.contains(current(parent, base))
}

/// The entries of a directory lie below it, and so not on the way to it.
pub proof fn lemma_entry_lies_below(dir: Seq<char>, name: Seq<char>, step: Seq<char>)
    requires
        on_the_way(step, dir),
    ensures
        step != join(dir, name),
{
    assert(step.len() <= dir.len());
    assert(join(dir, name).len() > dir.len());
}

/// Entries of one directory do not lie within each other.
pub proof fn lemma_siblings_apart(dir: Seq<char>, a: Seq<char>, b: Seq<char>)
    requires
        a != b,
        is_flat(b),
    ensures
        !within(join(dir, a), join(dir, b)),
{
    if join(dir, a) == join(dir, b) {
        lemma_join_injective(dir, a, b);
    }
    let front = join(dir, a).push('/');
    let path = join(dir, b);
    if front.is_prefix_of(path) {
        let k = (dir.len() + 1 + a.len()) as int;
        assert(path.subrange(0, front.len() as int)[k] == front[k]);
        assert(path[k] == '/');
        assert(path[k] == b[a.len() as int]);
    }
}

/// The name of a numbered directory is a single component.
pub proof fn lemma_entry_is_flat(base: Seq<char>, number: u16)
    requires
        !has_separator(base),
    ensures
        is_flat(entry_name(base, number)),
        is_flat(link_name(base)),
        entry_name(base, number) != link_name(base),
{
    let name = entry_name(base, number);
    lemma_entry_name_is_flat(base, number);
    assert forall|i: int| 0 <= i < name.len() implies name[i] != '/' by {
        assert(!is_separator(name[i]));
    }
    reveal_strlit("current");
    let link = link_name(base);
    assert forall|i: int| 0 <= i < link.len() implies link[i] != '/' by {
        if i < base.len() {
            assert(link[i] == base[i]);
            assert(!is_separator(base[i]));
        } else if i == base.len() {
            assert(link[i] == '-');
        } else {
            assert(link[i] == "current"@[i - base.len() - 1]);
        }
    }
    lemma_entry_round_trip(base, number);
    lemma_link_is_no_entry(base);
}

/// In a tidy series the scan finds exactly the directories of the series,
/// each under its number.
pub proof fn lemma_scan_of_tidy(
    disk: Disk,
    parent: Seq<char>,
    base: Seq<char>,
    lo: int,
    hi: int,
    listing: Seq<Option<Seq<char>>>,
)
    requires
        !has_separator(base),
        tidy(disk, parent, base, lo, hi),
        disk.lists(parent, listing),
    ensures
        forall|e: EntryView| #[trigger]
            scan(listing, base).contains(e) <==> (lo <= e.number < hi && e.name == entry_name(
                base,
                e.number,
            )),
{
    let entries = scan(listing, base);
    assert forall|e: EntryView| #[trigger]
        entries.contains(e) <==> (lo <= e.number < hi && e.name == entry_name(
            base,
            e.number,
        )) by {
        lemma_scan_contains(listing, base, e);
        if entries.contains(e) {
            assert(listing.contains(Some(e.name)));
            assert(disk.holds(parent, e.name));
        }
        if lo <= e.number < hi && e.name == entry_name(base, e.number) {
            lemma_entry_is_flat(base, e.number);
            lemma_entry_round_trip(base, e.number);
            assert(disk.dirs.contains(numbered(parent, base, e.number as int)));
            assert(disk.holds(parent, e.name));
            assert(listing.contains(Some(e.name)));
        }
    }
}

/// A scan of a listing without duplicates gives every name once.
pub proof fn lemma_scan_distinct(listing: Seq<Option<Seq<char>>>, base: Seq<char>)
    requires
        listing.no_duplicates(),
    ensures
        forall|i: int, j: int|
            0 <= i < j < scan(listing, base).len() ==> (#[trigger] scan(listing, base)[i]).name != (
            #[trigger] scan(listing, base)[j]).name,
    decreases listing.len(),
{
    let entries = scan(listing, base);
    if listing.len() > 0 {
        let front = listing.drop_last();
        let rest = scan(front, base);
        assert(front.no_duplicates());
        lemma_scan_distinct(front, base);
        assert forall|i: int, j: int| 0 <= i < j < entries.len() implies (#[trigger] entries[i]).name
            != (#[trigger] entries[j]).name by {
            if j < rest.len() {
                assert(rest[i].name != rest[j].name);
            } else {
                let e = rest[i];
                assert(rest.contains(e));
                lemma_scan_contains(front, base, e);
                let k = choose|k: int| 0 <= k < front.len() && front[k] == Some(e.name);
                assert(listing[k] == Some(e.name));
                assert(listing[listing.len() - 1] != listing[k]);
            }
        }
    }
}

/// Where the names of the entries differ, every doomed name is doomed once.
pub proof fn lemma_doomed_distinct(entries: Seq<EntryView>, current: u16, keep: u8)
    requires
        forall|i: int, j: int|
            0 <= i < j < entries.len() ==> (#[trigger] entries[i]).name != (
            #[trigger] entries[j]).name,
    ensures
        doomed(entries, current, keep).no_duplicates(),
    decreases entries.len(),
{
    let names = doomed(entries, current, keep);
    if entries.len() > 0 {
        let front = entries.drop_last();
        let rest = doomed(front, current, keep);
        assert forall|i: int, j: int| 0 <= i < j < front.len() implies (#[trigger] front[i]).name
            != (#[trigger] front[j]).name by {
            assert(entries[i].name != entries[j].name);
        }
        lemma_doomed_distinct(front, current, keep);
        assert forall|i: int, j: int| 0 <= i < names.len() && 0 <= j < names.len() && i
            != j implies names[i] != names[j] by {
            let (a, b) = if i < j {
                (i, j)
            } else {
                (j, i)
            };
            if b < rest.len() {
                assert(rest[a] != rest[b]);
            } else {
                assert(rest.contains(rest[a]));
                lemma_doomed_contains(front, current, keep, rest[a]);
                let k = choose|k: int|
                    0 <= k < front.len() && (#[trigger] front[k]).name == rest[a] && obsolete(
                        current,
                        keep,
                        front[k].number,
                    );
                assert(entries[k].name != entries[entries.len() - 1].name);
            }
        }
    }
}

/// What an allocation plans on a tidy series: nothing to scan where the
/// series is empty; else the newest number is the one below `hi`, and the
/// oldest directory is doomed if and only if the series is full.
pub proof fn lemma_plan_of_tidy(
    disk: Disk,
    parent: Seq<char>,
    base: Seq<char>,
    count: u8,
    lo: int,
    hi: int,
    listing: Seq<Option<Seq<char>>>,
)
    requires
        count >= 1,
        !has_separator(base),
        tidy(disk, parent, base, lo, hi),
        hi - lo <= count,
        disk.lists(parent, listing),
    ensures
        lo == hi ==> scan(listing, base).len() == 0,
        lo < hi ==> newest(scan(listing, base)) == Some((hi - 1) as u16),
        lo < hi ==> doomed(scan(listing, base), (hi - 1) as u16, (count - 1) as u8) == (if hi - lo
            == count {
            seq![entry_name(base, lo as u16)]
        } else {
            Seq::empty()
        }),
{
    let entries = scan(listing, base);
    lemma_scan_of_tidy(disk, parent, base, lo, hi, listing);
    if lo == hi {
        if entries.len() > 0 {
            assert(entries.contains(entries[0]));
        }
    } else {
        let top = (hi - 1) as u16;
        let keep = (count - 1) as u8;
        let newest_entry = EntryView { number: top, name: entry_name(base, top) };
        assert(entries.contains(newest_entry));
        lemma_newest_is_max(entries);
        let m = newest(entries)->0;
        let at = choose|i: int| 0 <= i < entries.len() && (#[trigger] entries[i]).number == m;
        assert(entries.contains(entries[at]));
        let top_at = choose|i: int| 0 <= i < entries.len() && entries[i] == newest_entry;
        assert(entries[top_at].number <= m);
        assert(m == top);

        let names = doomed(entries, top, keep);
        let oldest = entry_name(base, lo as u16);
        assert forall|name: Seq<char>| names.contains(name) <==> (hi - lo == count && name
            == oldest) by {
            lemma_doomed_contains(entries, top, keep, name);
            if names.contains(name) {
                let i = choose|i: int|
                    0 <= i < entries.len() && (#[trigger] entries[i]).name == name && obsolete(
                        top,
                        keep,
                        entries[i].number,
                    );
                assert(entries.contains(entries[i]));
            }
            if hi - lo == count && name == oldest {
                let e = EntryView { number: lo as u16, name: oldest };
                assert(entries.contains(e));
                let i = choose|i: int| 0 <= i < entries.len() && entries[i] == e;
                assert(entries[i].name == name && obsolete(top, keep, entries[i].number));
            }
        }
        lemma_scan_distinct(listing, base);
        lemma_doomed_distinct(entries, top, keep);
        if names.len() > 0 {
            assert(names.contains(names[0]));
        }
        if names.len() > 1 {
            assert(names.contains(names[1]));
            assert(names[0] != names[1]);
        }
        if hi - lo == count {
            assert(names.contains(oldest));
            assert(names =~= seq![oldest]);
        } else {
            assert(names =~= Seq::empty());
        }
    }
}

/// One more allocation on a tidy series that is not about to wrap.
///
/// The series holds the directories numbered from `lo` to `hi - 1`, at most
/// `count` of them. The allocation then creates the directory numbered
/// `hi`, removes the one numbered `lo` if and only if the series was full,
/// reports no failure, and leaves the link pointing to the new directory.
pub proof fn lemma_next_allocation(
    disk: Disk,
    parent: Seq<char>,
    base: Seq<char>,
    count: u8,
    lo: int,
    hi: int,
    listing: Seq<Option<Seq<char>>>,
)
    requires
        count >= 1,
        !has_separator(base),
        tidy(disk, parent, base, lo, hi),
        hi <= 65535,
        hi - lo <= count,
        lo == hi ==> hi == 0,
        disk.lists(parent, listing),
    ensures
        ({
            let (step, after) = allocate(disk, parent, base, count, listing);
            let oldest = if hi - lo == count {
                lo + 1
            } else {
                lo
            };
            &&& step == AllocStepView::Finished(
                AllocatedView {
                    dir: NumberedDirView {
                        path: numbered(parent, base, hi),
                        base,
                        number: hi as u16,
                    },
                    unretired: Seq::empty(),
                },
            )
            &&& tidy(after, parent, base, oldest, hi + 1)
            &&& after.links.dom().contains(current(parent, base))
            &&& after.links[current(parent, base)] == numbered(parent, base, hi)
        }),
{
    let n = listing.len() + 20;
    let full = hi - lo == count;
    let oldest = if full {
        lo + 1
    } else {
        lo
    };
    let target = numbered(parent, base, hi);
    let link = current(parent, base);
    lemma_plan_of_tidy(disk, parent, base, count, lo, hi, listing);
    lemma_entry_is_flat(base, hi as u16);
    lemma_entry_round_trip(base, hi as u16);

    // The parent directory is created, then read.
    let s0 = AllocState::initial(parent, base, count);
    let (d1, r0) = disk.respond(s0.request(), listing);
    let s1 = s0.advance(r0);
    assert(run(s0, disk, listing, n) == run(s1, d1, listing, (n - 1) as nat));
    let (d1b, r1) = d1.respond(s1.request(), listing);
    let s2 = s1.advance(r1);
    assert(d1b == d1);
    assert(run(s1, d1, listing, (n - 1) as nat) == run(s2, d1, listing, (n - 2) as nat));
    assert(s2.number == hi as u16);
    assert(s2.unretired == Seq::<RetirementFailureView>::empty());

    // The oldest directory goes if the series is full.
    let removed = numbered(parent, base, lo);
    let (s3, d2) = if full {
        let (d, r) = d1.respond(s2.request(), listing);
        (s2.advance(r), d)
    } else {
        (s2, d1)
    };
    if full {
        assert(s2.phase is Retiring);
        assert(s2.doomed[0] == entry_name(base, lo as u16));
        assert(disk.dirs.contains(numbered(parent, base, lo)));
        assert(d1.dirs.contains(removed));
        assert(s2.doomed.drop_first() =~= Seq::empty());
        assert(run(s2, d1, listing, (n - 2) as nat) == run(s3, d2, listing, (n - 3) as nat));
    }
    assert(s3.phase is Creating);
    assert(s3.number == hi as u16);
    assert(s3.target() == target);
    let m = if full {
        n - 3
    } else {
        n - 2
    };
    assert(run(s0, disk, listing, n) == run(s3, d2, listing, m as nat));

    // What is on the disk by now.
    assert forall|p: Seq<char>| d2.occupied(p) implies disk.occupied(p) || on_the_way(
        p,
        parent,
    ) by {}
    assert forall|name: Seq<char>| d2.holds(parent, name) implies disk.holds(parent, name) by {
        if on_the_way(join(parent, name), parent) {
            lemma_entry_lies_below(parent, name, join(parent, name));
        }
    }
    if d2.occupied(target) {
        assert(disk.holds(parent, entry_name(base, hi as u16)));
    }

    // The new directory is created and the link is set.
    let (d3, r3) = d2.respond(s3.request(), listing);
    let s4 = s3.advance(r3);
    assert(r3 is Done);
    assert(run(s3, d2, listing, m as nat) == run(s4, d3, listing, (m - 1) as nat));
    let (d4, r4) = d3.respond(s4.request(), listing);
    let s5 = s4.advance(r4);
    assert(s4.link() == link);
    assert(run(s4, d3, listing, (m - 1) as nat) == run(s5, d4, listing, (m - 2) as nat));
    if target == link {
        lemma_join_injective(parent, entry_name(base, hi as u16), link_name(base));
    }
    if on_the_way(link, parent) {
        lemma_entry_lies_below(parent, link_name(base), link);
    }
    assert(!d4.occupied(link));
    let (d5, r5) = d4.respond(s5.request(), listing);
    let s6 = s5.advance(r5);
    assert(run(s5, d4, listing, (m - 2) as nat) == run(s6, d5, listing, (m - 3) as nat));
    assert(s6.phase is Finished);
    assert(run(s6, d5, listing, (m - 3) as nat) == (s6, d5));
    assert(allocate(disk, parent, base, count, listing) == (s6.pending(), d5));
    assert(d5.links[link] == target);

    // The series is tidy again.
    assert forall|i: int| oldest <= i < hi + 1 implies d5.dirs.contains(
        #[trigger] numbered(parent, base, i),
    ) by {
        if i < hi {
            assert(disk.dirs.contains(numbered(parent, base, i)));
            if full {
                lemma_entry_is_flat(base, i as u16);
                if entry_name(base, lo as u16) == entry_name(base, i as u16) {
                    lemma_entry_name_injective(base, lo as u16, i as u16);
                }
                lemma_siblings_apart(
                    parent,
                    entry_name(base, lo as u16),
                    entry_name(base, i as u16),
                );
            }
        }
    }
    assert forall|name: Seq<char>| #[trigger]
        d5.holds(parent, name) && entry_number(name, base) is Some implies ({
        let k = entry_number(name, base)->0;
        oldest <= k < hi + 1 && name == entry_name(base, k)
    }) by {
        let k = entry_number(name, base)->0;
        let p = join(parent, name);
        if p == target {
            lemma_join_injective(parent, name, entry_name(base, hi as u16));
        } else if p == link {
            lemma_join_injective(parent, name, link_name(base));
            lemma_link_is_no_entry(base);
        } else {
            assert(d2.occupied(p));
            assert(d2.holds(parent, name));
            assert(disk.holds(parent, name));
            if full && k == lo {
                assert(p == removed);
                assert(within(removed, p));
            }
        }
    }
}

/// The disk after one allocation for each of `listings`, one after another;
/// each listing is what its allocation reads in the parent directory.
pub open spec fn allocations(
    disk: Disk,
    parent: Seq<char>,
    base: Seq<char>,
    count: u8,
    listings: Seq<Seq<Option<Seq<char>>>>,
) -> Disk
    decreases listings.len(),
{
    if listings.len() == 0 {
        disk
    } else {
        allocate(
            allocations(disk, parent, base, count, listings.drop_last()),
            parent,
            base,
            count,
            listings.last(),
        ).1
    }
}

/// How the last of the allocations ends.
pub open spec fn last_allocation(
    disk: Disk,
    parent: Seq<char>,
    base: Seq<char>,
    count: u8,
    listings: Seq<Seq<Option<Seq<char>>>>,
) -> AllocStepView
    recommends
        listings.len() > 0,
{
    allocate(
        allocations(disk, parent, base, count, listings.drop_last()),
        parent,
        base,
        count,
        listings.last(),
    ).0
}

/// Whether each of `listings` is what the parent directory holds when its
/// allocation comes.
pub open spec fn faithful(
    disk: Disk,
    parent: Seq<char>,
    base: Seq<char>,
    count: u8,
    listings: Seq<Seq<Option<Seq<char>>>>,
) -> bool
    decreases listings.len(),
{
    listings.len() == 0 || (faithful(disk, parent, base, count, listings.drop_last())
        && allocations(disk, parent, base, count, listings.drop_last()).lists(
        parent,
        listings.last(),
    ))
}

/// A finished allocation of the directory numbered `i`, without failures.
pub open spec fn finished(parent: Seq<char>, base: Seq<char>, i: int) -> AllocStepView {
    AllocStepView::Finished(
        AllocatedView {
            dir: NumberedDirView { path: numbered(parent, base, i), base, number: i as u16 },
            unretired: Seq::empty(),
        },
    )
}

/// Allocations one after another, starting without any directory of the
/// series: after `n` of them the newest `count` directories are there, or
/// all `n` if those are fewer, numbered up to `n - 1`; the last allocation
/// gave the number `n - 1`, and the link points to its directory.
pub proof fn lemma_allocations_in_a_row(
    disk: Disk,
    parent: Seq<char>,
    base: Seq<char>,
    count: u8,
    listings: Seq<Seq<Option<Seq<char>>>>,
)
    requires
        count >= 1,
        !has_separator(base),
        tidy(disk, parent, base, 0, 0),
        listings.len() <= 65536,
        faithful(disk, parent, base, count, listings),
    ensures
        ({
            let n = listings.len() as int;
            let after = allocations(disk, parent, base, count, listings);
            &&& tidy(after, parent, base, if n <= count { 0 } else { n - count }, n)
            &&& n > 0 ==> {
                &&& last_allocation(disk, parent, base, count, listings) == finished(
                    parent,
                    base,
                    n - 1,
                )
                &&& after.links.dom().contains(current(parent, base))
                &&& after.links[current(parent, base)] == numbered(parent, base, n - 1)
            }
        }),
    decreases listings.len(),
{
    if listings.len() > 0 {
        let earlier = listings.drop_last();
        let hi = earlier.len() as int;
        let lo = if hi <= count {
            0
        } else {
            hi - count
        };
        lemma_allocations_in_a_row(disk, parent, base, count, earlier);
        let before = allocations(disk, parent, base, count, earlier);
        lemma_next_allocation(before, parent, base, count, lo, hi, listings.last());
    }
}

/// After `k` allocations with a retention of `k`, against a parent directory
/// that held no directory of the series, exactly the directories numbered
/// from 0 to `k - 1` are there.
pub proof fn lemma_first_allocations(
    disk: Disk,
    parent: Seq<char>,
    base: Seq<char>,
    k: u8,
    listings: Seq<Seq<Option<Seq<char>>>>,
)
    requires
        k >= 1,
        !has_separator(base),
        tidy(disk, parent, base, 0, 0),
        listings.len() == k,
        faithful(disk, parent, base, k, listings),
    ensures
        tidy(allocations(disk, parent, base, k, listings), parent, base, 0, k as int),
{
    lemma_allocations_in_a_row(disk, parent, base, k, listings);
}

/// After `k + 1` allocations with a retention of `k`, exactly `k`
/// directories are there, numbered from 1 to `k`: the oldest is removed. The
/// link points to the newest.
pub proof fn lemma_oldest_is_retired(
    disk: Disk,
    parent: Seq<char>,
    base: Seq<char>,
    k: u8,
    listings: Seq<Seq<Option<Seq<char>>>>,
)
    requires
        k >= 1,
        !has_separator(base),
        tidy(disk, parent, base, 0, 0),
        listings.len() == k + 1,
        faithful(disk, parent, base, k, listings),
    ensures
        ({
            let after = allocations(disk, parent, base, k, listings);
            &&& tidy(after, parent, base, 1, k + 1)
            &&& !after.occupied(numbered(parent, base, 0))
            &&& after.links.dom().contains(current(parent, base))
            &&& after.links[current(parent, base)] == numbered(parent, base, k as int)
        }),
{
    lemma_allocations_in_a_row(disk, parent, base, k, listings);
    let after = allocations(disk, parent, base, k, listings);
    lemma_entry_is_flat(base, 0);
    lemma_entry_round_trip(base, 0);
    if after.occupied(numbered(parent, base, 0)) {
        assert(after.holds(parent, entry_name(base, 0)));
    }
}

/// Whatever the disk holds, an allocation that finishes on it has created
/// its directory.
pub proof fn lemma_allocated_is_on_disk(
    state: AllocState,
    disk: Disk,
    listing: Seq<Option<Seq<char>>>,
    steps: nat,
)
    requires
        state.phase is Unlinking || state.phase is Linking || state.phase is Finished
            ==> disk.dirs.contains(state.target()),
    ensures
        ({
            let (end, after) = run(state, disk, listing, steps);
            &&& end.parent == state.parent
            &&& end.base == state.base
            &&& end.phase is Finished ==> after.dirs.contains(end.target())
        }),
    decreases steps,
{
    if !(steps == 0 || state.phase is Finished || state.phase is Failed) {
        let (next, reply) = disk.respond(state.request(), listing);
        lemma_allocated_is_on_disk(state.advance(reply), next, listing, (steps - 1) as nat);
    }
}

/// Reading the parent directory right after an allocation finds the new
/// directory under the number that the allocation gave.
pub proof fn lemma_allocated_is_listed(
    disk: Disk,
    parent: Seq<char>,
    base: Seq<char>,
    count: u8,
    listing: Seq<Option<Seq<char>>>,
    later: Seq<Option<Seq<char>>>,
)
    requires
        !has_separator(base),
        allocate(disk, parent, base, count, listing).0 is Finished,
        allocate(disk, parent, base, count, listing).1.lists(parent, later),
    ensures
        exists|i: int|
            0 <= i < scan(later, base).len() && (#[trigger] scan(later, base)[i]).number
                == allocate(disk, parent, base, count, listing).0->Finished_0.dir.number,
{
    let start = AllocState::initial(parent, base, count);
    let (end, after) = run(start, disk, listing, listing.len() + 20);
    lemma_allocated_is_on_disk(start, disk, listing, listing.len() + 20);
    let number = end.number;
    let name = entry_name(base, number);
    let e = EntryView { number, name };
    lemma_entry_is_flat(base, number);
    lemma_entry_round_trip(base, number);
    assert(after.holds(parent, name));
    assert(later.contains(Some(name)));
    lemma_scan_contains(later, base, e);
    let i = choose|i: int| 0 <= i < scan(later, base).len() && scan(later, base)[i] == e;
    assert(scan(later, base)[i].number == number);
}

} // verus!
