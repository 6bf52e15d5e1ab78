//! The [`NumberedDir`] type.

use crate::allocation::{Allocation, AllocationError, AllocState};
use crate::carve::{CarveError, CarveState, Carving};
use crate::decimal::{is_digit, lemma_parsed_is_plain};
use crate::names::{entry_number, entry_prefix, has_separator, parse_entry_name};
use crate::path::{is_proper_name, is_relative, join, join_path, leaf, lemma_leaf_of_join};
use crate::scan::{entry_of, lemma_scan_contains, scan, EntryView};
use vstd::prelude::*;

verus! {

/// A sequentially numbered directory.
///
/// The directory lies in a **parent** directory, and its name is a **base**
/// with a number affixed. The next directory of the series can be made
/// without any coordination between processes or threads, and older ones are
/// cleaned up as new ones are made.
#[derive(Clone, Debug, PartialEq, Eq)]
pub struct NumberedDir {
    pub(crate) path: String,
    /// The base, which the last component of `path` starts with.
    pub(crate) base: String,
    /// The number, which the last component of `path` ends with.
    pub(crate) number: u16,
}

/// What a [`NumberedDir`] stands for.
pub struct NumberedDirView {
    pub path: Seq<char>,
    pub base: Seq<char>,
    pub number: u16,
}

impl View for NumberedDir {
    type V = NumberedDirView;

    closed spec fn view(&self) -> NumberedDirView {
        NumberedDirView { path: self.path@, base: self.base@, number: self.number }
    }
}

impl NumberedDirView {
    /// Whether the final component of the path reads as the number in the
    /// series of the base.
    pub open spec fn consistent(self) -> bool {
        entry_number(leaf(self.path), self.base) == Some(self.number)
    }
}

impl NumberedDir {
    /// Puts a numbered directory together from its parts.
    pub(crate) fn assemble(path: String, base: String, number: u16) -> (dir: NumberedDir)
        ensures
            dir@ == (NumberedDirView { path: path@, base: base@, number }),
    {
        NumberedDir { path, base, number }
    }

    /// A copy of this numbered directory.
    pub fn duplicate(&self) -> (copy: NumberedDir)
        ensures
            copy@ == self@,
    {
        NumberedDir { path: self.path.clone(), base: self.base.clone(), number: self.number }
    }

    /// Starts the allocation of the next sequential numbered directory.
    ///
    /// The directory will be created inside `parent`, under a name that
    /// starts with `base` and ends with the next free number; a base with a
    /// path separator is refused. Where other processes create directories
    /// of the same series at the same time, up to 16 numbers are tried.
    ///
    /// The `count` is the number of directories to leave in place, the new
    /// one included. Older directories are removed with all that they hold,
    /// but none that a parallel allocation may just have created.
    pub fn create(parent: &str, base: &str, count: u8) -> (r: Result<Allocation, AllocationError>)
        requires
            count >= 1,
        ensures
            has_separator(base@) ==> r == Err::<Allocation, _>(AllocationError::InvalidInput),
            !has_separator(base@) ==> r is Ok && r->Ok_0.wf() && r->Ok_0@ == AllocState::initial(
                parent@,
                base@,
                count,
            ),
    {
        Allocation::new(parent, base, count)
    }

    /// Returns an iterator over the numbered directories of the series
    /// `base` among the entries of `parent`, which `listing` holds.
    ///
    /// The iterator gives access to existing directories without creating a
    /// new one.
    pub fn iterate(parent: &str, base: &str, listing: Vec<Option<String>>) -> (iter:
        NumberedDirIter)
        ensures
            iter.wf(),
            iter@ == directories(parent@, base@, scan(listing.deep_view(), base@)),
    {
        let iter = NumberedDirIter {
            parent: String::from_str(parent),
            base: String::from_str(base),
            listing,
            pos: 0,
        };
        assert(iter.listing.deep_view().skip(0) =~= iter.listing.deep_view());
        iter
    }

    /// Starts the creation of a new subdirectory within this numbered
    /// directory.
    ///
    /// A new directory is created in any case: where a directory of that
    /// name is there already, the final component gets a number affixed.
    /// The path must be relative and must end in a name. Nothing keeps it
    /// inside the numbered directory: `../somewhere/else` leads out of it.
    pub fn create_subdir(&self, rel_path: &str) -> (r: Result<Carving, CarveError>)
        ensures
            !is_relative(rel_path@) ==> r == Err::<Carving, _>(CarveError::NotRelative),
            is_relative(rel_path@) && !is_proper_name(leaf(rel_path@)) ==> r == Err::<Carving, _>(
                CarveError::NoFinalComponent,
            ),
            is_relative(rel_path@) && is_proper_name(leaf(rel_path@)) ==> r is Ok && r->Ok_0.wf()
                && r->Ok_0@ == CarveState::initial(self@.path, rel_path@),
    {
        Carving::new(self.path.as_str(), rel_path)
    }

    /// Returns the path of this numbered directory.
    pub fn path(&self) -> (path: &str)
        ensures
            path@ == self@.path,
    {
        self.path.as_str()
    }

    /// Returns the base of this numbered directory: the name of the final
    /// component of [`NumberedDir::path`] without the number.
    pub fn base(&self) -> (base: &str)
        ensures
            base@ == self@.base,
    {
        self.base.as_str()
    }

    /// Returns the number of this numbered directory: the suffix of the final
    /// component of [`NumberedDir::path`].
    pub fn number(&self) -> (number: u16)
        ensures
            number == self@.number,
    {
        self.number
    }
}

/// The numbered directory that the entry `entry` of `parent` is.
pub open spec fn directory(parent: Seq<char>, base: Seq<char>, entry: EntryView) -> NumberedDirView {
    NumberedDirView { path: join(parent, entry.name), base, number: entry.number }
}

/// The numbered directories that `entries` of `parent` are, in their order.
pub open spec fn directories(
    parent: Seq<char>,
    base: Seq<char>,
    entries: Seq<EntryView>,
) -> Seq<NumberedDirView> {
    Seq::new(entries.len(), |i: int| directory(parent, base, entries[i]))
}

/// Every directory that a scan finds is named for its number: the final
/// component of its path reads as the number in the series of the base,
/// for a base without `/`.
pub proof fn lemma_listed_is_consistent(
    parent: Seq<char>,
    base: Seq<char>,
    listing: Seq<Option<Seq<char>>>,
    i: int,
)
    requires
        forall|j: int| 0 <= j < base.len() ==> base[j] != '/',
        0 <= i < scan(listing, base).len(),
    ensures
        directories(parent, base, scan(listing, base))[i].consistent(),
{
    let e = scan(listing, base)[i];
    assert(scan(listing, base).contains(e));
    lemma_scan_contains(listing, base, e);
    let name = e.name;
    let start = base.len() + 1;
    let rest = name.subrange(start as int, name.len() as int);
    lemma_parsed_is_plain(rest);
    assert(name.subrange(0, start as int) == entry_prefix(base));
    assert forall|j: int| 0 <= j < name.len() implies name[j] != '/' by {
        if j < start {
            assert(name.subrange(0, start as int)[j] == name[j]);
        } else {
            assert(rest[j - start] == name[j]);
            assert(is_digit(rest[j - start]) || rest[j - start] == '+');
        }
    }
    lemma_leaf_of_join(parent, name);
}

/// A listing yields what its first item yields, then what the rest yields.
pub proof fn lemma_scan_front(listing: Seq<Option<Seq<char>>>, base: Seq<char>)
    requires
        listing.len() > 0,
    ensures
        scan(listing, base) == (match entry_of(listing[0], base) {
            Some(entry) => seq![entry],
            None => Seq::empty(),
        }) + scan(listing.skip(1), base),
    decreases listing.len(),
{
    let head = match entry_of(listing[0], base) {
        Some(entry) => seq![entry],
        None => Seq::empty(),
    };
    if listing.len() == 1 {
        assert(listing.drop_last() =~= Seq::empty());
        assert(listing.skip(1) =~= Seq::empty());
        assert(scan(listing, base) =~= head + scan(listing.skip(1), base));
    } else {
        let front = listing.drop_last();
        lemma_scan_front(front, base);
        assert(front.skip(1) =~= listing.skip(1).drop_last());
        assert(listing.skip(1).last() == listing.last());
        assert(scan(listing, base) =~= head + scan(listing.skip(1), base));
    }
}

/// Iterator over the numbered directories of one series in a parent
/// directory. It is made by [`NumberedDir::iterate`].
#[derive(Clone, Debug)]
pub struct NumberedDirIter {
    parent: String,
    base: String,
    /// The entries of the parent directory; those before `pos` are dealt
    /// with.
    listing: Vec<Option<String>>,
    pos: usize,
}

impl View for NumberedDirIter {
    type V = Seq<NumberedDirView>;

    /// The directories that are still to come.
    closed spec fn view(&self) -> Seq<NumberedDirView> {
        directories(
            self.parent@,
            self.base@,
            scan(self.listing.deep_view().skip(self.pos as int), self.base@),
        )
    }
}

impl NumberedDirIter {
    /// Whether the position lies within the listing.
    pub closed spec fn wf(&self) -> bool {
        self.pos <= self.listing.len()
    }

    /// Returns the next numbered directory, if there is one left. Entries
    /// that do not belong to the series are passed over.
    pub fn next(&mut self) -> (r: Option<NumberedDir>)
        requires
            old(self).wf(),
        ensures
            final(self).wf(),
            match r {
                Some(dir) => old(self)@.len() > 0 && dir@ == old(self)@[0] && final(self)@ == old(
                    self,
                )@.drop_first(),
                None => old(self)@.len() == 0 && final(self)@.len() == 0,
            },
    {
        let ghost whole = self.listing.deep_view();
        while self.pos < self.listing.len()
            invariant
                self.pos <= self.listing.len(),
                self.parent == old(self).parent,
                self.base == old(self).base,
                self.listing == old(self).listing,
                whole == self.listing.deep_view(),
                self@ == old(self)@,
            decreases self.listing.len() - self.pos,
        {
            let ghost rest = whole.skip(self.pos as int);
            let ghost entries = scan(rest, self.base@);
            proof {
                lemma_scan_front(rest, self.base@);
                assert(rest.skip(1) =~= whole.skip(self.pos + 1));
                assert(rest[0] == self.listing[self.pos as int].deep_view());
            }
            let found = match &self.listing[self.pos] {
                Some(name) => match parse_entry_name(name.as_str(), self.base.as_str()) {
                    Some(number) => Some(
                        NumberedDir {
                            path: join_path(self.parent.as_str(), name.as_str()),
                            base: self.base.clone(),
                            number,
                        },
                    ),
                    None => None,
                },
                None => None,
            };
            self.pos = self.pos + 1;
            match found {
                Some(dir) => {
                    proof {
                        let after = scan(whole.skip(self.pos as int), self.base@);
                        assert(entries =~= seq![entries[0]] + after);
                        assert(self@ =~= old(self)@.drop_first());
                    }
                    return Some(dir);
                },
                None => {
                    assert(entries =~= scan(whole.skip(self.pos as int), self.base@));
                },
            }
        }
        proof {
            assert(whole.skip(self.pos as int) =~= Seq::empty());
        }
        None
    }
}

} // verus!
