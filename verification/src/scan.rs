//! Finding the numbered directories of a series among the entries of a
//! parent directory, and picking the newest and the obsolete ones.

use crate::names::{entry_number, parse_entry_name};
use crate::retire::{is_obsolete, obsolete};
use vstd::prelude::*;

verus! {

/// A directory entry that belongs to a series, with the number it carries.
#[derive(Clone, Debug, PartialEq, Eq)]
pub struct NumberedEntry {
    /// The number read off the name.
    pub number: u16,
    /// The whole name of the directory entry.
    pub name: String,
}

/// What a [`NumberedEntry`] stands for.
pub struct EntryView {
    pub number: u16,
    pub name: Seq<char>,
}

impl View for NumberedEntry {
    type V = EntryView;

    open spec fn view(&self) -> EntryView {
        EntryView { number: self.number, name: self.name@ }
    }
}

impl DeepView for NumberedEntry {
    type V = EntryView;

    open spec fn deep_view(&self) -> EntryView {
        self@
    }
}

/// What one item of a directory listing yields: an entry if it has a name and
/// the name belongs to the series `base`, nothing otherwise. An item without
/// a name stands for an entry that could not be read or whose name is no
/// text.
pub open spec fn entry_of(listed: Option<Seq<char>>, base: Seq<char>) -> Option<EntryView> {
    match listed {
        Some(name) => match entry_number(name, base) {
            Some(number) => Some(EntryView { number, name }),
            None => None,
        },
        None => None,
    }
}

/// The entries of the series `base` in a directory listing, in the order of
/// the listing.
pub open spec fn scan(listing: Seq<Option<Seq<char>>>, base: Seq<char>) -> Seq<EntryView>
    decreases listing.len(),
{
    if listing.len() == 0 {
        Seq::empty()
    } else {
        let rest = scan(listing.drop_last(), base);
        match entry_of(listing.last(), base) {
            Some(entry) => rest.push(entry),
            None => rest,
        }
    }
}

/// The largest number among `entries`, if there are any.
pub open spec fn newest(entries: Seq<EntryView>) -> Option<u16>
    decreases entries.len(),
{
    if entries.len() == 0 {
        None
    } else {
        let last = entries.last().number;
        match newest(entries.drop_last()) {
            Some(m) if m >= last => Some(m),
            _ => Some(last),
        }
    }
}

/// The names of the entries that are to be deleted when `current` is the
/// newest number and the newest `keep` are retained, in the order of
/// `entries`.
pub open spec fn doomed(entries: Seq<EntryView>, current: u16, keep: u8) -> Seq<Seq<char>>
    decreases entries.len(),
{
    if entries.len() == 0 {
        Seq::empty()
    } else {
        let rest = doomed(entries.drop_last(), current, keep);
        if obsolete(current, keep, entries.last().number) {
            rest.push(entries.last().name)
        } else {
            rest
        }
    }
}

/// Every scanned entry comes from an item of the listing, and every item that
/// belongs to the series is scanned.
pub proof fn lemma_scan_contains(listing: Seq<Option<Seq<char>>>, base: Seq<char>, e: EntryView)
    ensures
        scan(listing, base).contains(e) <==> (listing.contains(Some(e.name)) && entry_number(
            e.name,
            base,
        ) == Some(e.number)),
    decreases listing.len(),
{
    let entries = scan(listing, base);
    if listing.len() > 0 {
        let front = listing.drop_last();
        let rest = scan(front, base);
        lemma_scan_contains(front, base, e);
        if listing.contains(Some(e.name)) {
            let i = choose|i: int| 0 <= i < listing.len() && listing[i] == Some(e.name);
            if i < listing.len() - 1 {
                assert(front[i] == Some(e.name));
            }
        }
        if front.contains(Some(e.name)) {
            let i = choose|i: int| 0 <= i < front.len() && front[i] == Some(e.name);
            assert(listing[i] == Some(e.name));
        }
        match entry_of(listing.last(), base) {
            Some(entry) => {
                if rest.contains(e) {
                    let i = choose|i: int| 0 <= i < rest.len() && rest[i] == e;
                    assert(entries[i] == e);
                }
                if entries.contains(e) {
                    let i = choose|i: int| 0 <= i < entries.len() && entries[i] == e;
                    if i < rest.len() {
                        assert(rest[i] == e);
                    }
                }
                if entry == e {
                    assert(entries[rest.len() as int] == e);
                    assert(listing[listing.len() - 1] == Some(e.name));
                }
            },
            None => {},
        }
    }
}

/// The newest number belongs to an entry, and no entry has a larger one.
pub proof fn lemma_newest_is_max(entries: Seq<EntryView>)
    ensures
        newest(entries) is None <==> entries.len() == 0,
        newest(entries) matches Some(m) ==> {
            &&& exists|i: int| 0 <= i < entries.len() && (#[trigger] entries[i]).number == m
            &&& forall|i: int| 0 <= i < entries.len() ==> (#[trigger] entries[i]).number <= m
        },
    decreases entries.len(),
{
    if entries.len() > 0 {
        let front = entries.drop_last();
        lemma_newest_is_max(front);
        let m = newest(entries)->0;
        if m == entries.last().number {
            assert(entries[entries.len() - 1].number == m);
        } else {
            let i = choose|i: int| 0 <= i < front.len() && (#[trigger] front[i]).number == m;
            assert(entries[i].number == m);
        }
        assert forall|i: int| 0 <= i < entries.len() implies (#[trigger] entries[i]).number
            <= m by {
            if i < front.len() {
                assert(front[i].number <= m);
            }
        }
    }
}

/// A name is doomed exactly if some entry has that name and an obsolete
/// number.
pub proof fn lemma_doomed_contains(
    entries: Seq<EntryView>,
    current: u16,
    keep: u8,
    name: Seq<char>,
)
    ensures
        doomed(entries, current, keep).contains(name) <==> exists|i: int|
            0 <= i < entries.len() && (#[trigger] entries[i]).name == name && obsolete(
                current,
                keep,
                entries[i].number,
            ),
    decreases entries.len(),
{
    let names = doomed(entries, current, keep);
    if entries.len() > 0 {
        let front = entries.drop_last();
        let rest = doomed(front, current, keep);
        let last = entries.last();
        lemma_doomed_contains(front, current, keep, name);
        if names.contains(name) {
            let j = choose|j: int| 0 <= j < names.len() && names[j] == name;
            if j < rest.len() {
                assert(rest[j] == name);
                let i = choose|i: int|
                    0 <= i < front.len() && (#[trigger] front[i]).name == name && obsolete(
                        current,
                        keep,
                        front[i].number,
                    );
                assert(entries[i].name == name);
            } else {
                assert(entries[entries.len() - 1].name == name);
            }
        }
        if exists|i: int|
            0 <= i < entries.len() && (#[trigger] entries[i]).name == name && obsolete(
                current,
                keep,
                entries[i].number,
            ) {
            let i = choose|i: int|
                0 <= i < entries.len() && (#[trigger] entries[i]).name == name && obsolete(
                    current,
                    keep,
                    entries[i].number,
                );
            if i < front.len() {
                assert(front[i].name == name);
                let j = choose|j: int| 0 <= j < rest.len() && rest[j] == name;
                assert(names[j] == name);
            } else {
                assert(names[rest.len() as int] == name);
            }
        }
    }
}

/// Picks the entries of the series `base` out of a directory listing.
pub fn list_entries(listing: &Vec<Option<String>>, base: &str) -> (entries: Vec<NumberedEntry>)
    ensures
        entries.deep_view() == scan(listing.deep_view(), base@),
{
    let mut entries: Vec<NumberedEntry> = Vec::new();
    let ghost whole = listing.deep_view();
    let mut i: usize = 0;
    while i < listing.len()
        invariant
            i <= listing.len(),
            whole == listing.deep_view(),
            entries.deep_view() == scan(whole.take(i as int), base@),
        decreases listing.len() - i,
    {
        proof {
            assert(whole.take(i + 1).drop_last() =~= whole.take(i as int));
            assert(whole.take(i + 1).last() == listing[i as int].deep_view());
        }
        let ghost before = entries.deep_view();
        match &listing[i] {
            Some(name) => {
                match parse_entry_name(name.as_str(), base) {
                    Some(number) => {
                        entries.push(NumberedEntry { number, name: name.clone() });
                        assert(entries.deep_view() =~= before.push(
                            EntryView { number, name: name@ },
                        ));
                    },
                    None => {},
                }
            },
            None => {},
        }
        i = i + 1;
    }
    proof {
        assert(whole.take(listing.len() as int) =~= whole);
    }
    entries
}

/// The largest number among `entries`: the number of the most recently
/// allocated directory, if the series has any.
pub fn current_entry_count(entries: &Vec<NumberedEntry>) -> (current: Option<u16>)
    ensures
        current == newest(entries.deep_view()),
        current is None <==> entries.len() == 0,
        current matches Some(m) ==> {
            &&& exists|i: int| 0 <= i < entries.len() && (#[trigger] entries[i]).number == m
            &&& forall|i: int| 0 <= i < entries.len() ==> (#[trigger] entries[i]).number <= m
        },
{
    let ghost whole = entries.deep_view();
    let mut current: Option<u16> = None;
    let mut i: usize = 0;
    while i < entries.len()
        invariant
            i <= entries.len(),
            whole == entries.deep_view(),
            current == newest(whole.take(i as int)),
        decreases entries.len() - i,
    {
        proof {
            assert(whole.take(i + 1).drop_last() =~= whole.take(i as int));
            assert(whole.take(i + 1).last().number == entries[i as int].number);
        }
        let number = entries[i].number;
        current = match current {
            Some(m) if m >= number => Some(m),
            _ => Some(number),
        };
        i = i + 1;
    }
    proof {
        assert(whole.take(entries.len() as int) =~= whole);
        lemma_newest_is_max(whole);
        assert forall|i: int| 0 <= i < entries.len() implies (#[trigger] entries[i]).number
            == whole[i].number by {}
        if current is Some {
            let k = choose|k: int| 0 <= k < whole.len() && (#[trigger] whole[k]).number
                == current->0;
            assert(entries[k].number == current->0);
        }
    }
    current
}

/// The names of the entries to delete when `current` is the newest number
/// and the newest `keep` directories are retained.
pub fn obsolete_names(entries: &Vec<NumberedEntry>, current: u16, keep: u8) -> (names: Vec<String>)
    ensures
        names.deep_view() == doomed(entries.deep_view(), current, keep),
{
    let ghost whole = entries.deep_view();
    let mut names: Vec<String> = Vec::new();
    let mut i: usize = 0;
    while i < entries.len()
        invariant
            i <= entries.len(),
            whole == entries.deep_view(),
            names.deep_view() == doomed(whole.take(i as int), current, keep),
        decreases entries.len() - i,
    {
        proof {
            assert(whole.take(i + 1).drop_last() =~= whole.take(i as int));
            assert(whole.take(i + 1).last() == entries[i as int]@);
        }
        let ghost before = names.deep_view();
        if is_obsolete(current, keep, entries[i].number) {
            names.push(entries[i].name.clone());
            assert(names.deep_view() =~= before.push(entries[i as int].name@));
        }
        i = i + 1;
    }
    proof {
        assert(whole.take(entries.len() as int) =~= whole);
    }
    names
}

} // verus!
