//! Finding the name of the test that is running, for the directory that the
//! test gets.

use crate::names::{ends_with, starts_with};
use vstd::prelude::*;

verus! {

/// The name of the file that holds the process ID of the build tool that
/// started the test run: `cargo-pid`.
pub const CARGO_PID_FILE_NAME: &'static str = "cargo-pid";

/// Whether the separator `::` of a module path stands at position `i` of
/// `name`.
pub open spec fn separator_at(name: Seq<char>, i: int) -> bool {
    0 <= i && i + 1 < name.len() && name[i] == ':' && name[i + 1] == ':'
}

/// The last segment of a module path: what follows its last separator, or
/// all of it where it has none.
pub open spec fn last_segment_of(name: Seq<char>) -> Seq<char>
    decreases name.len(),
{
    if name.len() < 2 {
        name
    } else if separator_at(name, name.len() - 2) {
        Seq::empty()
    } else {
        last_segment_of(name.drop_last()).push(name.last())
    }
}

/// The last segment holds no separator, and the name ends with it; it is
/// the whole name only if the name holds no separator.
pub proof fn lemma_last_segment(name: Seq<char>)
    ensures
        last_segment_of(name).is_suffix_of(name),
        forall|i: int| !separator_at(last_segment_of(name), i),
        last_segment_of(name).len() < name.len() ==> separator_at(
            name,
            name.len() - last_segment_of(name).len() - 2,
        ),
        last_segment_of(name) == name <==> forall|i: int| !separator_at(name, i),
    decreases name.len(),
{
    let segment = last_segment_of(name);
    if name.len() < 2 {
        assert(name.subrange(0, name.len() as int) =~= name);
    } else if separator_at(name, name.len() - 2) {
        assert(name.subrange(name.len() as int, name.len() as int) =~= segment);
    } else {
        let front = name.drop_last();
        let inner = last_segment_of(front);
        lemma_last_segment(front);
        let k = front.len() - inner.len();
        assert(front.subrange(k, front.len() as int) == inner);
        assert(name.subrange(k, name.len() as int) =~= segment);
        assert forall|i: int| !separator_at(segment, i) by {
            if separator_at(segment, i) {
                if i + 1 < inner.len() {
                    assert(separator_at(inner, i));
                } else {
                    assert(inner[i] == name[k + i]);
                    assert(separator_at(name, name.len() - 2));
                }
            }
        }
        if inner.len() < front.len() {
            assert(separator_at(front, front.len() - inner.len() - 2));
            assert(separator_at(name, name.len() - segment.len() - 2));
        }
        if segment == name {
            assert(inner =~= front);
            assert forall|i: int| !separator_at(name, i) by {
                if separator_at(name, i) {
                    if i + 1 < front.len() {
                        assert(separator_at(front, i));
                    }
                }
            }
        }
        if forall|i: int| !separator_at(name, i) {
            assert forall|i: int| !separator_at(front, i) by {
                if separator_at(front, i) {
                    assert(separator_at(name, i));
                }
            }
            assert(segment =~= name);
        }
    }
}

/// Cuts the last segment off a module path.
pub fn last_segment(name: &str) -> (segment: String)
    ensures
        segment@ == last_segment_of(name@),
{
    let n = name.unicode_len();
    let mut start: usize = n;
    proof {
        assert(name@.take(n as int) =~= name@);
        assert(name@ + name@.skip(n as int) =~= name@);
    }
    while start > 0
        invariant
            start <= n,
            n == name@.len(),
            last_segment_of(name@) == last_segment_of(name@.take(start as int)) + name@.skip(
                start as int,
            ),
        decreases start,
    {
        let ghost front = name@.take(start as int);
        if start >= 2 && name.get_char(start - 2) == ':' && name.get_char(start - 1) == ':' {
            assert(separator_at(front, front.len() - 2));
            assert(last_segment_of(name@) =~= name@.skip(start as int));
            return String::from_str(name.substring_char(start, n));
        }
        proof {
            if start >= 2 {
                assert(!separator_at(front, front.len() - 2));
                assert(front.drop_last() =~= name@.take(start - 1));
                assert(last_segment_of(front.drop_last()).push(front.last()) + name@.skip(
                    start as int,
                ) =~= last_segment_of(front.drop_last()) + name@.skip(start - 1));
            } else {
                assert(last_segment_of(front) == front);
                assert(name@.take(0) =~= Seq::empty());
                assert(last_segment_of(name@.take(0)) =~= Seq::empty());
                assert(front + name@.skip(1) =~= name@.skip(0));
            }
        }
        start = start - 1;
    }
    proof {
        assert(last_segment_of(name@.take(0)) =~= Seq::empty());
        assert(Seq::<char>::empty() + name@.skip(0) =~= name@);
    }
    String::from_str(name)
}

/// What the symbol of a closure ends with.
pub open spec fn closure_suffix() -> Seq<char> {
    "::{{closure}}"@
}

/// What is left of `symbol` once the module path at its front and the mark
/// of a closure at its end are cut off, for a symbol that starts with the
/// module path.
pub open spec fn stripped(symbol: Seq<char>, module: Seq<char>) -> Option<Seq<char>> {
    if module.is_prefix_of(symbol) {
        let rest = symbol.skip(module.len() as int);
        if closure_suffix().is_suffix_of(rest) {
            Some(rest.take(rest.len() - closure_suffix().len()))
        } else {
            Some(rest)
        }
    } else {
        None
    }
}

/// What the first of `symbols` that lies in the module leaves when
/// stripped. A frame may lack the name of a symbol.
pub open spec fn first_in_module(
    symbols: Seq<Option<Seq<char>>>,
    module: Seq<char>,
) -> Option<Seq<char>>
    decreases symbols.len(),
{
    if symbols.len() == 0 {
        None
    } else {
        let earlier = first_in_module(symbols.drop_last(), module);
        if earlier is Some {
            earlier
        } else {
            match symbols.last() {
                Some(symbol) => stripped(symbol, module),
                None => None,
            }
        }
    }
}

/// What a backtrace tells of the function of the module that was entered
/// first: the frames are gone through from the outermost, which comes last,
/// and the symbols of each frame in their order.
pub open spec fn outermost_in_module(
    frames: Seq<Seq<Option<Seq<char>>>>,
    module: Seq<char>,
) -> Option<Seq<char>>
    decreases frames.len(),
{
    if frames.len() == 0 {
        None
    } else {
        let found = first_in_module(frames.last(), module);
        if found is Some {
            found
        } else {
            outermost_in_module(frames.drop_last(), module)
        }
    }
}

/// Strips the symbol of a function of the module.
pub fn strip_symbol(symbol: &str, module: &str) -> (r: Option<String>)
    ensures
        r.deep_view() == stripped(symbol@, module@),
{
    if !starts_with(symbol, module) {
        return None;
    }
    let from = module.unicode_len();
    let to = symbol.unicode_len();
    let rest = symbol.substring_char(from, to);
    assert(rest@ =~= symbol@.skip(module@.len() as int));
    if ends_with(rest, "::{{closure}}") {
        let cut = rest.unicode_len() - "::{{closure}}".unicode_len();
        let name = rest.substring_char(0, cut);
        assert(name@ =~= rest@.take(rest@.len() - closure_suffix().len()));
        Some(String::from_str(name))
    } else {
        Some(String::from_str(rest))
    }
}

/// Finds the first symbol of a frame that lies in the module.
fn find_in_frame(symbols: &Vec<Option<String>>, module: &str) -> (r: Option<String>)
    ensures
        r.deep_view() == first_in_module(symbols.deep_view(), module@),
{
    let ghost whole = symbols.deep_view();
    let mut i: usize = 0;
    while i < symbols.len()
        invariant
            i <= symbols.len(),
            whole == symbols.deep_view(),
            first_in_module(whole.take(i as int), module@) is None,
        decreases symbols.len() - i,
    {
        proof {
            assert(whole.take(i + 1).drop_last() =~= whole.take(i as int));
            assert(whole.take(i + 1).last() == symbols[i as int].deep_view());
        }
        match &symbols[i] {
            Some(symbol) => {
                let found = strip_symbol(symbol.as_str(), module);
                if found.is_some() {
                    proof {
                        lemma_first_stays(whole, module@, i + 1);
                    }
                    return found;
                }
            },
            None => {},
        }
        i = i + 1;
    }
    proof {
        assert(whole.take(symbols.len() as int) =~= whole);
    }
    None
}

/// What was found among the first symbols of a frame is what is found in
/// the whole frame.
pub proof fn lemma_first_stays(symbols: Seq<Option<Seq<char>>>, module: Seq<char>, k: int)
    requires
        0 <= k <= symbols.len(),
        first_in_module(symbols.take(k), module) is Some,
    ensures
        first_in_module(symbols, module) == first_in_module(symbols.take(k), module),
    decreases symbols.len(),
{
    if k == symbols.len() {
        assert(symbols.take(k) =~= symbols);
    } else {
        assert(symbols.drop_last().take(k) =~= symbols.take(k));
        lemma_first_stays(symbols.drop_last(), module, k);
    }
}

/// Finds the name that a backtrace gives for the function of the module
/// `module` that was entered first, with the module path cut off.
pub fn name_in_frames(frames: &Vec<Vec<Option<String>>>, module: &str) -> (r: Option<String>)
    ensures
        r.deep_view() == outermost_in_module(frames.deep_view(), module@),
{
    let ghost whole = frames.deep_view();
    let mut i: usize = frames.len();
    proof {
        assert(whole.take(i as int) =~= whole);
    }
    while i > 0
        invariant
            i <= frames.len(),
            whole == frames.deep_view(),
            outermost_in_module(whole, module@) == outermost_in_module(
                whole.take(i as int),
                module@,
            ),
        decreases i,
    {
        proof {
            assert(whole.take(i as int).drop_last() =~= whole.take(i - 1));
            assert(whole.take(i as int).last() == frames[i - 1].deep_view());
        }
        let found = find_in_frame(&frames[i - 1], module);
        if found.is_some() {
            return found;
        }
        i = i - 1;
    }
    None
}

/// The name of the test that runs in the thread named `thread_name`, given
/// the backtrace of that thread. A test runs in a thread of its own name,
/// unless the tests run in the main thread: then the backtrace tells.
pub open spec fn test_name_of(
    thread_name: Seq<char>,
    frames: Seq<Seq<Option<Seq<char>>>>,
    module: Seq<char>,
) -> Option<Seq<char>> {
    if thread_name == "main"@ {
        match outermost_in_module(frames, module) {
            Some(name) => Some(last_segment_of(name)),
            None => None,
        }
    } else {
        Some(last_segment_of(thread_name))
    }
}

/// Tells whether the thread named `thread_name` is the main thread.
fn is_main(thread_name: &str) -> (r: bool)
    ensures
        r == (thread_name@ == "main"@),
{
    let r = starts_with(thread_name, "main") && starts_with("main", thread_name);
    proof {
        if r {
            assert(thread_name@ =~= "main"@.subrange(0, thread_name@.len() as int));
            assert("main"@ =~= thread_name@.subrange(0, "main"@.len() as int));
            assert(thread_name@ =~= "main"@);
        }
        if thread_name@ == "main"@ {
            assert("main"@.subrange(0, "main"@.len() as int) =~= "main"@);
        }
    }
    r
}

/// Finds the name of the test that runs in the thread named `thread_name`,
/// given the backtrace of that thread.
pub fn test_name_in(
    thread_name: &str,
    frames: &Vec<Vec<Option<String>>>,
    module: &str,
) -> (r: Option<String>)
    ensures
        r.deep_view() == test_name_of(thread_name@, frames.deep_view(), module@),
{
    if is_main(thread_name) {
        match name_in_frames(frames, module) {
            Some(name) => Some(last_segment(name.as_str())),
            None => None,
        }
    } else {
        Some(last_segment(thread_name))
    }
}

/// The names of the symbols of each frame of the backtrace of this thread:
/// what `backtrace::Backtrace::new` captures and resolves, frame by frame
/// as `frames` gives them, for each frame the names of its `symbols` as
/// text. Nothing is known of them.
#[verifier::external_body]
fn backtrace_frames() -> (frames: Vec<Vec<Option<String>>>) {
    backtrace::Backtrace::new()
        .frames()
        .iter()
        .map(|frame| frame.symbols().iter().map(|s| s.name().map(|n| n.to_string())).collect())
        .collect()
}

/// Extracts the name of the currently executing test from a backtrace: the
/// name of the outermost function of the module `module` on the stack,
/// with the module path cut off. Without such a function there is no name.
pub fn extract_test_name_from_backtrace(module: &str) -> (r: Option<String>)
    ensures
        exists|frames: Seq<Seq<Option<Seq<char>>>>|
            r.deep_view() == #[trigger] outermost_in_module(frames, module@),
{
    let frames = backtrace_frames();
    let r = name_in_frames(&frames, module);
    assert(r.deep_view() == outermost_in_module(frames.deep_view(), module@));
    r
}

/// Extracts the name of the currently executing test, which runs in the
/// thread named `thread_name`.
pub fn extract_test_name(thread_name: &str, module: &str) -> (r: Option<String>)
    ensures
        thread_name@ != "main"@ ==> r.deep_view() == Some(last_segment_of(thread_name@)),
        exists|frames: Seq<Seq<Option<Seq<char>>>>|
            r.deep_view() == #[trigger] test_name_of(thread_name@, frames, module@),
{
    if is_main(thread_name) {
        let frames = backtrace_frames();
        let r = test_name_in(thread_name, &frames, module);
        assert(r.deep_view() == test_name_of(thread_name@, frames.deep_view(), module@));
        r
    } else {
        let r = Some(last_segment(thread_name));
        assert(r.deep_view() == test_name_of(thread_name@, Seq::empty(), module@));
        r
    }
}

} // verus!
