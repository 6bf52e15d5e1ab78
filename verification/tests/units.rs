//! The parts that need no file system.

use testdir::decimal::{parse, render};
use testdir::names::{
    contains_separator, ends_with, make_entry_name, make_link_name, parse_entry_name, starts_with,
};
use testdir::path::{join_path, proper_name, push_path, relative, replace_leaf, split};
use testdir::private::{
    extract_test_name, extract_test_name_from_backtrace, last_segment, name_in_frames,
    strip_symbol, test_name_in, CARGO_PID_FILE_NAME,
};
use testdir::retire::is_obsolete;
use testdir::scan::{current_entry_count, list_entries, obsolete_names, NumberedEntry};
use testdir::testdir::{module_dir, module_scope, test_scope};
use testdir::{AllocationError, CarveError, Request, RetirementFailure};
use testdir::{NumberedDir, KEEP_DEFAULT, ROOT_DEFAULT};

#[test]
fn numbers_are_rendered_without_padding() {
    assert_eq!(render(0), "0");
    assert_eq!(render(7), "7");
    assert_eq!(render(10), "10");
    assert_eq!(render(409), "409");
    assert_eq!(render(65535), "65535");
    for n in 0..=u16::MAX {
        assert_eq!(render(n), n.to_string());
    }
}

#[test]
fn numbers_are_read_as_the_standard_library_reads_them() {
    assert_eq!(parse("0"), Some(0));
    assert_eq!(parse("65535"), Some(65535));
    assert_eq!(parse("65536"), None);
    assert_eq!(parse("007"), Some(7));
    assert_eq!(parse("+12"), Some(12));
    assert_eq!(parse("000000000000000000000065535"), Some(65535));
    assert_eq!(parse("99999999999999999999999"), None);
    assert_eq!(parse(""), None);
    assert_eq!(parse("+"), None);
    assert_eq!(parse("-1"), None);
    assert_eq!(parse("++1"), None);
    assert_eq!(parse("1+"), None);
    assert_eq!(parse(" 1"), None);
    assert_eq!(parse("1 "), None);
    assert_eq!(parse("12a"), None);
    assert_eq!(parse("current"), None);
    assert_eq!(parse("\u{0661}"), None);
    for text in ["0", "1", "65535", "65536", "70000", "+0", "+65535", "0x10", "1e3", "٣", "00", ""] {
        assert_eq!(parse(text), text.parse::<u16>().ok(), "{:?}", text);
    }
}

#[test]
fn reading_a_rendered_number_gives_it_back() {
    for n in 0..=u16::MAX {
        assert_eq!(parse(&render(n)), Some(n));
    }
}

#[test]
fn entry_names_carry_base_and_number() {
    assert_eq!(make_entry_name("run", 0), "run-0");
    assert_eq!(make_entry_name("run", 65535), "run-65535");
    assert_eq!(make_entry_name("", 3), "-3");
    assert_eq!(make_entry_name("tëst-dir", 12), "tëst-dir-12");
    assert_eq!(make_link_name("run"), "run-current");
}

#[test]
fn entry_names_are_read_by_prefix_and_number() {
    assert_eq!(parse_entry_name("run-0", "run"), Some(0));
    assert_eq!(parse_entry_name("run-12", "run"), Some(12));
    assert_eq!(parse_entry_name("run-012", "run"), Some(12));
    assert_eq!(parse_entry_name("run-current", "run"), None);
    assert_eq!(parse_entry_name("run-", "run"), None);
    assert_eq!(parse_entry_name("run", "run"), None);
    assert_eq!(parse_entry_name("run12", "run"), None);
    assert_eq!(parse_entry_name("other-12", "run"), None);
    assert_eq!(parse_entry_name("run-1-2", "run"), None);
    assert_eq!(parse_entry_name("run-1-2", "run-1"), Some(2));
    assert_eq!(parse_entry_name("run-65536", "run"), None);
    assert_eq!(parse_entry_name("xrun-1", "run"), None);
    assert_eq!(parse_entry_name("tëst-7", "tëst"), Some(7));
    for n in [0u16, 1, 9, 10, 255, 256, 32767, 32768, 65535] {
        assert_eq!(parse_entry_name(&make_entry_name("base", n), "base"), Some(n));
    }
}

#[test]
fn separators_are_found() {
    assert!(contains_separator("a/b"));
    assert!(contains_separator("a\\b"));
    assert!(contains_separator("/"));
    assert!(contains_separator("ab\\"));
    assert!(!contains_separator(""));
    assert!(!contains_separator("base"));
    assert!(!contains_separator("a-b.c:d"));
}

#[test]
fn prefixes_and_suffixes_are_told() {
    assert!(starts_with("run-12", "run-"));
    assert!(starts_with("run-", "run-"));
    assert!(starts_with("run", ""));
    assert!(!starts_with("run", "run-"));
    assert!(!starts_with("xrun-", "run-"));
    assert!(ends_with("a::{{closure}}", "::{{closure}}"));
    assert!(ends_with("abc", ""));
    assert!(ends_with("abc", "abc"));
    assert!(!ends_with("abc", "xabc"));
    assert!(!ends_with("abc", "ab"));
}

#[test]
fn the_newest_numbers_are_kept() {
    for number in 0..8u16 {
        assert!(is_obsolete(10, 3, number));
    }
    assert!(!is_obsolete(10, 3, 8));
    assert!(!is_obsolete(10, 3, 9));
    assert!(!is_obsolete(10, 3, 10));
    assert!(!is_obsolete(10, 3, 11));
    assert!(is_obsolete(10, 0, 10));
    assert!(!is_obsolete(10, 0, 11));
    assert!(!is_obsolete(10, 1, 10));
    assert!(is_obsolete(10, 1, 9));
}

#[test]
fn the_arcs_meet_half_a_ring_away() {
    assert!(!is_obsolete(0, 1, 32766));
    assert!(is_obsolete(0, 1, 32767));
    assert!(is_obsolete(0, 1, 65535));
    assert!(is_obsolete(40000, 1, 40000 - 32769));
    assert!(!is_obsolete(40000, 1, 40000 - 32770));
    assert!(!is_obsolete(65535, 255, 65535 - 254));
    assert!(is_obsolete(65535, 255, 65535 - 255));
}

#[test]
fn numbers_ahead_across_the_wrap_are_kept() {
    for keep in [0u8, 1, 2, 8, 255] {
        assert!(!is_obsolete(65535, keep, 0));
        assert!(!is_obsolete(65535, keep, 1));
        assert!(!is_obsolete(65534, keep, 3));
        assert!(!is_obsolete(65530, keep, 65535));
        assert!(!is_obsolete(65535, keep, 32765));
    }
    assert!(is_obsolete(65535, 2, 65533));
    assert!(!is_obsolete(65535, 2, 65534));
    assert!(!is_obsolete(1, 3, 65535));
    assert!(is_obsolete(1, 3, 65534));
}

#[test]
fn the_arc_test_agrees_with_the_age() {
    for current in [0u16, 1, 2, 100, 254, 255, 256, 32766, 32767, 32768, 32769, 65534, 65535] {
        for keep in [0u8, 1, 2, 3, 8, 254, 255] {
            for number in 0..=u16::MAX {
                let age = current.wrapping_sub(number);
                let expected = u16::from(keep) <= age && age <= 32769;
                assert_eq!(is_obsolete(current, keep, number), expected);
            }
        }
    }
}

fn names(list: &[&str]) -> Vec<Option<String>> {
    list.iter().map(|name| Some(String::from(*name))).collect()
}

#[test]
fn a_listing_is_scanned_in_its_order() {
    let mut listing = names(&["run-3", "oops", "run-current", "run-1", "run-02", "other-7", "run-x"]);
    listing.insert(2, None);
    let entries = list_entries(&listing, "run");
    let expected = vec![
        NumberedEntry { number: 3, name: String::from("run-3") },
        NumberedEntry { number: 1, name: String::from("run-1") },
        NumberedEntry { number: 2, name: String::from("run-02") },
    ];
    assert_eq!(entries, expected);
    assert_eq!(list_entries(&Vec::new(), "run"), Vec::new());
    assert_eq!(list_entries(&names(&["a", "b"]), "run"), Vec::new());
}

#[test]
fn the_current_entry_is_the_largest_number() {
    assert_eq!(current_entry_count(&Vec::new()), None);
    let entries = list_entries(&names(&["run-3", "run-17", "run-4", "run-0"]), "run");
    assert_eq!(current_entry_count(&entries), Some(17));
    let entries = list_entries(&names(&["run-0"]), "run");
    assert_eq!(current_entry_count(&entries), Some(0));
    let entries = list_entries(&names(&["run-65535", "run-0"]), "run");
    assert_eq!(current_entry_count(&entries), Some(65535));
}

#[test]
fn obsolete_names_come_in_the_order_of_the_entries() {
    let entries = list_entries(&names(&["run-5", "run-2", "run-9", "run-3", "run-8", "run-10"]), "run");
    assert_eq!(obsolete_names(&entries, 10, 2), vec!["run-5", "run-2", "run-3", "run-8"]);
    assert_eq!(obsolete_names(&entries, 10, 0).len(), 6);
    assert!(obsolete_names(&entries, 10, 9).is_empty());
    assert_eq!(obsolete_names(&entries, 10, 8), vec!["run-2"]);
}

#[test]
fn iterating_passes_over_what_is_no_entry() {
    let mut listing = names(&["x", "base-1", "base-current", "base-0007"]);
    listing.push(None);
    listing.push(Some(String::from("base-2")));
    let mut iter = NumberedDir::iterate("/p", "base", listing);
    let first = iter.next().unwrap();
    assert_eq!((first.path(), first.base(), first.number()), ("/p/base-1", "base", 1));
    let second = iter.next().unwrap();
    assert_eq!((second.path(), second.base(), second.number()), ("/p/base-0007", "base", 7));
    let third = iter.next().unwrap();
    assert_eq!((third.path(), third.base(), third.number()), ("/p/base-2", "base", 2));
    assert_eq!(iter.next(), None);
    assert_eq!(iter.next(), None);
    assert_eq!(NumberedDir::iterate("/p", "base", Vec::new()).next(), None);
}

#[test]
fn paths_are_joined_with_a_slash() {
    assert_eq!(join_path("/tmp/parent", "run-0"), "/tmp/parent/run-0");
    assert_eq!(join_path("", "x"), "/x");
    assert_eq!(join_path("rel", "a/b"), "rel/a/b");
    assert_eq!(push_path("/tmp", "x"), "/tmp/x");
    assert_eq!(push_path("/tmp/", "x"), "/tmp/x");
    assert_eq!(push_path("", "x"), "x");
    assert_eq!(push_path("/", "x"), "/x");
}

#[test]
fn paths_are_split_at_the_last_component() {
    assert_eq!(split("a/b/c"), ("a/b/c", "a/b", "c"));
    assert_eq!(split("a/b/c///"), ("a/b/c", "a/b", "c"));
    assert_eq!(split("a//c"), ("a//c", "a", "c"));
    assert_eq!(split("leaf"), ("leaf", "", "leaf"));
    assert_eq!(split(""), ("", "", ""));
    assert_eq!(split("/"), ("", "", ""));
    assert_eq!(split("/x"), ("/x", "", "x"));
    assert_eq!(split("../x"), ("../x", "..", "x"));
    assert_eq!(split("a/.."), ("a/..", "a", ".."));
    assert!(relative("a/b"));
    assert!(relative(""));
    assert!(relative("./a"));
    assert!(!relative("/a"));
    assert!(!relative("/"));
    assert!(proper_name("a"));
    assert!(proper_name("..."));
    assert!(proper_name(".a"));
    assert!(proper_name("a."));
    assert!(!proper_name(""));
    assert!(!proper_name("."));
    assert!(!proper_name(".."));
}

#[test]
fn the_last_component_is_replaced() {
    assert_eq!(replace_leaf("/tmp/testdir-of-me", "myroot"), "/tmp/myroot");
    assert_eq!(replace_leaf("/tmp/testdir-of-me/", "myroot"), "/tmp/myroot");
    assert_eq!(replace_leaf("x", "y"), "y");
    assert_eq!(replace_leaf("/", "y"), "/y");
    assert_eq!(replace_leaf("", "y"), "y");
    assert_eq!(replace_leaf("a/..", "y"), "a/../y");
}

#[test]
fn the_last_segment_follows_the_last_separator() {
    assert_eq!(last_segment("tests::test_write"), "test_write");
    assert_eq!(last_segment("a::b::c"), "c");
    assert_eq!(last_segment("plain"), "plain");
    assert_eq!(last_segment(""), "");
    assert_eq!(last_segment("a::"), "");
    assert_eq!(last_segment("::a"), "a");
    assert_eq!(last_segment("a:b"), "a:b");
    assert_eq!(last_segment("a:::b"), "b");
    assert_eq!(last_segment(":"), ":");
    assert_eq!(last_segment("::"), "");
    for name in ["x::y", "x:::y", "::::", "a::b:", "a::b::", ":a", "ä::ö"] {
        assert_eq!(last_segment(name), name.rsplit("::").next().unwrap(), "{:?}", name);
    }
}

#[test]
fn symbols_are_stripped_of_module_and_closure() {
    assert_eq!(strip_symbol("krate::tests::it::{{closure}}", "krate::tests"), Some(String::from("::it")));
    assert_eq!(strip_symbol("krate::tests::it", "krate::tests"), Some(String::from("::it")));
    assert_eq!(strip_symbol("krate::tests", "krate::tests"), Some(String::new()));
    assert_eq!(strip_symbol("other::tests::it", "krate::tests"), None);
    assert_eq!(strip_symbol("krate", "krate::tests"), None);
    assert_eq!(strip_symbol("m::{{closure}}::{{closure}}", "m"), Some(String::from("::{{closure}}")));
}

fn frame(symbols: &[Option<&str>]) -> Vec<Option<String>> {
    symbols.iter().map(|s| s.map(String::from)).collect()
}

#[test]
fn the_outermost_frame_of_the_module_names_the_test() {
    let frames = vec![
        frame(&[Some("backtrace::capture::Backtrace::new")]),
        frame(&[Some("krate::tests::helper"), Some("krate::tests::inlined")]),
        frame(&[None, Some("krate::tests::the_test::{{closure}}"), Some("krate::tests::second")]),
        frame(&[]),
        frame(&[Some("core::ops::function::FnOnce::call_once")]),
        frame(&[None]),
    ];
    assert_eq!(name_in_frames(&frames, "krate::tests"), Some(String::from("::the_test")));
    assert_eq!(name_in_frames(&frames, "krate"), Some(String::from("::tests::the_test")));
    assert_eq!(name_in_frames(&frames, "core"), Some(String::from("::ops::function::FnOnce::call_once")));
    assert_eq!(name_in_frames(&frames, "nowhere"), None);
    assert_eq!(name_in_frames(&Vec::new(), "krate"), None);
    assert_eq!(name_in_frames(&frames[..2].to_vec(), "krate::tests"), Some(String::from("::helper")));

    assert_eq!(test_name_in("main", &frames, "krate::tests"), Some(String::from("the_test")));
    assert_eq!(test_name_in("main", &frames, "nowhere"), None);
    assert_eq!(test_name_in("tests::other", &frames, "krate::tests"), Some(String::from("other")));
    assert_eq!(test_name_in("mainly", &frames, "nowhere"), Some(String::from("mainly")));
    assert_eq!(test_name_in("mai", &frames, "nowhere"), Some(String::from("mai")));
}

#[test]
fn the_thread_names_the_test() {
    assert_eq!(extract_test_name("tests::test_write", "krate::tests"), Some(String::from("test_write")));
    assert_eq!(extract_test_name("test_macro", "r#macro"), Some(String::from("test_macro")));
    assert_eq!(extract_test_name("main", "no::such::module"), None);
}

#[test]
fn the_backtrace_knows_no_foreign_module() {
    assert_eq!(extract_test_name_from_backtrace("no::such::module"), None);
}

#[test]
fn the_backtrace_holds_this_test() {
    let found = extract_test_name_from_backtrace("units");
    if let Some(name) = found {
        assert!(name.starts_with("::"), "{:?}", name);
        assert!(!name.ends_with("::{{closure}}"), "{:?}", name);
    }
}

#[test]
fn module_paths_become_directories() {
    assert_eq!(module_dir("krate::tests"), "krate/tests");
    assert_eq!(module_dir("krate"), "krate");
    assert_eq!(module_dir(""), "");
    assert_eq!(module_dir("a:::b"), "a/:b");
    assert_eq!(module_dir("a::::b"), "a//b");
    assert_eq!(module_dir("a:b"), "a:b");
    assert_eq!(module_dir("r#macro::submodule"), "r#macro/submodule");
    for path in ["x::y::z", ":", "::", ":::", "a::", "ä::ö"] {
        assert_eq!(module_dir(path), path.replace("::", "/"), "{:?}", path);
    }
    assert_eq!(test_scope("krate::tests", "test_write"), "krate/tests/test_write");
    assert_eq!(test_scope("", "test_write"), "test_write");
    assert_eq!(module_scope("krate::tests"), "krate/tests/mod");
}

#[test]
fn the_defaults_are_as_documented() {
    assert_eq!(ROOT_DEFAULT, "testdir");
    assert_eq!(KEEP_DEFAULT, 8);
    assert_eq!(CARGO_PID_FILE_NAME, "cargo-pid");
}

#[test]
fn errors_tell_the_operation_and_the_path() {
    assert_eq!(AllocationError::InvalidInput.message(), "base must not contain path separators");
    assert_eq!(
        AllocationError::CollisionExhausted { last: String::from("File exists") }.message(),
        "failed to create numbered dir, all numbers tried are taken: File exists"
    );
    let failure = |request: Request| {
        AllocationError::IoFailure { request, detail: String::from("Permission denied") }.message()
    };
    let path = String::from("/p/x");
    assert_eq!(
        failure(Request::CreateAll { path: path.clone() }),
        "failed to create the directories of /p/x: Permission denied"
    );
    assert_eq!(
        failure(Request::List { path: path.clone() }),
        "failed to read the directory /p/x: Permission denied"
    );
    assert_eq!(
        failure(Request::RemoveTree { path: path.clone() }),
        "failed to remove the directory /p/x: Permission denied"
    );
    assert_eq!(
        failure(Request::CreateDir { path: path.clone() }),
        "failed to create the directory /p/x: Permission denied"
    );
    assert_eq!(
        failure(Request::RemoveLink { path: path.clone() }),
        "failed to remove the link /p/x: Permission denied"
    );
    assert_eq!(
        failure(Request::Symlink { target: String::from("/p/run-3"), link: path.clone() }),
        "failed to create the link /p/x to /p/run-3: Permission denied"
    );
    assert_eq!(
        RetirementFailure { path: path.clone(), detail: String::from("Directory not empty") }
            .message(),
        "failed to remove the directory /p/x: Directory not empty"
    );
    assert_eq!(CarveError::NotRelative.message(), "subdir is not a relative path");
    assert_eq!(CarveError::NoFinalComponent.message(), "subdir does not end in a filename");
    assert_eq!(
        CarveError::CollisionExhausted { last: String::from("File exists") }.message(),
        "subdir conflict, all filename alternatives exhausted: File exists"
    );
    assert_eq!(
        CarveError::IoFailure {
            request: Request::CreateDir { path },
            detail: String::from("No space left on device"),
        }
        .message(),
        "failed to create the directory /p/x: No space left on device"
    );
}
