//! Semi-persistent, scoped test directories.
//!
//! Each run of a program gets a fresh directory `<base>-<number>` in a parent
//! directory, next to those of earlier runs, so that what a run left behind
//! can be inspected afterwards. Only the newest few are kept; a link
//! `<base>-current` points at the newest.
//!
//! The library decides and the caller acts: an allocation or a carving names
//! the next operation on the file system, and is told how it went.

use vstd::prelude::*;

pub mod allocation;
pub mod builder;
pub mod carve;
pub mod carved;
pub mod decimal;
pub mod model;
pub mod names;
pub mod numbered_dir;
pub mod path;
pub mod private;
pub mod protocol;
pub mod retire;
pub mod scan;
pub mod testdir;

pub use allocation::{AllocStep, Allocated, Allocation, AllocationError, RetirementFailure};
pub use builder::{Build, BuildStep, NumberedDirBuilder};
pub use carve::{CarveError, CarveStep, Carving};
pub use numbered_dir::{NumberedDir, NumberedDirIter};
pub use protocol::{Reply, Request};
pub use scan::NumberedEntry;

verus! {

/// The default start of the name of the parent directory: `testdir`.
pub const ROOT_DEFAULT: &'static str = "testdir";

/// The default number of directories of a series that are kept: `8`.
pub const KEEP_DEFAULT: u8 = 8;

/// Executes a function passing it the numbered directory of this run.
///
/// This serves to create subdirectories inside one numbered directory that
/// all the tests of a run share.
pub fn with_testdir<F, R>(test_dir: &NumberedDir, func: F) -> (r: R) where
    F: FnOnce(&NumberedDir) -> R,

    requires
        func.requires((test_dir,)),
    ensures
        func.ensures((test_dir,), r),
{
    func(test_dir)
}

} // verus!
