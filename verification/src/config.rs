//! Where the index of sessions is kept.

use std::path::PathBuf;

use vstd::prelude::*;

use crate::paths::{absolute_outcome, below, is_absolute, FsPath, FsPathView};

verus! {

/// A directory that the environment names, as a place and as text.
#[derive(Debug)]
pub struct NamedDir {
    pub place: PathBuf,
    pub text: String,
}

/// Where the index is kept: below the directory for caches that the environment names,
/// where that is absolute, or else below the one in the home directory.
pub open spec fn index_path(named: Option<NamedDir>, absolute: bool, home: PathBuf) -> FsPathView {
    let cache = match named {
        Some(dir) if absolute => FsPathView { base: dir.place, names: seq![] },
        _ => below(FsPathView { base: home, names: seq![] }, ".cache"@),
    };
    below(below(cache, "fast-resume"@), "tantivy_index"@)
}

/// Where the index is kept, given whether the directory that the environment names is
/// absolute.
pub fn index_dir_below(named: Option<NamedDir>, absolute: bool, home: PathBuf) -> (path: FsPath)
    ensures
        path@ == index_path(named, absolute, home),
{
    let cache = match named {
        Some(dir) if absolute => FsPath::at(dir.place),
        _ => FsPath::at(home).join(".cache"),
    };
    cache.join("fast-resume").join("tantivy_index")
}

/// Where the index is kept. An unset or empty variable names no directory for caches,
/// and a relative one does not count; which are relative depends on the system.
pub fn index_dir(named: Option<NamedDir>, home: PathBuf) -> (path: FsPath)
    ensures
        match named {
            Some(dir) => exists|absolute: bool| #[trigger]
                absolute_outcome(dir.text@, absolute) && path@ == index_path(named, absolute, home),
            None => path@ == index_path(None, false, home),
        },
{
    let absolute = match &named {
        Some(dir) => is_absolute(dir.text.as_str()),
        None => false,
    };
    assert(named matches Some(dir) ==> absolute_outcome(dir.text@, absolute));
    index_dir_below(named, absolute, home)
}

/// The index is kept below an absolute directory for caches that is named, and in every
/// other case below the one in the home directory.
pub proof fn law_place_of_the_index(named: Option<NamedDir>, absolute: bool, home: PathBuf)
    ensures
        named is Some && absolute ==> index_path(named, absolute, home).base == named->0.place
            && index_path(named, absolute, home).names == seq!["fast-resume"@, "tantivy_index"@],
        named is None || !absolute ==> index_path(named, absolute, home).base == home && index_path(
            named,
            absolute,
            home,
        ).names == seq![".cache"@, "fast-resume"@, "tantivy_index"@],
{
    reveal_strlit(".");
    reveal_strlit(".cache");
    reveal_strlit("fast-resume");
    reveal_strlit("tantivy_index");
    assert("."@.len() == 1 && ".cache"@.len() == 6 && "fast-resume"@.len() == 11);
    assert("tantivy_index"@.len() == 13);
    if named is Some && absolute {
        assert(index_path(named, absolute, home).names =~= seq!["fast-resume"@, "tantivy_index"@]);
    } else {
        assert(index_path(named, absolute, home).names =~= seq![
            ".cache"@,
            "fast-resume"@,
            "tantivy_index"@,
        ]);
    }
}

} // verus!
