//! The choice of source files among the entries of a directory walk.

use vstd::prelude::*;
use crate::headers::FeadersFile;
use crate::matcher::{pattern_accepts, regex_accepts, ScanError};
use crate::paths::{canonical, canonicalize};

verus! {

/// The patterns of the names of C and C++ headers and sources.
pub open spec fn suffix_patterns() -> Seq<Seq<char>> {
    seq!["^.*\\.h$"@, "^.*\\.c$"@, "^.*\\.hpp$"@, "^.*\\.cc$"@, "^.*\\.cpp$"@]
}

/// Whether the engine compiles every suffix pattern for `name`.
pub open spec fn patterns_usable(name: Seq<char>) -> bool {
    forall|i: int|
        0 <= i < suffix_patterns().len() ==> (#[trigger] regex_accepts(
            suffix_patterns()[i],
            name,
        )) is Some
}

/// Whether some suffix pattern matches `name`.
pub open spec fn is_source_name(name: Seq<char>) -> bool {
    exists|i: int|
        0 <= i < suffix_patterns().len() && #[trigger] regex_accepts(suffix_patterns()[i], name)
            == Some(true)
}

/// The canonical paths, under `cwd`, of the entries with a source name, in order.
pub open spec fn discovered(entries: Seq<Seq<char>>, cwd: Seq<char>) -> Seq<Seq<char>> {
    entries.filter(|e: Seq<char>| is_source_name(e)).map_values(|e: Seq<char>| canonical(e, cwd))
}

/// The paths of a list of files, in order.
pub open spec fn file_paths(files: Seq<FeadersFile>) -> Seq<Seq<char>> {
    Seq::new(files.len(), |i: int| files[i].path@)
}

/// The suffix pattern at index `i`.
fn suffix_pattern(i: usize) -> (r: &'static str)
    requires
        i < 5,
    ensures
        r@ == suffix_patterns()[i as int],
{
    if i == 0 {
        "^.*\\.h$"
    } else if i == 1 {
        "^.*\\.c$"
    } else if i == 2 {
        "^.*\\.hpp$"
    } else if i == 3 {
        "^.*\\.cc$"
    } else {
        "^.*\\.cpp$"
    }
}

/// Whether `pattern` matches somewhere in `name`; an error exactly where the
/// engine refuses `pattern`.
pub fn matches_pattern(pattern: &str, name: &str) -> (r: Result<bool, ScanError>)
    ensures
        match regex_accepts(pattern@, name@) {
            Some(b) => r == Ok::<bool, ScanError>(b),
            None => r == Err::<bool, ScanError>(ScanError::Pattern),
        },
{
    match pattern_accepts(pattern, name) {
        Some(b) => Ok(b),
        None => Err(ScanError::Pattern),
    }
}

/// Whether `name` is the name of a C or C++ header or source. Every pattern
/// is tried; the answer is an error exactly when the engine refuses one.
pub fn is_source_file(name: &str) -> (r: Result<bool, ScanError>)
    ensures
        r is Ok <==> patterns_usable(name@),
        r matches Ok(b) ==> b == is_source_name(name@),
        r matches Err(e) ==> e == ScanError::Pattern,
{
    let mut hit = false;
    let mut i: usize = 0;
    while i < 5
        invariant
            i <= 5,
            suffix_patterns().len() == 5,
            forall|j: int| 0 <= j < i ==> (#[trigger] regex_accepts(suffix_patterns()[j], name@)) is Some,
            hit == exists|j: int|
                0 <= j < i && #[trigger] regex_accepts(suffix_patterns()[j], name@) == Some(true),
        decreases 5 - i,
    {
        match matches_pattern(suffix_pattern(i), name) {
            Err(e) => {
                return Err(e);
            },
            Ok(b) => {
                hit = hit || b;
            },
        }
        i += 1;
    }
    Ok(hit)
}

/// Picks the source files among the entries of a walk.
pub struct FileSearcher;

impl FileSearcher {
    /// The files to scan among `entries`, the paths that a walk of the tree
    /// yielded: one file, with no headers yet, for each entry with a source
    /// name, under its canonical path, in the order of the walk. An error
    /// exactly when the engine refuses a suffix pattern for some entry.
    pub fn search(entries: &Vec<String>, cwd: &str) -> (r: Result<Vec<FeadersFile>, ScanError>)
        ensures
            r is Ok <==> forall|i: int| 0 <= i < entries.len() ==> patterns_usable(#[trigger] entries[i]@),
            r matches Ok(files) ==> {
                &&& file_paths(files@) == discovered(crate::text::views(entries@), cwd@)
                &&& forall|i: int| 0 <= i < files.len() ==> (#[trigger] files[i]).headers@.len() == 0
            },
            r matches Err(e) ==> e == ScanError::Pattern,
    {
        let mut files: Vec<FeadersFile> = Vec::new();
        let mut i: usize = 0;
        let ghost names = crate::text::views(entries@);
        let ghost pick = |e: Seq<char>| is_source_name(e);
        let ghost place = |e: Seq<char>| canonical(e, cwd@);
        proof {
            reveal(Seq::filter);
            assert(names.take(0) == Seq::<Seq<char>>::empty());
            assert(file_paths(files@) == names.take(0).filter(pick).map_values(place));
        }
        while i < entries.len()
            invariant
                i <= entries.len(),
                names == crate::text::views(entries@),
                pick == |e: Seq<char>| is_source_name(e),
                place == |e: Seq<char>| canonical(e, cwd@),
                forall|j: int| 0 <= j < i ==> patterns_usable(#[trigger] entries[j]@),
                file_paths(files@) == names.take(i as int).filter(pick).map_values(place),
                forall|j: int| 0 <= j < files.len() ==> (#[trigger] files[j]).headers@.len() == 0,
            decreases entries.len() - i,
        {
            let entry = entries[i].as_str();
            let ghost before = names.take(i as int);
            proof {
                assert(names.take(i + 1) == before.push(entry@));
                before.lemma_filter_push(entry@, pick);
            }
            match is_source_file(entry) {
                Err(e) => {
                    return Err(e);
                },
                Ok(true) => {
                    let path = canonicalize(entry, cwd);
                    let ghost earlier = file_paths(files@);
                    files.push(FeadersFile::new(path.as_str()));
                    proof {
                        let chosen = before.filter(pick);
                        assert(file_paths(files@) == earlier.push(path@));
                        assert(place(entry@) == path@);
                        assert(chosen.push(entry@).map_values(place) == chosen.map_values(
                            place,
                        ).push(place(entry@)));
                    }
                },
                Ok(false) => {},
            }
            i += 1;
        }
        assert(names.take(entries.len() as int) == names);
        Ok(files)
    }
}

} // verus!
