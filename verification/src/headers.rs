//! Header extraction: the header names that a file's directives hold, and the
//! filter that drops the names already satisfied.

use vstd::prelude::*;
use vstd::hash_set::StringHashSet;
use crate::matcher::{all_captures, capture_views, group_views, regex_captures, ScanError};
use crate::paths::{canonical, canonicalize};
use crate::text::views;

verus! {

/// The pattern of a directive that names a header: at the start of a line,
/// after optional whitespace, `#`, optional whitespace, the directive's word,
/// whitespace, and the name between angle brackets or between quotes. The
/// name is capture group 1 for angle brackets and capture group 2 for quotes.
pub open spec fn directive_pattern() -> Seq<char> {
    "(?m:^\\s*#\\s*include\\s+(?:<(.*?)>|\"(.*?)\"))"@
}

/// The pattern of a directive that names a header.
pub fn directive() -> (r: &'static str)
    ensures
        r@ == directive_pattern(),
{
    "(?m:^\\s*#\\s*include\\s+(?:<(.*?)>|\"(.*?)\"))"
}

/// The name that one match captures: the text of group 1 where that group
/// took part in the match, else the text of group 2 where that one did, else
/// the empty name.
pub open spec fn name_in(groups: Seq<Option<Seq<char>>>) -> Seq<char> {
    if groups.len() > 1 && groups[1] is Some {
        groups[1].unwrap()
    } else if groups.len() > 2 && groups[2] is Some {
        groups[2].unwrap()
    } else {
        Seq::<char>::empty()
    }
}

/// The names that a list of matches captures, in order.
pub open spec fn targets_of(captures: Seq<Seq<Option<Seq<char>>>>) -> Seq<Seq<char>> {
    Seq::new(captures.len(), |i: int| name_in(captures[i]))
}

/// The names that the matches of `pattern` in `text` capture, in the order of
/// the text, repeated names included; `None` where the engine refuses the
/// pattern.
pub open spec fn captured_targets(pattern: Seq<char>, text: Seq<char>) -> Option<Seq<Seq<char>>> {
    match regex_captures(pattern, text) {
        Some(captures) => Some(targets_of(captures)),
        None => None,
    }
}

/// The header names that the directives of `text` hold, in the order of the
/// text, repeated names included; `None` where the engine refuses the pattern.
pub open spec fn directive_targets(text: Seq<char>) -> Option<Seq<Seq<char>>> {
    captured_targets(directive_pattern(), text)
}

/// What becomes of a header name under deduplication.
#[derive(Debug, Clone, Copy, PartialEq, Eq, Structural)]
pub enum Verdict {
    /// The name needs a provider.
    Kept,
    /// The file that the name refers to is one of the local files.
    Local,
    /// The name is among the ignored ones.
    Ignored,
}

/// What becomes of `target` under deduplication: a local file is looked for
/// first, then the ignored names.
pub open spec fn verdict_of(
    target: Seq<char>,
    anchor_dir: Seq<char>,
    local: Set<Seq<char>>,
    ignored: Set<Seq<char>>,
) -> Verdict {
    if local.contains(canonical(target, anchor_dir)) {
        Verdict::Local
    } else if ignored.contains(target) {
        Verdict::Ignored
    } else {
        Verdict::Kept
    }
}

/// Whether a header name needs no provider: the file it names under
/// `anchor_dir` is one of the local files, or the name is among the ignored ones.
pub open spec fn is_satisfied(
    target: Seq<char>,
    anchor_dir: Seq<char>,
    local: Set<Seq<char>>,
    ignored: Set<Seq<char>>,
) -> bool {
    local.contains(canonical(target, anchor_dir)) || ignored.contains(target)
}

/// The test that a surviving header name passes.
pub open spec fn unsatisfied(anchor_dir: Seq<char>, local: Set<Seq<char>>, ignored: Set<Seq<char>>)
    -> spec_fn(Seq<char>) -> bool {
    |t: Seq<char>| !is_satisfied(t, anchor_dir, local, ignored)
}

/// The header names that survive: all of them without deduplication, else
/// those not satisfied, in their order.
pub open spec fn surviving(
    targets: Seq<Seq<char>>,
    dedup: bool,
    anchor_dir: Seq<char>,
    local: Set<Seq<char>>,
    ignored: Set<Seq<char>>,
) -> Seq<Seq<char>> {
    if dedup {
        targets.filter(unsatisfied(anchor_dir, local, ignored))
    } else {
        targets
    }
}

/// A file of the scanned tree and the header names found in it.
#[derive(Clone, Debug)]
pub struct FeadersFile {
    pub path: String,
    pub headers: Vec<String>,
}

/// What makes a header name satisfied: the canonical paths of the files of the
/// scanned tree, and the names to ignore.
pub struct ImportPathFilters {
    pub absolute: StringHashSet,
    pub relative: StringHashSet,
}

impl ImportPathFilters {
    /// The filters of a scanned tree: the paths of all of `files`, and the
    /// `ignored` names.
    pub fn new(files: &Vec<FeadersFile>, ignored: &Vec<String>) -> (r: ImportPathFilters)
        ensures
            r.absolute@ == crate::discovery::file_paths(files@).to_set(),
            r.relative@ == views(ignored@).to_set(),
    {
        let mut absolute = StringHashSet::new();
        let mut i: usize = 0;
        let ghost paths = crate::discovery::file_paths(files@);
        while i < files.len()
            invariant
                i <= files.len(),
                paths == crate::discovery::file_paths(files@),
                absolute@ == paths.take(i as int).to_set(),
            decreases files.len() - i,
        {
            absolute.insert(files[i].path.clone());
            proof {
                assert(paths.take(i + 1) == paths.take(i as int).push(paths[i as int]));
                paths.take(i as int).lemma_push_to_set_commute(paths[i as int]);
            }
            i += 1;
        }
        assert(paths.take(files.len() as int) == paths);
        let mut relative = StringHashSet::new();
        let mut j: usize = 0;
        let ghost names = views(ignored@);
        while j < ignored.len()
            invariant
                j <= ignored.len(),
                names == views(ignored@),
                relative@ == names.take(j as int).to_set(),
            decreases ignored.len() - j,
        {
            relative.insert(ignored[j].clone());
            proof {
                assert(names.take(j + 1) == names.take(j as int).push(names[j as int]));
                names.take(j as int).lemma_push_to_set_commute(names[j as int]);
            }
            j += 1;
        }
        assert(names.take(ignored.len() as int) == names);
        ImportPathFilters { absolute, relative }
    }

    /// What becomes of the header `target`, named in a file under
    /// `anchor_dir`, under deduplication.
    pub fn classify(&self, target: &str, anchor_dir: &str) -> (r: Verdict)
        ensures
            r == verdict_of(target@, anchor_dir@, self.absolute@, self.relative@),
            r != Verdict::Kept <==> is_satisfied(target@, anchor_dir@, self.absolute@, self.relative@),
    {
        let candidate = canonicalize(target, anchor_dir);
        if self.absolute.contains(candidate.as_str()) {
            Verdict::Local
        } else if self.relative.contains(target) {
            Verdict::Ignored
        } else {
            Verdict::Kept
        }
    }

    /// Whether the header `target`, named in a file under `anchor_dir`, needs
    /// no provider.
    pub fn satisfies(&self, target: &str, anchor_dir: &str) -> (r: bool)
        ensures
            r == is_satisfied(target@, anchor_dir@, self.absolute@, self.relative@),
    {
        let candidate = canonicalize(target, anchor_dir);
        self.absolute.contains(candidate.as_str()) || self.relative.contains(target)
    }
}

/// The name that one match captures, from the texts of its capture groups.
pub fn name_of_groups(groups: &Vec<Option<String>>) -> (r: String)
    ensures
        r@ == name_in(group_views(groups@)),
{
    if groups.len() > 1 {
        match &groups[1] {
            Some(t) => {
                return t.clone();
            },
            None => {},
        }
    }
    if groups.len() > 2 {
        match &groups[2] {
            Some(t) => {
                return t.clone();
            },
            None => {},
        }
    }
    String::new()
}

/// The names that a list of matches captures, in order.
pub fn names_of_captures(captures: &Vec<Vec<Option<String>>>) -> (r: Vec<String>)
    ensures
        views(r@) == targets_of(capture_views(captures@)),
{
    let mut names: Vec<String> = Vec::new();
    let mut i: usize = 0;
    while i < captures.len()
        invariant
            i <= captures.len(),
            views(names@) == targets_of(capture_views(captures@)).take(i as int),
        decreases captures.len() - i,
    {
        let ghost before = views(names@);
        names.push(name_of_groups(&captures[i]));
        assert(views(names@) == before.push(targets_of(capture_views(captures@))[i as int]));
        i += 1;
    }
    names
}

/// The names that the matches of `pattern` in `text` capture, in the order of
/// the text; an error exactly where the engine refuses `pattern`.
pub fn capture_targets(pattern: &str, text: &str) -> (r: Result<Vec<String>, ScanError>)
    ensures
        match captured_targets(pattern@, text@) {
            Some(targets) => r matches Ok(names) && views(names@) == targets,
            None => r matches Err(e) && e == ScanError::Pattern,
        },
{
    match all_captures(pattern, text) {
        Some(captures) => Ok(names_of_captures(&captures)),
        None => Err(ScanError::Pattern),
    }
}

/// The header names to keep among `targets`, for a file under the canonical
/// directory `anchor_dir`.
pub fn keep_targets(
    targets: &Vec<String>,
    dedup: bool,
    anchor_dir: &str,
    filters: &ImportPathFilters,
) -> (r: Vec<String>)
    ensures
        views(r@) == surviving(
            views(targets@),
            dedup,
            anchor_dir@,
            filters.absolute@,
            filters.relative@,
        ),
{
    let mut kept: Vec<String> = Vec::new();
    let mut i: usize = 0;
    let ghost names = views(targets@);
    let ghost test = unsatisfied(anchor_dir@, filters.absolute@, filters.relative@);
    proof {
        reveal(Seq::filter);
        assert(names.take(0) == Seq::<Seq<char>>::empty());
        assert(views(kept@) == Seq::<Seq<char>>::empty());
    }
    while i < targets.len()
        invariant
            i <= targets.len(),
            names == views(targets@),
            test == unsatisfied(anchor_dir@, filters.absolute@, filters.relative@),
            dedup ==> views(kept@) == names.take(i as int).filter(test),
            !dedup ==> views(kept@) == names.take(i as int),
        decreases targets.len() - i,
    {
        let target = targets[i].clone();
        proof {
            assert(names.take(i + 1) == names.take(i as int).push(target@));
            names.take(i as int).lemma_filter_push(target@, test);
        }
        let ghost before = views(kept@);
        if !(dedup && filters.satisfies(target.as_str(), anchor_dir)) {
            kept.push(target);
            assert(views(kept@) == before.push(target@));
        }
        i += 1;
    }
    assert(names.take(targets.len() as int) == names);
    kept
}

/// The record of one file of the tree, scanned: the file under `path` with
/// the header names of `text` that survive, or `None` where none survives, for
/// such a record carries no work. An error where the engine refuses the
/// directive pattern.
pub fn scan_file(
    path: &str,
    text: &str,
    dedup: bool,
    anchor: &str,
    cwd: &str,
    filters: &ImportPathFilters,
) -> (r: Result<Option<FeadersFile>, ScanError>)
    ensures
        match directive_targets(text@) {
            Some(targets) => {
                let kept = surviving(
                    targets,
                    dedup,
                    canonical(anchor@, cwd@),
                    filters.absolute@,
                    filters.relative@,
                );
                match r {
                    Ok(Some(file)) => kept.len() > 0 && file.path@ == path@ && views(file.headers@)
                        == kept,
                    Ok(None) => kept.len() == 0,
                    Err(_) => false,
                }
            },
            None => r matches Err(e) && e == ScanError::Pattern,
        },
{
    let mut file = FeadersFile::new(path);
    assert(views(file.headers@) == Seq::<Seq<char>>::empty());
    match file.process(text, dedup, anchor, cwd, filters) {
        Err(e) => Err(e),
        Ok(count) => {
            assert(views(file.headers@).len() == file.headers@.len());
            if count > 0 {
                Ok(Some(file))
            } else {
                Ok(None)
            }
        },
    }
}

/// Without deduplication the surviving header names are the names that the
/// directives hold: all of them, in the order of the text, repeated names
/// included.
pub proof fn lemma_without_dedup_all_survive(
    targets: Seq<Seq<char>>,
    anchor_dir: Seq<char>,
    local: Set<Seq<char>>,
    ignored: Set<Seq<char>>,
)
    ensures
        surviving(targets, false, anchor_dir, local, ignored) == targets,
{
}

/// Deduplication never adds a header name: every name that survives with it
/// survives without it, and no more names survive with it than without.
pub proof fn lemma_dedup_adds_nothing(
    targets: Seq<Seq<char>>,
    anchor_dir: Seq<char>,
    local: Set<Seq<char>>,
    ignored: Set<Seq<char>>,
)
    ensures
        surviving(targets, true, anchor_dir, local, ignored).to_set().subset_of(
            surviving(targets, false, anchor_dir, local, ignored).to_set(),
        ),
        surviving(targets, true, anchor_dir, local, ignored).len() <= surviving(
            targets,
            false,
            anchor_dir,
            local,
            ignored,
        ).len(),
{
    let test = unsatisfied(anchor_dir, local, ignored);
    let with = targets.filter(test);
    targets.lemma_filter_len(test);
    assert forall|name: Seq<char>| with.to_set().contains(name) implies targets.to_set().contains(
        name,
    ) by {
        assert(with.contains(name));
        targets.lemma_filter_contains_rev(test, name);
    }
}

/// A header name whose canonical path under the anchor directory is the path
/// of a local file never survives deduplication, wherever the file lies.
pub proof fn lemma_local_header_is_dropped(
    targets: Seq<Seq<char>>,
    anchor_dir: Seq<char>,
    local: Set<Seq<char>>,
    ignored: Set<Seq<char>>,
    name: Seq<char>,
)
    requires
        local.contains(canonical(name, anchor_dir)),
    ensures
        !surviving(targets, true, anchor_dir, local, ignored).contains(name),
{
    let test = unsatisfied(anchor_dir, local, ignored);
    let with = targets.filter(test);
    if with.contains(name) {
        let i = choose|i: int| 0 <= i < with.len() && with[i] == name;
        targets.lemma_filter_pred(test, i);
    }
}

/// An ignored header name never survives deduplication.
pub proof fn lemma_ignored_header_is_dropped(
    targets: Seq<Seq<char>>,
    anchor_dir: Seq<char>,
    local: Set<Seq<char>>,
    ignored: Set<Seq<char>>,
    name: Seq<char>,
)
    requires
        ignored.contains(name),
    ensures
        !surviving(targets, true, anchor_dir, local, ignored).contains(name),
{
    let test = unsatisfied(anchor_dir, local, ignored);
    let with = targets.filter(test);
    if with.contains(name) {
        let i = choose|i: int| 0 <= i < with.len() && with[i] == name;
        targets.lemma_filter_pred(test, i);
    }
}

impl FeadersFile {
    /// A file with no headers yet.
    pub fn new(path: &str) -> (r: FeadersFile)
        ensures
            r.path@ == path@,
            r.headers@.len() == 0,
    {
        FeadersFile { path: path.to_owned(), headers: Vec::new() }
    }

    /// Scans `text`, the contents of the file, and appends to the file's
    /// headers the names that survive, in the order of the text. `anchor` is
    /// the directory under which names are looked up among the local files; it
    /// is made canonical under `cwd` first. Returns the number of headers that
    /// the file then has. Where the engine refuses the directive pattern, the
    /// file is left as it was and the error is returned.
    pub fn process(
        &mut self,
        text: &str,
        dedup: bool,
        anchor: &str,
        cwd: &str,
        filters: &ImportPathFilters,
    ) -> (r: Result<usize, ScanError>)
        ensures
            final(self).path == old(self).path,
            match directive_targets(text@) {
                Some(targets) => {
                    &&& r == Ok::<usize, ScanError>(final(self).headers.len())
                    &&& views(final(self).headers@) == views(old(self).headers@) + surviving(
                        targets,
                        dedup,
                        canonical(anchor@, cwd@),
                        filters.absolute@,
                        filters.relative@,
                    )
                },
                None => r == Err::<usize, ScanError>(ScanError::Pattern) && *final(self) == *old(self),
            },
            r is Ok && !dedup ==> directive_targets(text@) is Some && views(final(self).headers@)
                == views(old(self).headers@) + directive_targets(text@).unwrap(),
            r is Ok && dedup ==> forall|i: int|
                old(self).headers.len() <= i < final(self).headers.len() ==> {
                    &&& !filters.absolute@.contains(
                        canonical((#[trigger] final(self).headers[i])@, canonical(anchor@, cwd@)),
                    )
                    &&& !filters.relative@.contains(final(self).headers[i]@)
                },
    {
        let anchor_dir = canonicalize(anchor, cwd);
        match capture_targets(directive(), text) {
            Err(e) => Err(e),
            Ok(targets) => {
                let mut kept = keep_targets(&targets, dedup, anchor_dir.as_str(), filters);
                let ghost added = views(kept@);
                let ghost test = unsatisfied(anchor_dir@, filters.absolute@, filters.relative@);
                proof {
                    if dedup {
                        assert forall|j: int| 0 <= j < added.len() implies test(#[trigger] added[j]) by {
                            views(targets@).lemma_filter_pred(test, j);
                        }
                    }
                }
                self.headers.append(&mut kept);
                assert(views(self.headers@) == views(old(self).headers@) + added);
                assert forall|i: int|
                    dedup && old(self).headers.len() <= i < self.headers.len() implies test(
                    (#[trigger] self.headers[i])@,
                ) by {
                    assert(self.headers[i]@ == added[i - old(self).headers.len()]);
                }
                Ok(self.headers.len())
            },
        }
    }
}

} // verus!
