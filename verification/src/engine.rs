//! The resolution engine: which resolver query comes next, and what an answer
//! changes.
//!
//! The engine owns the set of header names already searched and the set of
//! packages already found. It never calls a resolver: it hands out the path to
//! ask for, takes the answer, and hands back the packages that are new.

use vstd::prelude::*;
use vstd::hash_set::StringHashSet;
use vstd::string::StringExecFns;
use crate::headers::FeadersFile;
use crate::text::views;

verus! {

/// The state of the engine.
pub struct EngineState {
    /// The search prefixes, in the order in which they are tried.
    pub prefixes: Seq<Seq<char>>,
    /// The header names for which resolution was started.
    pub searched: Set<Seq<char>>,
    /// The packages reported so far.
    pub found: Set<Seq<char>>,
    /// The number of answers taken.
    pub queries: nat,
    /// The header names still to handle, the one in hand first.
    pub work: Seq<Seq<char>>,
    /// The index of the prefix whose query for the header in hand awaits its answer.
    pub asking: Option<nat>,
}

impl EngineState {
    /// A query is only ever open for a header in hand that was entered among
    /// the searched ones, under a prefix that exists.
    pub open spec fn wf(self) -> bool {
        self.asking matches Some(k) ==> self.work.len() > 0 && k < self.prefixes.len()
            && self.searched.contains(self.work[0])
    }

    /// The path that the open query asks for: the prefix followed by the header name.
    pub open spec fn query(self) -> Option<Seq<char>> {
        match self.asking {
            Some(k) => Some(self.prefixes[k as int] + self.work[0]),
            None => None,
        }
    }
}

/// The state of an engine that has seen nothing yet.
pub open spec fn initial(prefixes: Seq<Seq<char>>) -> EngineState {
    EngineState {
        prefixes,
        searched: Set::empty(),
        found: Set::empty(),
        queries: 0,
        work: Seq::empty(),
        asking: None,
    }
}

/// The state after more header names are handed in: they queue up behind the
/// work that is left.
pub open spec fn extended(s: EngineState, headers: Seq<Seq<char>>) -> EngineState {
    EngineState { work: s.work + headers, ..s }
}

/// The state once the engine has moved to its next query. Header names
/// already searched are passed over. The first one that is new is entered
/// among the searched ones, and a query under the first prefix opens for it;
/// with no prefix at all it is passed over too.
pub open spec fn settle(s: EngineState) -> EngineState
    decreases s.work.len(),
{
    if s.asking is Some || s.work.len() == 0 {
        s
    } else {
        let header = s.work[0];
        if s.searched.contains(header) {
            settle(EngineState { work: s.work.drop_first(), ..s })
        } else if s.prefixes.len() == 0 {
            settle(
                EngineState { searched: s.searched.insert(header), work: s.work.drop_first(), ..s },
            )
        } else {
            EngineState { searched: s.searched.insert(header), asking: Some(0nat), ..s }
        }
    }
}

/// The packages of an answer that are new: not found before, and each at its
/// first place in the answer only.
pub open spec fn fresh_of(found: Set<Seq<char>>, packages: Seq<Seq<char>>) -> Seq<Seq<char>>
    decreases packages.len(),
{
    if packages.len() == 0 {
        Seq::empty()
    } else {
        let init = packages.drop_last();
        let last = packages.last();
        if found.contains(last) || init.contains(last) {
            fresh_of(found, init)
        } else {
            fresh_of(found, init).push(last)
        }
    }
}

/// The state after the answer to the open query. Every package of the answer
/// counts as found. Where one of them is new, or no prefix is left, the header
/// in hand is done; else the query under the next prefix opens.
pub open spec fn absorb(s: EngineState, packages: Seq<Seq<char>>) -> EngineState
    recommends
        s.asking is Some,
{
    let k = s.asking.unwrap();
    let counted = EngineState {
        found: s.found.union(packages.to_set()),
        queries: s.queries + 1,
        ..s
    };
    if fresh_of(s.found, packages).len() > 0 || k + 1 >= s.prefixes.len() {
        EngineState { work: s.work.drop_first(), asking: None, ..counted }
    } else {
        EngineState { asking: Some(k + 1), ..counted }
    }
}

/// Each step of the engine keeps what was searched and found: moving to the
/// next query adds searched names only, an answer adds found packages and one
/// to the count.
pub proof fn lemma_steps_grow(s: EngineState, packages: Seq<Seq<char>>)
    ensures
        s.searched.subset_of(settle(s).searched),
        settle(s).found == s.found,
        settle(s).queries == s.queries,
        settle(s).prefixes == s.prefixes,
        absorb(s, packages).searched == s.searched,
        s.found.subset_of(absorb(s, packages).found),
        absorb(s, packages).queries == s.queries + 1,
    decreases s.work.len(),
{
    if s.asking is None && s.work.len() > 0 {
        let header = s.work[0];
        if s.searched.contains(header) {
            lemma_steps_grow(EngineState { work: s.work.drop_first(), ..s }, packages);
        } else if s.prefixes.len() == 0 {
            lemma_steps_grow(
                EngineState { searched: s.searched.insert(header), work: s.work.drop_first(), ..s },
                packages,
            );
        }
    }
}

/// The engine.
pub struct ResolutionEngine {
    prefixes: Vec<String>,
    searched: StringHashSet,
    found: StringHashSet,
    queries: u64,
    pending: Vec<String>,
    cursor: usize,
    asking: Option<usize>,
}

impl View for ResolutionEngine {
    type V = EngineState;

    closed spec fn view(&self) -> EngineState {
        EngineState {
            prefixes: views(self.prefixes@),
            searched: self.searched@,
            found: self.found@,
            queries: self.queries as nat,
            work: views(self.pending@).skip(self.cursor as int),
            asking: match self.asking {
                Some(k) => Some(k as nat),
                None => None,
            },
        }
    }
}

impl ResolutionEngine {
    /// The invariant of the engine.
    pub closed spec fn wf(&self) -> bool {
        self.cursor <= self.pending.len() && self@.wf()
    }

    /// The state of a well-formed engine is well formed.
    pub proof fn lemma_wf_view(&self)
        requires
            self.wf(),
        ensures
            self@.wf(),
    {
    }

    /// An engine that tries `prefixes` in their order and has seen nothing yet.
    pub fn new(prefixes: Vec<String>) -> (r: ResolutionEngine)
        ensures
            r.wf(),
            r@ == initial(views(prefixes@)),
    {
        let r = ResolutionEngine {
            prefixes,
            searched: StringHashSet::new(),
            found: StringHashSet::new(),
            queries: 0,
            pending: Vec::new(),
            cursor: 0,
            asking: None,
        };
        assert(r@.work == Seq::<Seq<char>>::empty());
        r
    }

    /// Hands in the headers of `file`: they queue up behind the work that is left.
    pub fn begin(&mut self, file: &FeadersFile)
        requires
            old(self).wf(),
        ensures
            final(self).wf(),
            final(self)@ == extended(old(self)@, views(file.headers@)),
    {
        if self.cursor == self.pending.len() {
            self.pending = Vec::new();
            self.cursor = 0;
            assert(self@.work == old(self)@.work);
        }
        let ghost start = self@;
        let mut i: usize = 0;
        assert(views(file.headers@).take(0) == Seq::<Seq<char>>::empty());
        assert(start.work + Seq::<Seq<char>>::empty() == start.work);
        while i < file.headers.len()
            invariant
                i <= file.headers.len(),
                self.wf(),
                start == old(self)@,
                self@ == extended(start, views(file.headers@).take(i as int)),
            decreases file.headers.len() - i,
        {
            let ghost before = self@.work;
            self.pending.push(file.headers[i].clone());
            proof {
                let names = views(file.headers@);
                assert(self@.work == before.push(names[i as int]));
                assert(names.take(i + 1) == names.take(i as int).push(names[i as int]));
                assert(start.work + names.take(i + 1) == (start.work + names.take(i as int)).push(
                    names[i as int],
                ));
            }
            i += 1;
        }
        assert(views(file.headers@).take(file.headers.len() as int) == views(file.headers@));
    }

    /// Moves to the next query and returns the path to ask the resolver for;
    /// `None` when no work is left. Asked again before the answer is given, it
    /// returns the same path.
    pub fn next_query(&mut self) -> (r: Option<String>)
        requires
            old(self).wf(),
        ensures
            final(self).wf(),
            final(self)@ == settle(old(self)@),
            old(self)@.searched.subset_of(final(self)@.searched),
            final(self)@.found == old(self)@.found,
            final(self)@.queries == old(self)@.queries,
            match r {
                Some(path) => final(self)@.query() == Some(path@),
                None => final(self)@.asking is None && final(self)@.work.len() == 0,
            },
    {
        proof {
            lemma_steps_grow(self@, Seq::empty());
        }
        while self.asking.is_none() && self.cursor < self.pending.len()
            invariant
                self.wf(),
                settle(self@) == settle(old(self)@),
            decreases self.pending.len() - self.cursor + (if self.asking is None { 1int } else { 0int }),
        {
            let ghost before = self@;
            let header = self.pending[self.cursor].clone();
            assert(header@ == before.work[0]);
            assert(views(self.pending@).skip(self.cursor + 1) == before.work.drop_first());
            if self.searched.contains(header.as_str()) {
                self.cursor += 1;
            } else {
                self.searched.insert(header);
                if self.prefixes.len() == 0 {
                    self.cursor += 1;
                } else {
                    self.asking = Some(0);
                }
            }
        }
        match self.asking {
            Some(k) => {
                let head = self.prefixes[k].clone();
                Some(head.concat(self.pending[self.cursor].as_str()))
            },
            None => None,
        }
    }

    /// Takes the resolver's answer to the open query and returns the packages
    /// that are new, in the order of the answer: the ones to report.
    pub fn answer(&mut self, packages: &Vec<String>) -> (r: Vec<String>)
        requires
            old(self).wf(),
            old(self)@.asking is Some,
            old(self)@.queries < u64::MAX,
        ensures
            final(self).wf(),
            final(self)@ == absorb(old(self)@, views(packages@)),
            views(r@) == fresh_of(old(self)@.found, views(packages@)),
            final(self)@.searched == old(self)@.searched,
            old(self)@.found.subset_of(final(self)@.found),
            final(self)@.queries == old(self)@.queries + 1,
    {
        let ghost start = self@;
        let ghost names = views(packages@);
        let mut fresh: Vec<String> = Vec::new();
        let mut i: usize = 0;
        proof {
            assert(names.take(0) == Seq::<Seq<char>>::empty());
            assert(views(fresh@) == Seq::<Seq<char>>::empty());
            assert(start.found.union(names.take(0).to_set()) == start.found);
        }
        while i < packages.len()
            invariant
                i <= packages.len(),
                self.wf(),
                names == views(packages@),
                start == old(self)@,
                self@ == (EngineState { found: start.found.union(names.take(i as int).to_set()), ..start }),
                views(fresh@) == fresh_of(start.found, names.take(i as int)),
            decreases packages.len() - i,
        {
            let ghost seen = names.take(i as int);
            let ghost kept = views(fresh@);
            proof {
                assert(names.take(i + 1).drop_last() == seen);
                assert(names.take(i + 1).last() == names[i as int]);
                assert(names.take(i + 1) == seen.push(names[i as int]));
                seen.lemma_push_to_set_commute(names[i as int]);
                assert(start.found.union(seen.to_set()).insert(names[i as int])
                    == start.found.union(seen.to_set().insert(names[i as int])));
            }
            if self.found.insert(packages[i].clone()) {
                fresh.push(packages[i].clone());
                assert(views(fresh@) == kept.push(names[i as int]));
            }
            i += 1;
        }
        assert(names.take(packages.len() as int) == names);
        self.queries = self.queries + 1;
        match self.asking {
            Some(k) => {
                assert(views(self.pending@).skip(self.cursor + 1) == start.work.drop_first());
                assert(views(self.prefixes@).len() == self.prefixes.len());
                assert(k < self.prefixes.len());
                if fresh.len() > 0 || k + 1 >= self.prefixes.len() {
                    self.cursor += 1;
                    self.asking = None;
                } else {
                    self.asking = Some(k + 1);
                }
            },
            None => {},
        }
        fresh
    }

    /// Whether a query awaits its answer.
    pub fn is_asking(&self) -> (r: bool)
        ensures
            r == self@.asking is Some,
    {
        self.asking.is_some()
    }

    /// Whether the counter of answers can take one more.
    pub fn can_count(&self) -> (r: bool)
        ensures
            r == (self@.queries < u64::MAX),
    {
        self.queries < u64::MAX
    }

    /// The number of answers taken.
    pub fn queries(&self) -> (r: u64)
        ensures
            r == self@.queries,
    {
        self.queries
    }

    /// Whether `package` was found.
    pub fn has_found(&self, package: &str) -> (r: bool)
        ensures
            r == self@.found.contains(package@),
    {
        self.found.contains(package)
    }

    /// The number of packages found.
    pub fn found_count(&self) -> (r: usize)
        ensures
            r == self@.found.len(),
    {
        self.found.len()
    }

    /// Whether resolution was started for `header`.
    pub fn was_searched(&self, header: &str) -> (r: bool)
        ensures
            r == self@.searched.contains(header@),
    {
        self.searched.contains(header)
    }
}

} // verus!
