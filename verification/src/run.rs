//! What a run of the resolution engine comes to, for a resolver that gives
//! each path one answer, and what holds of every such run.

use vstd::prelude::*;
use crate::engine::{absorb, extended, fresh_of, settle, EngineState};

verus! {

/// What a run has come to so far.
pub struct Tally {
    /// The header names for which resolution was started.
    pub searched: Set<Seq<char>>,
    /// The packages reported so far.
    pub found: Set<Seq<char>>,
    /// The number of resolver queries made.
    pub queries: nat,
    /// The packages printed, in the order of printing.
    pub printed: Seq<Seq<char>>,
}

/// The tally of an engine in state `s` that has printed `printed`.
pub open spec fn tally_of(s: EngineState, printed: Seq<Seq<char>>) -> Tally {
    Tally { searched: s.searched, found: s.found, queries: s.queries, printed }
}

/// The tally after `header` is tried under the prefixes from index `from` on:
/// each answer is counted and its new packages are printed, and the first
/// answer with a new package ends the trial.
pub open spec fn after_prefixes(
    prefixes: Seq<Seq<char>>,
    resolver: spec_fn(Seq<char>) -> Seq<Seq<char>>,
    header: Seq<char>,
    from: nat,
    t: Tally,
) -> Tally
    decreases prefixes.len() - from,
{
    if from >= prefixes.len() {
        t
    } else {
        let answer = resolver(prefixes[from as int] + header);
        let fresh = fresh_of(t.found, answer);
        let next = Tally {
            found: t.found.union(answer.to_set()),
            queries: t.queries + 1,
            printed: t.printed + fresh,
            ..t
        };
        if fresh.len() > 0 {
            next
        } else {
            after_prefixes(prefixes, resolver, header, from + 1, next)
        }
    }
}

/// The tally after one header name: unchanged where the name was searched
/// before, else the name is entered and tried under the prefixes.
pub open spec fn after_header(
    prefixes: Seq<Seq<char>>,
    resolver: spec_fn(Seq<char>) -> Seq<Seq<char>>,
    header: Seq<char>,
    t: Tally,
) -> Tally {
    if t.searched.contains(header) {
        t
    } else {
        after_prefixes(
            prefixes,
            resolver,
            header,
            0,
            Tally { searched: t.searched.insert(header), ..t },
        )
    }
}

/// The tally after a sequence of header names, first to last.
pub open spec fn after_headers(
    prefixes: Seq<Seq<char>>,
    resolver: spec_fn(Seq<char>) -> Seq<Seq<char>>,
    headers: Seq<Seq<char>>,
    t: Tally,
) -> Tally
    decreases headers.len(),
{
    if headers.len() == 0 {
        t
    } else {
        after_headers(
            prefixes,
            resolver,
            headers.drop_first(),
            after_header(prefixes, resolver, headers[0], t),
        )
    }
}

/// The tally that an engine in state `s`, having printed `printed`, ends with
/// when every query is answered by `resolver` and the work runs out.
pub open spec fn outcome(
    s: EngineState,
    printed: Seq<Seq<char>>,
    resolver: spec_fn(Seq<char>) -> Seq<Seq<char>>,
) -> Tally {
    match s.asking {
        Some(k) => after_headers(
            s.prefixes,
            resolver,
            s.work.drop_first(),
            after_prefixes(s.prefixes, resolver, s.work[0], k, tally_of(s, printed)),
        ),
        None => after_headers(s.prefixes, resolver, s.work, tally_of(s, printed)),
    }
}

/// Moving to the next query keeps the engine well formed and does not change
/// what the run comes to.
pub proof fn lemma_settle_keeps_outcome(
    s: EngineState,
    printed: Seq<Seq<char>>,
    resolver: spec_fn(Seq<char>) -> Seq<Seq<char>>,
)
    requires
        s.wf(),
    ensures
        settle(s).wf(),
        settle(s).asking is None ==> settle(s).work.len() == 0,
        outcome(settle(s), printed, resolver) == outcome(s, printed, resolver),
    decreases s.work.len(),
{
    if s.asking is None && s.work.len() > 0 {
        let header = s.work[0];
        let t = tally_of(s, printed);
        if s.searched.contains(header) {
            let rest = EngineState { work: s.work.drop_first(), ..s };
            lemma_settle_keeps_outcome(rest, printed, resolver);
            assert(tally_of(rest, printed) == after_header(s.prefixes, resolver, header, t));
        } else if s.prefixes.len() == 0 {
            let rest = EngineState {
                searched: s.searched.insert(header),
                work: s.work.drop_first(),
                ..s
            };
            lemma_settle_keeps_outcome(rest, printed, resolver);
            assert(tally_of(rest, printed) == after_header(s.prefixes, resolver, header, t));
        } else {
            let open = EngineState { searched: s.searched.insert(header), asking: Some(0nat), ..s };
            assert(tally_of(open, printed) == (Tally { searched: t.searched.insert(header), ..t }));
        }
    }
}

/// Taking the resolver's answer to the open query keeps the engine well
/// formed, and the run comes to the same once the new packages are printed.
pub proof fn lemma_absorb_keeps_outcome(
    s: EngineState,
    printed: Seq<Seq<char>>,
    resolver: spec_fn(Seq<char>) -> Seq<Seq<char>>,
)
    requires
        s.wf(),
        s.asking is Some,
    ensures
        absorb(s, resolver(s.query().unwrap())).wf(),
        outcome(
            absorb(s, resolver(s.query().unwrap())),
            printed + fresh_of(s.found, resolver(s.query().unwrap())),
            resolver,
        ) == outcome(s, printed, resolver),
{
    let k = s.asking.unwrap();
    let answer = resolver(s.query().unwrap());
    let fresh = fresh_of(s.found, answer);
    let t = tally_of(s, printed);
    let next = Tally {
        found: t.found.union(answer.to_set()),
        queries: t.queries + 1,
        printed: t.printed + fresh,
        ..t
    };
    let after = absorb(s, answer);
    assert(tally_of(after, printed + fresh) == next);
    if fresh.len() == 0 && k + 1 >= s.prefixes.len() {
        assert(after_prefixes(s.prefixes, resolver, s.work[0], k + 1, next) == next);
    }
}

/// With no work left and no query open, the run has come to its end.
pub proof fn lemma_idle_outcome(
    s: EngineState,
    printed: Seq<Seq<char>>,
    resolver: spec_fn(Seq<char>) -> Seq<Seq<char>>,
)
    requires
        s.asking is None,
        s.work.len() == 0,
    ensures
        outcome(s, printed, resolver) == tally_of(s, printed),
{
}

/// Header names handed over in two parts come to the same as in one.
pub proof fn lemma_after_headers_concat(
    prefixes: Seq<Seq<char>>,
    resolver: spec_fn(Seq<char>) -> Seq<Seq<char>>,
    a: Seq<Seq<char>>,
    b: Seq<Seq<char>>,
    t: Tally,
)
    ensures
        after_headers(prefixes, resolver, a + b, t) == after_headers(
            prefixes,
            resolver,
            b,
            after_headers(prefixes, resolver, a, t),
        ),
    decreases a.len(),
{
    if a.len() == 0 {
        assert(a + b == b);
    } else {
        assert((a + b).drop_first() == a.drop_first() + b);
        assert((a + b)[0] == a[0]);
        lemma_after_headers_concat(
            prefixes,
            resolver,
            a.drop_first(),
            b,
            after_header(prefixes, resolver, a[0], t),
        );
    }
}

/// Handing in more header names lets the run go on with them where it would
/// have ended.
pub proof fn lemma_extended_outcome(
    s: EngineState,
    headers: Seq<Seq<char>>,
    printed: Seq<Seq<char>>,
    resolver: spec_fn(Seq<char>) -> Seq<Seq<char>>,
)
    requires
        s.wf(),
    ensures
        extended(s, headers).wf(),
        outcome(extended(s, headers), printed, resolver) == after_headers(
            s.prefixes,
            resolver,
            headers,
            outcome(s, printed, resolver),
        ),
{
    let t = tally_of(s, printed);
    assert(tally_of(extended(s, headers), printed) == t);
    match s.asking {
        Some(k) => {
            assert((s.work + headers).drop_first() == s.work.drop_first() + headers);
            assert((s.work + headers)[0] == s.work[0]);
            lemma_after_headers_concat(
                s.prefixes,
                resolver,
                s.work.drop_first(),
                headers,
                after_prefixes(s.prefixes, resolver, s.work[0], k, t),
            );
        },
        None => {
            lemma_after_headers_concat(s.prefixes, resolver, s.work, headers, t);
        },
    }
}

/// The new packages of an answer are the packages of the answer that were not
/// found before, each of them once.
pub proof fn lemma_fresh_of(found: Set<Seq<char>>, packages: Seq<Seq<char>>)
    ensures
        fresh_of(found, packages).no_duplicates(),
        forall|p: Seq<char>| #[trigger]
            fresh_of(found, packages).contains(p) <==> packages.contains(p) && !found.contains(p),
    decreases packages.len(),
{
    if packages.len() > 0 {
        let init = packages.drop_last();
        let last = packages.last();
        lemma_fresh_of(found, init);
        let sub = fresh_of(found, init);
        let all = fresh_of(found, packages);
        assert(packages == init.push(last));
        assert forall|p: Seq<char>| packages.contains(p) <==> init.contains(p) || p == last by {
            if packages.contains(p) {
                let i = choose|i: int| 0 <= i < packages.len() && packages[i] == p;
                if i < init.len() {
                    assert(init[i] == p);
                }
            }
            if init.contains(p) {
                let i = choose|i: int| 0 <= i < init.len() && init[i] == p;
                assert(packages[i] == p);
            }
            assert(packages[packages.len() - 1] == last);
        }
        if !(found.contains(last) || init.contains(last)) {
            assert(all == sub.push(last));
            assert forall|p: Seq<char>| all.contains(p) <==> sub.contains(p) || p == last by {
                if all.contains(p) {
                    let i = choose|i: int| 0 <= i < all.len() && all[i] == p;
                    if i < sub.len() {
                        assert(sub[i] == p);
                    }
                }
                if sub.contains(p) {
                    let i = choose|i: int| 0 <= i < sub.len() && sub[i] == p;
                    assert(all[i] == p);
                }
                assert(all[all.len() - 1] == last);
            }
            assert(!sub.contains(last));
            assert forall|i: int, j: int| 0 <= i < all.len() && 0 <= j < all.len() && i != j implies all[i]
                != all[j] by {
                if i < sub.len() && j < sub.len() {
                    assert(sub[i] != sub[j]);
                } else if i < sub.len() {
                    assert(sub.contains(sub[i]));
                } else {
                    assert(sub.contains(sub[j]));
                }
            }
        }
    }
}

/// An answer has no new package exactly when all of its packages were found before.
pub proof fn lemma_fresh_is_empty(found: Set<Seq<char>>, packages: Seq<Seq<char>>)
    ensures
        fresh_of(found, packages).len() == 0 <==> packages.to_set().subset_of(found),
        found.union(packages.to_set()) == found.union(fresh_of(found, packages).to_set()),
{
    lemma_fresh_of(found, packages);
    let fresh = fresh_of(found, packages);
    if fresh.len() > 0 {
        assert(fresh.contains(fresh[0]));
        assert(packages.to_set().contains(fresh[0]));
    }
    if !packages.to_set().subset_of(found) {
        let p = choose|p: Seq<char>| packages.to_set().contains(p) && !found.contains(p);
        assert(fresh.contains(p));
    }
    assert(found.union(packages.to_set()) =~= found.union(fresh.to_set()));
}

/// Trying a header under the prefixes leaves the searched names as they are;
/// the found packages, the count of queries and the printed packages only grow.
pub proof fn lemma_after_prefixes_grows(
    prefixes: Seq<Seq<char>>,
    resolver: spec_fn(Seq<char>) -> Seq<Seq<char>>,
    header: Seq<char>,
    from: nat,
    t: Tally,
)
    ensures
        after_prefixes(prefixes, resolver, header, from, t).searched == t.searched,
        t.found.subset_of(after_prefixes(prefixes, resolver, header, from, t).found),
        t.queries <= after_prefixes(prefixes, resolver, header, from, t).queries,
        t.printed.is_prefix_of(after_prefixes(prefixes, resolver, header, from, t).printed),
    decreases prefixes.len() - from,
{
    if from < prefixes.len() {
        let answer = resolver(prefixes[from as int] + header);
        let fresh = fresh_of(t.found, answer);
        let next = Tally {
            found: t.found.union(answer.to_set()),
            queries: t.queries + 1,
            printed: t.printed + fresh,
            ..t
        };
        assert(t.printed.is_prefix_of(next.printed));
        if fresh.len() == 0 {
            lemma_after_prefixes_grows(prefixes, resolver, header, from + 1, next);
        }
    }
}

/// Over a run the searched names only grow, and so do the found packages, the
/// count of queries and the printed packages; every header name handed in is
/// among the searched ones at the end.
pub proof fn lemma_run_grows(
    prefixes: Seq<Seq<char>>,
    resolver: spec_fn(Seq<char>) -> Seq<Seq<char>>,
    headers: Seq<Seq<char>>,
    t: Tally,
)
    ensures
        after_headers(prefixes, resolver, headers, t).searched == t.searched.union(headers.to_set()),
        t.found.subset_of(after_headers(prefixes, resolver, headers, t).found),
        t.queries <= after_headers(prefixes, resolver, headers, t).queries,
        t.printed.is_prefix_of(after_headers(prefixes, resolver, headers, t).printed),
    decreases headers.len(),
{
    if headers.len() == 0 {
        assert(t.searched.union(headers.to_set()) =~= t.searched);
    } else {
        let header = headers[0];
        let rest = headers.drop_first();
        let entered = Tally { searched: t.searched.insert(header), ..t };
        let first = after_header(prefixes, resolver, header, t);
        lemma_after_prefixes_grows(prefixes, resolver, header, 0, entered);
        lemma_run_grows(prefixes, resolver, rest, first);
        assert(headers == seq![header] + rest);
        lemma_first_or_rest(headers);
        assert(first.searched.union(rest.to_set()) =~= t.searched.union(headers.to_set()));
    }
}

/// A name occurs in a sequence exactly when it is the first one or occurs
/// among the others.
pub proof fn lemma_first_or_rest(headers: Seq<Seq<char>>)
    requires
        headers.len() > 0,
    ensures
        forall|h: Seq<char>| #[trigger]
            headers.contains(h) <==> h == headers[0] || headers.drop_first().contains(h),
{
    let rest = headers.drop_first();
    assert forall|h: Seq<char>| #[trigger]
        headers.contains(h) <==> h == headers[0] || rest.contains(h) by {
        if headers.contains(h) {
            let i = choose|i: int| 0 <= i < headers.len() && headers[i] == h;
            if i > 0 {
                assert(rest[i - 1] == h);
            }
        }
        if rest.contains(h) {
            let i = choose|i: int| 0 <= i < rest.len() && rest[i] == h;
            assert(headers[i + 1] == h);
        }
    }
}

/// A header name sets off resolver queries at most once in a run: once it was
/// handled, handling it again, whatever was handled in between, changes
/// nothing and asks nothing.
pub proof fn lemma_header_resolved_once(
    prefixes: Seq<Seq<char>>,
    resolver: spec_fn(Seq<char>) -> Seq<Seq<char>>,
    header: Seq<char>,
    between: Seq<Seq<char>>,
    t: Tally,
)
    ensures
        after_header(prefixes, resolver, header, t).searched.contains(header),
        ({
            let later = after_headers(
                prefixes,
                resolver,
                between,
                after_header(prefixes, resolver, header, t),
            );
            after_header(prefixes, resolver, header, later) == later
        }),
{
    let entered = Tally { searched: t.searched.insert(header), ..t };
    lemma_after_prefixes_grows(prefixes, resolver, header, 0, entered);
    lemma_run_grows(prefixes, resolver, between, after_header(prefixes, resolver, header, t));
}

/// Whether every package found beyond those of `base` was printed, once.
pub open spec fn printed_once(t: Tally, base: Set<Seq<char>>) -> bool {
    &&& t.printed.no_duplicates()
    &&& t.found == base.union(t.printed.to_set())
    &&& base.disjoint(t.printed.to_set())
}

/// A name occurs in two sequences put together exactly when it occurs in one of them.
pub proof fn lemma_concat_contains(a: Seq<Seq<char>>, b: Seq<Seq<char>>)
    ensures
        forall|p: Seq<char>| #[trigger] (a + b).contains(p) <==> a.contains(p) || b.contains(p),
{
    assert forall|p: Seq<char>| #[trigger] (a + b).contains(p) <==> a.contains(p) || b.contains(p) by {
        if (a + b).contains(p) {
            let i = choose|i: int| 0 <= i < (a + b).len() && (a + b)[i] == p;
            if i < a.len() {
                assert(a[i] == p);
            } else {
                assert(b[i - a.len()] == p);
            }
        }
        if a.contains(p) {
            let i = choose|i: int| 0 <= i < a.len() && a[i] == p;
            assert((a + b)[i] == p);
        }
        if b.contains(p) {
            let i = choose|i: int| 0 <= i < b.len() && b[i] == p;
            assert((a + b)[a.len() + i] == p);
        }
    }
}

/// Trying a header under the prefixes prints each newly found package once.
pub proof fn lemma_after_prefixes_prints_once(
    prefixes: Seq<Seq<char>>,
    resolver: spec_fn(Seq<char>) -> Seq<Seq<char>>,
    header: Seq<char>,
    from: nat,
    t: Tally,
    base: Set<Seq<char>>,
)
    requires
        printed_once(t, base),
    ensures
        printed_once(after_prefixes(prefixes, resolver, header, from, t), base),
    decreases prefixes.len() - from,
{
    if from < prefixes.len() {
        let answer = resolver(prefixes[from as int] + header);
        let fresh = fresh_of(t.found, answer);
        let next = Tally {
            found: t.found.union(answer.to_set()),
            queries: t.queries + 1,
            printed: t.printed + fresh,
            ..t
        };
        lemma_fresh_of(t.found, answer);
        lemma_fresh_is_empty(t.found, answer);
        lemma_concat_contains(t.printed, fresh);
        assert forall|i: int, j: int| 0 <= i < t.printed.len() && 0 <= j < fresh.len() implies t.printed[i]
            != fresh[j] by {
            assert(t.printed.to_set().contains(t.printed[i]));
            assert(fresh.contains(fresh[j]));
        }
        vstd::seq_lib::lemma_no_dup_in_concat(t.printed, fresh);
        assert(next.printed.to_set() =~= t.printed.to_set().union(fresh.to_set()));
        assert(next.found =~= base.union(next.printed.to_set()));
        assert(base.disjoint(next.printed.to_set())) by {
            assert forall|p: Seq<char>| base.contains(p) implies !next.printed.to_set().contains(p) by {
                if fresh.contains(p) {
                    assert(!t.found.contains(p));
                }
            }
        }
        if fresh.len() == 0 {
            lemma_after_prefixes_prints_once(prefixes, resolver, header, from + 1, next, base);
        }
    }
}

/// Over a run no package is found twice, and each package found is printed
/// exactly once: where this held of the packages found beyond `base` before
/// the run, it holds of them after it.
pub proof fn lemma_run_prints_once(
    prefixes: Seq<Seq<char>>,
    resolver: spec_fn(Seq<char>) -> Seq<Seq<char>>,
    headers: Seq<Seq<char>>,
    t: Tally,
    base: Set<Seq<char>>,
)
    requires
        printed_once(t, base),
    ensures
        printed_once(after_headers(prefixes, resolver, headers, t), base),
    decreases headers.len(),
{
    if headers.len() > 0 {
        let header = headers[0];
        let entered = Tally { searched: t.searched.insert(header), ..t };
        lemma_after_prefixes_prints_once(prefixes, resolver, header, 0, entered, base);
        lemma_run_prints_once(
            prefixes,
            resolver,
            headers.drop_first(),
            after_header(prefixes, resolver, header, t),
            base,
        );
    }
}

/// The answer of `resolver` for `header` under the prefix at index `i`.
pub open spec fn answer_at(
    prefixes: Seq<Seq<char>>,
    resolver: spec_fn(Seq<char>) -> Seq<Seq<char>>,
    header: Seq<char>,
    i: int,
) -> Seq<Seq<char>> {
    resolver(prefixes[i] + header)
}

/// Whether the prefix at index `i` is the first under which the answer for
/// `header` holds a package.
pub open spec fn is_first_hit(
    prefixes: Seq<Seq<char>>,
    resolver: spec_fn(Seq<char>) -> Seq<Seq<char>>,
    header: Seq<char>,
    i: int,
) -> bool {
    &&& 0 <= i < prefixes.len()
    &&& answer_at(prefixes, resolver, header, i).len() > 0
    &&& forall|m: int| 0 <= m < i ==> (#[trigger] answer_at(prefixes, resolver, header, m)).len() == 0
}

/// Whether the first prefix with an answer for `header` settles it: no later
/// prefix answers with a package that the first answer lacks.
pub open spec fn settled_by_first_hit(
    prefixes: Seq<Seq<char>>,
    resolver: spec_fn(Seq<char>) -> Seq<Seq<char>>,
    header: Seq<char>,
) -> bool {
    forall|i: int, j: int|
        #![trigger is_first_hit(prefixes, resolver, header, i), answer_at(prefixes, resolver, header, j)]
        is_first_hit(prefixes, resolver, header, i) && i < j < prefixes.len() ==> answer_at(
            prefixes,
            resolver,
            header,
            j,
        ).to_set().subset_of(answer_at(prefixes, resolver, header, i).to_set())
}

/// The packages of the first answer for `header` that holds any, among the
/// prefixes from index `from` on.
pub open spec fn gain(
    prefixes: Seq<Seq<char>>,
    resolver: spec_fn(Seq<char>) -> Seq<Seq<char>>,
    header: Seq<char>,
    from: nat,
) -> Set<Seq<char>>
    decreases prefixes.len() - from,
{
    if from >= prefixes.len() {
        Set::empty()
    } else if answer_at(prefixes, resolver, header, from as int).len() > 0 {
        answer_at(prefixes, resolver, header, from as int).to_set()
    } else {
        gain(prefixes, resolver, header, from + 1)
    }
}

/// Whether `header` is one of `headers`, was not searched, and gains `package`.
pub open spec fn gives(
    prefixes: Seq<Seq<char>>,
    resolver: spec_fn(Seq<char>) -> Seq<Seq<char>>,
    headers: Seq<Seq<char>>,
    searched: Set<Seq<char>>,
    header: Seq<char>,
    package: Seq<char>,
) -> bool {
    headers.contains(header) && !searched.contains(header) && gain(
        prefixes,
        resolver,
        header,
        0,
    ).contains(package)
}

/// The packages gained by the header names of `headers` that were not searched.
pub open spec fn gains(
    prefixes: Seq<Seq<char>>,
    resolver: spec_fn(Seq<char>) -> Seq<Seq<char>>,
    headers: Seq<Seq<char>>,
    searched: Set<Seq<char>>,
) -> Set<Seq<char>> {
    Set::new(
        |p: Seq<char>|
            exists|h: Seq<char>| #[trigger] gives(prefixes, resolver, headers, searched, h, p),
    )
}

/// Behind a first answer whose packages are all found, the later prefixes add nothing.
pub proof fn lemma_later_prefixes_add_nothing(
    prefixes: Seq<Seq<char>>,
    resolver: spec_fn(Seq<char>) -> Seq<Seq<char>>,
    header: Seq<char>,
    hit: int,
    from: nat,
    t: Tally,
)
    requires
        settled_by_first_hit(prefixes, resolver, header),
        is_first_hit(prefixes, resolver, header, hit),
        hit < from,
        answer_at(prefixes, resolver, header, hit).to_set().subset_of(t.found),
    ensures
        after_prefixes(prefixes, resolver, header, from, t).found == t.found,
    decreases prefixes.len() - from,
{
    if from < prefixes.len() {
        let answer = answer_at(prefixes, resolver, header, from as int);
        assert(answer.to_set().subset_of(answer_at(prefixes, resolver, header, hit).to_set()));
        lemma_fresh_is_empty(t.found, answer);
        let next = Tally {
            found: t.found.union(answer.to_set()),
            queries: t.queries + 1,
            printed: t.printed + fresh_of(t.found, answer),
            ..t
        };
        assert(next.found =~= t.found);
        lemma_later_prefixes_add_nothing(prefixes, resolver, header, hit, from + 1, next);
    }
}

/// Where the first answer settles a header, trying it adds the packages of
/// that answer to the found ones, whatever was found before.
pub proof fn lemma_found_after_prefixes(
    prefixes: Seq<Seq<char>>,
    resolver: spec_fn(Seq<char>) -> Seq<Seq<char>>,
    header: Seq<char>,
    from: nat,
    t: Tally,
)
    requires
        settled_by_first_hit(prefixes, resolver, header),
        forall|m: int| 0 <= m < from ==> (#[trigger] answer_at(prefixes, resolver, header, m)).len() == 0,
    ensures
        after_prefixes(prefixes, resolver, header, from, t).found == t.found.union(
            gain(prefixes, resolver, header, from),
        ),
    decreases prefixes.len() - from,
{
    if from >= prefixes.len() {
        assert(t.found.union(Set::<Seq<char>>::empty()) =~= t.found);
    } else {
        let answer = answer_at(prefixes, resolver, header, from as int);
        let fresh = fresh_of(t.found, answer);
        lemma_fresh_is_empty(t.found, answer);
        let next = Tally {
            found: t.found.union(answer.to_set()),
            queries: t.queries + 1,
            printed: t.printed + fresh,
            ..t
        };
        if answer.len() == 0 {
            assert(answer.to_set() =~= Set::<Seq<char>>::empty());
            assert(next.found =~= t.found);
            lemma_found_after_prefixes(prefixes, resolver, header, from + 1, next);
        } else if fresh.len() == 0 {
            assert(is_first_hit(prefixes, resolver, header, from as int));
            assert(next.found =~= t.found);
            lemma_later_prefixes_add_nothing(
                prefixes,
                resolver,
                header,
                from as int,
                from + 1,
                next,
            );
        }
    }
}

/// Where the first answer settles every header name of a run, the packages
/// found at its end are those found before and those gained by the header
/// names not searched before.
pub proof fn lemma_found_after_headers(
    prefixes: Seq<Seq<char>>,
    resolver: spec_fn(Seq<char>) -> Seq<Seq<char>>,
    headers: Seq<Seq<char>>,
    t: Tally,
)
    requires
        forall|h: Seq<char>| headers.contains(h) ==> settled_by_first_hit(prefixes, resolver, h),
    ensures
        after_headers(prefixes, resolver, headers, t).found == t.found.union(
            gains(prefixes, resolver, headers, t.searched),
        ),
    decreases headers.len(),
{
    let all = gains(prefixes, resolver, headers, t.searched);
    if headers.len() == 0 {
        assert forall|p: Seq<char>| !all.contains(p) by {
            assert forall|h: Seq<char>| !gives(prefixes, resolver, headers, t.searched, h, p) by {}
        }
        assert(t.found.union(all) =~= t.found);
    } else {
        let header = headers[0];
        let rest = headers.drop_first();
        let entered = Tally { searched: t.searched.insert(header), ..t };
        let first = after_header(prefixes, resolver, header, t);
        lemma_first_or_rest(headers);
        assert(headers.contains(header));
        lemma_after_prefixes_grows(prefixes, resolver, header, 0, entered);
        if !t.searched.contains(header) {
            lemma_found_after_prefixes(prefixes, resolver, header, 0, entered);
        }
        assert forall|h: Seq<char>| rest.contains(h) implies settled_by_first_hit(
            prefixes,
            resolver,
            h,
        ) by {
            assert(headers.contains(h));
        }
        lemma_found_after_headers(prefixes, resolver, rest, first);
        let later = gains(prefixes, resolver, rest, first.searched);
        assert forall|p: Seq<char>| first.found.union(later).contains(p) <==> t.found.union(
            all,
        ).contains(p) by {
            if later.contains(p) {
                let h = choose|h: Seq<char>| gives(prefixes, resolver, rest, first.searched, h, p);
                assert(gives(prefixes, resolver, headers, t.searched, h, p));
            }
            if first.found.contains(p) && !t.found.contains(p) {
                assert(gives(prefixes, resolver, headers, t.searched, header, p));
            }
            if all.contains(p) {
                let h = choose|h: Seq<char>| gives(prefixes, resolver, headers, t.searched, h, p);
                if h != header {
                    assert(gives(prefixes, resolver, rest, first.searched, h, p));
                }
            }
        }
        assert(first.found.union(later) =~= t.found.union(all));
    }
}

/// The packages found at the end of a run do not depend on the order in which
/// the header names arrive, nor on how often each arrives: two runs from the
/// same tally over the same set of header names find the same packages and
/// have searched the same names, provided that the first answer settles each
/// header name.
pub proof fn lemma_found_is_order_free(
    prefixes: Seq<Seq<char>>,
    resolver: spec_fn(Seq<char>) -> Seq<Seq<char>>,
    one: Seq<Seq<char>>,
    other: Seq<Seq<char>>,
    t: Tally,
)
    requires
        one.to_set() == other.to_set(),
        forall|h: Seq<char>| one.contains(h) ==> settled_by_first_hit(prefixes, resolver, h),
    ensures
        after_headers(prefixes, resolver, one, t).found == after_headers(
            prefixes,
            resolver,
            other,
            t,
        ).found,
        after_headers(prefixes, resolver, one, t).searched == after_headers(
            prefixes,
            resolver,
            other,
            t,
        ).searched,
{
    assert forall|h: Seq<char>| one.contains(h) <==> other.contains(h) by {
        assert(one.to_set().contains(h) == one.contains(h));
        assert(other.to_set().contains(h) == other.contains(h));
    }
    lemma_found_after_headers(prefixes, resolver, one, t);
    lemma_found_after_headers(prefixes, resolver, other, t);
    lemma_run_grows(prefixes, resolver, one, t);
    lemma_run_grows(prefixes, resolver, other, t);
    let a = gains(prefixes, resolver, one, t.searched);
    let b = gains(prefixes, resolver, other, t.searched);
    assert forall|p: Seq<char>| a.contains(p) <==> b.contains(p) by {
        if a.contains(p) {
            let h = choose|h: Seq<char>| gives(prefixes, resolver, one, t.searched, h, p);
            assert(gives(prefixes, resolver, other, t.searched, h, p));
        }
        if b.contains(p) {
            let h = choose|h: Seq<char>| gives(prefixes, resolver, other, t.searched, h, p);
            assert(gives(prefixes, resolver, one, t.searched, h, p));
        }
    }
    assert(a =~= b);
}

} // verus!
