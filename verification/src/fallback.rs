//! The fallback search: which source serves a request when the one that
//! resolution gave is unavailable.
//!
//! The search asks whether its candidate is available. An available
//! candidate serves the request. For an unavailable one the names of its
//! fallback list are tried in order: each is looked up in the bucket of the
//! source that holds the list, resolution starts from the source found, and
//! the source that this gives is the next candidate. When a list is used up
//! the search returns to the top with the candidate it has, at most
//! [`MAX_ATTEMPTS`] times; then that candidate serves the request, available
//! or not.

use vstd::prelude::*;

use crate::config::source::Source;
use crate::util::route::{
    in_table, lemma_resolve_from_in_table, lemma_resolve_never_lacks_fallback, resolve_from,
    resolve_from_index, rewrite_outcome, Resolution, Resolved, RouteError,
};
use crate::util::table::{
    all_known, bucket_closed, fallbacks_closed, well_formed, BucketModel, Routes,
};
use crate::util::text::{index_of, lemma_index_of};
use crate::util::url::dec::{decode_or_keep, decoded_or_same};

verus! {

/// How many times the fallback search returns to the top: the candidate's
/// availability is asked, and if it is unavailable its fallback list is
/// walked.
pub const MAX_ATTEMPTS: usize = 10;

// ---------------------------------------------------------------------------
// The fallback search, as a machine that is fed availability answers

/// The fallback search at the moment it waits to learn whether `candidate`
/// is available.
pub struct SearchModel {
    /// The source under examination and the path it would get.
    pub candidate: Resolution,
    /// How many times the search has returned to the top before.
    pub attempts: nat,
    /// The source whose fallback list is being walked, by bucket and index;
    /// `None` when the candidate was reached from the top.
    pub origin: Option<(int, int)>,
    /// The index, in that list, of the next name to try.
    pub next: nat,
}

/// What the search does on an answer.
pub enum Move {
    /// The search is over, with this outcome.
    Done(Result<Resolution, RouteError>),
    /// The availability of the new state's candidate is to be asked.
    Probe(SearchModel),
}

/// The search as it begins: the resolved source is the first candidate.
pub open spec fn search_start(first: Resolution) -> SearchModel {
    SearchModel { candidate: first, attempts: 0, origin: None, next: 0 }
}

/// The next move while walking the fallback list of `(bucket, source)`:
/// the next name is looked up in the same bucket and resolution starts
/// from the source it names, with the candidate's path; a missing name and
/// a failed resolution end the search with an error. At the end of the
/// list the search returns to the top, unless it has done so
/// `MAX_ATTEMPTS` times: then the candidate at hand is the outcome.
pub open spec fn walk(
    table: Seq<BucketModel>,
    key: Seq<char>,
    st: SearchModel,
    bucket: int,
    source: int,
    next: nat,
) -> Move {
    let names = table[bucket].sources[source].fallback;
    if next < names.len() {
        match index_of(table[bucket].names, names[next as int]) {
            None => Move::Done(Err(RouteError::FallbackNotFound)),
            Some(target) => match resolve_from(table, key, st.candidate.uri, 0, bucket, target) {
                Err(e) => Move::Done(Err(e)),
                Ok(found) => Move::Probe(
                    SearchModel {
                        candidate: found,
                        attempts: st.attempts,
                        origin: Some((bucket, source)),
                        next: next + 1,
                    },
                ),
            },
        }
    } else if st.attempts + 1 >= MAX_ATTEMPTS {
        Move::Done(Ok(st.candidate))
    } else {
        Move::Probe(
            SearchModel {
                candidate: st.candidate,
                attempts: st.attempts + 1,
                origin: None,
                next: 0,
            },
        )
    }
}

/// The move on learning whether the candidate is available. An available
/// candidate is the outcome. An unavailable one reached from the top has
/// its own fallback list walked from the start; one reached from a
/// fallback list has that list walked on.
#[verifier::opaque]
pub open spec fn search_step(
    table: Seq<BucketModel>,
    key: Seq<char>,
    st: SearchModel,
    available: bool,
) -> Move {
    if available {
        Move::Done(Ok(st.candidate))
    } else {
        match st.origin {
            None => walk(table, key, st, st.candidate.bucket, st.candidate.source, 0),
            Some((bucket, source)) => walk(table, key, st, bucket, source, st.next),
        }
    }
}

/// The outcome of the search from `st` when the availability questions
/// are answered, in the order in which they are asked, by `answers`;
/// `None` if the answers run out before the search is over.
pub open spec fn search_run(
    table: Seq<BucketModel>,
    key: Seq<char>,
    st: SearchModel,
    answers: Seq<bool>,
) -> Option<Result<Resolution, RouteError>>
    decreases answers.len(),
{
    if answers.len() == 0 {
        None
    } else {
        match search_step(table, key, st, answers[0]) {
            Move::Done(outcome) => Some(outcome),
            Move::Probe(next) => search_run(table, key, next, answers.skip(1)),
        }
    }
}

/// Whether a state of the search points into the table.
pub open spec fn search_wf(table: Seq<BucketModel>, st: SearchModel) -> bool {
    &&& in_table(table, st.candidate)
    &&& st.origin matches Some((bucket, source)) ==> in_table(
        table,
        Resolution { bucket, source, uri: Seq::empty() },
    )
}

/// The fallback search at the moment it waits to learn whether its
/// candidate is available.
pub struct SearchState {
    pub candidate: Resolved,
    pub attempts: usize,
    pub origin: Option<(usize, usize)>,
    pub next: usize,
}

impl View for SearchState {
    type V = SearchModel;

    open spec fn view(&self) -> SearchModel {
        SearchModel {
            candidate: self.candidate@,
            attempts: self.attempts as nat,
            origin: match self.origin {
                Some((b, s)) => Some((b as int, s as int)),
                None => None,
            },
            next: self.next as nat,
        }
    }
}

/// What the search does on an answer.
pub enum SearchMove {
    Done(Result<Resolved, RouteError>),
    Probe(SearchState),
}

impl View for SearchMove {
    type V = Move;

    open spec fn view(&self) -> Move {
        match self {
            SearchMove::Done(Ok(found)) => Move::Done(Ok(found@)),
            SearchMove::Done(Err(e)) => Move::Done(Err(*e)),
            SearchMove::Probe(st) => Move::Probe(st@),
        }
    }
}

impl SearchState {
    /// The search as it begins.
    pub fn start(first: Resolved) -> (st: SearchState)
        ensures
            st@ == search_start(first@),
            st.candidate == first,
    {
        SearchState { candidate: first, attempts: 0, origin: None, next: 0 }
    }

    /// The source whose availability is to be asked.
    pub fn source<'a>(&self, routes: &'a Routes) -> (r: &'a Source)
        requires
            in_table(routes@, self@.candidate),
        ensures
            *r == routes.buckets[self.candidate.bucket as int].sources[self.candidate.source as int].1,
    {
        &routes.buckets[self.candidate.bucket].sources[self.candidate.source].1
    }

    /// The move on learning whether the candidate is available, for a
    /// request of the host `key` (in lower case).
    pub fn step(self, routes: &Routes, key: &str, available: bool) -> (r: SearchMove)
        requires
            search_wf(routes@, self@),
        ensures
            r@ == search_step(routes@, key@, self@, available),
            available ==> r@ == Move::Done(Ok(self@.candidate)),
            r matches SearchMove::Probe(st) ==> search_wf(routes@, st@),
            r matches SearchMove::Done(Ok(found)) ==> in_table(routes@, found@),
    {
        reveal(search_step);
        if available {
            return SearchMove::Done(Ok(self.candidate));
        }
        let (bucket, source, next): (usize, usize, usize) = match self.origin {
            None => (self.candidate.bucket, self.candidate.source, 0),
            Some((b, s)) => (b, s, self.next),
        };
        let names = routes.buckets[bucket].sources[source].1.fallback_as_ref();
        assert(routes@[bucket as int].sources[source as int].fallback.len() == names.len());
        if next < names.len() {
            assert(routes@[bucket as int].sources[source as int].fallback[next as int]
                == names[next as int]@);
            match routes.source_index(bucket, names[next].as_str()) {
                None => SearchMove::Done(Err(RouteError::FallbackNotFound)),
                Some(target) => {
                    match resolve_from_index(
                        routes,
                        key,
                        self.candidate.uri.as_str(),
                        0,
                        bucket,
                        target,
                    ) {
                        Err(e) => SearchMove::Done(Err(e)),
                        Ok(found) => SearchMove::Probe(
                            SearchState {
                                candidate: found,
                                attempts: self.attempts,
                                origin: Some((bucket, source)),
                                next: next + 1,
                            },
                        ),
                    }
                },
            }
        } else if self.attempts >= MAX_ATTEMPTS - 1 {
            SearchMove::Done(Ok(self.candidate))
        } else {
            SearchMove::Probe(
                SearchState {
                    candidate: self.candidate,
                    attempts: self.attempts + 1,
                    origin: None,
                    next: 0,
                },
            )
        }
    }
}


// ---------------------------------------------------------------------------
// The fallback search, run against a prober

/// The outcome of a search, as a mathematical value.
pub open spec fn outcome_view(r: Result<Resolved, RouteError>) -> Result<Resolution, RouteError> {
    match r {
        Ok(found) => Ok(found@),
        Err(e) => Err(e),
    }
}

/// Whether the prober `probe`, asked about the candidate of `st`,
/// may have given `answer`. The prober is handed the candidate's source
/// and its path in decoded form.
pub open spec fn answered<F: Fn(&Source, &str) -> bool>(
    probe: F,
    routes: &Routes,
    st: SearchModel,
    answer: bool,
) -> bool {
    exists|uri: &str|
        uri@ == decoded_or_same(st.candidate.uri) && #[trigger] probe.ensures(
            (&routes.buckets[st.candidate.bucket].sources[st.candidate.source].1, uri),
            answer,
        )
}

/// Whether `trace` is the sequence of states in which a search that begins
/// with `first` asked `probe`, and `outcome` its result: the search begins
/// with `first`; every state but the last was answered "unavailable" and
/// led to the next; and the last was either answered "available", or
/// answered "unavailable" and ended the search.
pub open spec fn is_search<F: Fn(&Source, &str) -> bool>(
    routes: &Routes,
    key: Seq<char>,
    probe: F,
    first: Resolution,
    trace: Seq<SearchModel>,
    outcome: Result<Resolution, RouteError>,
) -> bool {
    &&& trace.len() >= 1
    &&& trace[0] == search_start(first)
    &&& forall|i: int|
        0 <= i < trace.len() - 1 ==> answered(probe, routes, #[trigger] trace[i], false)
            && search_step(routes@, key, trace[i], false) == Move::Probe(trace[i + 1])
    &&& {
        ||| answered(probe, routes, trace.last(), true) && outcome == Ok::<
            Resolution,
            RouteError,
        >(trace.last().candidate)
        ||| answered(probe, routes, trace.last(), false) && search_step(
            routes@,
            key,
            trace.last(),
            false,
        ) == Move::Done(outcome)
    }
}

/// How many names of the list being walked are still to be tried, plus one
/// for a candidate whose own list has not been started.
pub open spec fn names_left(table: Seq<BucketModel>, st: SearchModel) -> int {
    match st.origin {
        None => table[st.candidate.bucket].sources[st.candidate.source].fallback.len() as int + 1,
        Some((bucket, source)) => table[bucket].sources[source].fallback.len() - st.next,
    }
}

/// Whether the search in state `st` is within its bounds.
pub open spec fn search_inv(table: Seq<BucketModel>, st: SearchModel) -> bool {
    &&& search_wf(table, st)
    &&& st.attempts < MAX_ATTEMPTS
    &&& st.origin matches Some((bucket, source)) ==> st.next
        <= table[bucket].sources[source].fallback.len()
}

/// Every move that asks another question brings the search closer to its
/// end: it either returns to the top, which it does fewer than
/// `MAX_ATTEMPTS` times, or leaves fewer names to try.
pub proof fn lemma_search_progress(
    table: Seq<BucketModel>,
    key: Seq<char>,
    st: SearchModel,
    next: SearchModel,
)
    requires
        search_inv(table, st),
        search_step(table, key, st, false) == Move::Probe(next),
    ensures
        next.attempts < MAX_ATTEMPTS,
        next.origin matches Some((bucket, source)) ==> next.next
            <= table[bucket].sources[source].fallback.len(),
        names_left(table, st) >= 0,
        next.attempts > st.attempts || (next.attempts == st.attempts && names_left(table, next)
            < names_left(table, st)),
{
    reveal(search_step);
}

/// Finds the source that serves a request whose resolution gave `first`,
/// for the host `key` (in lower case): `first` if the prober
/// `probe` finds it available, else the first available candidate of the
/// fallback search, and the candidate at hand once the search has returned
/// to the top `MAX_ATTEMPTS` times.
///
/// Fails with `FallbackNotFound` when a fallback name is missing from its
/// bucket, and with the resolver's error when resolution from a fallback
/// source fails.
pub fn resolve_with_fallback<F: Fn(&Source, &str) -> bool>(
    routes: &Routes,
    key: &str,
    first: Resolved,
    probe: F,
) -> (r: Result<Resolved, RouteError>)
    requires
        in_table(routes@, first@),
        forall|source: &Source, uri: &str| probe.requires((source, uri)),
    ensures
        exists|trace: Seq<SearchModel>|
            is_search(routes, key@, probe, first@, trace, outcome_view(r)),
        r matches Ok(found) ==> in_table(routes@, found@),
{
    let ghost start = first@;
    let mut state = SearchState::start(first);
    let ghost mut trace: Seq<SearchModel> = seq![state@];
    loop
        invariant
            forall|source: &Source, uri: &str| probe.requires((source, uri)),
            search_inv(routes@, state@),
            start == first@,
            trace.len() >= 1,
            trace[0] == search_start(start),
            trace.last() == state@,
            forall|i: int|
                0 <= i < trace.len() - 1 ==> answered(probe, routes, #[trigger] trace[i], false)
                    && search_step(routes@, key@, trace[i], false) == Move::Probe(trace[i + 1]),
        decreases MAX_ATTEMPTS - state@.attempts, names_left(routes@, state@),
    {
        let ghost before = state@;
        let path = decode_or_keep(state.candidate.uri.as_str());
        let available = probe(state.source(routes), path.as_str());
        assert(answered(probe, routes, before, available));
        match state.step(routes, key, available) {
            SearchMove::Done(outcome) => {
                assert(is_search(routes, key@, probe, start, trace, outcome_view(outcome)));
                return outcome;
            },
            SearchMove::Probe(next) => {
                proof {
                    lemma_search_progress(routes@, key@, before, next@);
                    let longer = trace.push(next@);
                    assert forall|i: int| 0 <= i < longer.len() - 1 implies answered(
                        probe,
                        routes,
                        #[trigger] longer[i],
                        false,
                    ) && search_step(routes@, key@, longer[i], false) == Move::Probe(
                        longer[i + 1],
                    ) by {
                        if i < trace.len() - 1 {
                            assert(longer[i] == trace[i]);
                            assert(longer[i + 1] == trace[i + 1]);
                        }
                    }
                    trace = longer;
                }
                state = next;
            },
        }
    }
}


// ---------------------------------------------------------------------------
// Facts about the fallback search

/// The answers that a search with `asked` questions got, when all but the
/// last were "unavailable" and the last was `last`.
pub open spec fn trace_answers(asked: nat, last: bool) -> Seq<bool> {
    Seq::new(asked, |i: int| i == asked - 1 && last)
}

/// A search that asked a prober is a run of the search on the
/// answers it got: every state of its trace but the last was answered
/// "unavailable", and the outcome is that of `search_run` on those answers.
pub proof fn lemma_search_is_run<F: Fn(&Source, &str) -> bool>(
    routes: &Routes,
    key: Seq<char>,
    probe: F,
    first: Resolution,
    trace: Seq<SearchModel>,
    outcome: Result<Resolution, RouteError>,
)
    requires
        is_search(routes, key, probe, first, trace, outcome),
    ensures
        exists|last: bool|
            answered(probe, routes, trace.last(), last) && #[trigger] search_run(
                routes@,
                key,
                search_start(first),
                trace_answers(trace.len(), last),
            ) == Some(outcome),
{
    let last = answered(probe, routes, trace.last(), true) && outcome == Ok::<
        Resolution,
        RouteError,
    >(trace.last().candidate);
    lemma_trace_suffix_runs(routes@, key, trace, outcome, last, 0);
    assert(trace_answers(trace.len(), last).skip(0) =~= trace_answers(trace.len(), last));
}

/// The run from the `k`-th state of a trace, on the answers from the
/// `k`-th on, has the outcome of the whole.
proof fn lemma_trace_suffix_runs(
    table: Seq<BucketModel>,
    key: Seq<char>,
    trace: Seq<SearchModel>,
    outcome: Result<Resolution, RouteError>,
    last: bool,
    k: int,
)
    requires
        0 <= k < trace.len(),
        forall|i: int|
            0 <= i < trace.len() - 1 ==> search_step(table, key, #[trigger] trace[i], false)
                == Move::Probe(trace[i + 1]),
        if last {
            outcome == Ok::<Resolution, RouteError>(trace.last().candidate)
        } else {
            search_step(table, key, trace.last(), false) == Move::Done(outcome)
        },
    ensures
        search_run(table, key, trace[k], trace_answers(trace.len(), last).skip(k)) == Some(
            outcome,
        ),
    decreases trace.len() - k,
{
    let answers = trace_answers(trace.len(), last).skip(k);
    assert(answers.len() == trace.len() - k);
    assert(answers[0] == (k == trace.len() - 1 && last));
    if k == trace.len() - 1 {
        assert(trace[k] == trace.last());
        if last {
            assert(search_step(table, key, trace[k], true) == Move::Done(
                Ok::<Resolution, RouteError>(trace[k].candidate),
            )) by {
                reveal(search_step);
            }
        }
    } else {
        lemma_trace_suffix_runs(table, key, trace, outcome, last, k + 1);
        assert(answers.skip(1) =~= trace_answers(trace.len(), last).skip(k + 1));
    }
}

/// An available source is served at once.
pub proof fn lemma_available_is_served(
    table: Seq<BucketModel>,
    key: Seq<char>,
    st: SearchModel,
    rest: Seq<bool>,
)
    ensures
        search_run(table, key, st, seq![true] + rest) == Some(
            Ok::<Resolution, RouteError>(st.candidate),
        ),
{
    reveal(search_step);
}

/// When the resolved source is unavailable and the first source of its
/// fallback list is available, that fallback source serves the request:
/// the search ends with the source that bears the list's first name, as
/// long as that source's own rewrite rules do not send the request on.
pub proof fn lemma_available_fallback_is_served(
    table: Seq<BucketModel>,
    key: Seq<char>,
    first: Resolution,
    target: int,
    rest: Seq<bool>,
)
    requires
        table[first.bucket].sources[first.source].fallback.len() > 0,
        index_of(
            table[first.bucket].names,
            table[first.bucket].sources[first.source].fallback[0],
        ) == Some(target),
        !(rewrite_outcome(table[first.bucket].sources[target].rewrites, first.uri) is Last),
    ensures
        search_run(table, key, search_start(first), seq![false, true] + rest) matches Some(Ok(r))
            && r.bucket == first.bucket && r.source == target,
{
    reveal(search_step);
    let answers = seq![false, true] + rest;
    assert(answers[0] == false);
    assert(answers.skip(1)[0] == true);
    let st = search_start(first);
    let mv = search_step(table, key, st, false);
    assert(mv is Probe);
    reveal_with_fuel(search_run, 3);
}

/// Answers that say "unavailable" `misses` times, then "available", then
/// whatever `rest` says.
pub open spec fn available_after(misses: nat, rest: Seq<bool>) -> Seq<bool>
    decreases misses,
{
    if misses == 0 {
        seq![true] + rest
    } else {
        seq![false] + available_after((misses - 1) as nat, rest)
    }
}

/// The state of the search when the first `tried` names of the fallback
/// list of `first`'s source have been tried, if each of them names a
/// source whose rewrite rules leave the path as it is: the candidate is
/// the source that the last of them names.
pub open spec fn walking(table: Seq<BucketModel>, first: Resolution, tried: nat) -> SearchModel {
    if tried == 0 {
        search_start(first)
    } else {
        let names = table[first.bucket].sources[first.source].fallback;
        SearchModel {
            candidate: Resolution {
                bucket: first.bucket,
                source: index_of(table[first.bucket].names, names[tried - 1]).unwrap(),
                uri: first.uri,
            },
            attempts: 0,
            origin: Some((first.bucket, first.source)),
            next: tried,
        }
    }
}

/// Whether the `i`-th name of the fallback list of `first`'s source names a
/// source of the bucket whose rewrite rules leave `first`'s path as it is.
pub open spec fn plain_fallback(table: Seq<BucketModel>, first: Resolution, i: int) -> bool {
    let bucket = table[first.bucket];
    let name = bucket.sources[first.source].fallback[i];
    index_of(bucket.names, name) matches Some(target) && rewrite_outcome(
        bucket.sources[target].rewrites,
        first.uri,
    ) is Unchanged
}

/// When the resolved source and the first sources of its fallback list are
/// unavailable, the first available source of the list serves the
/// request: if the resolved source and the sources that the first `j`
/// names of its list name are unavailable, and the source that the next
/// name names is available, the search ends with that source. This holds
/// as long as the rewrite rules of the sources tried leave the path as it is.
pub proof fn lemma_first_available_fallback_is_served(
    table: Seq<BucketModel>,
    key: Seq<char>,
    first: Resolution,
    j: nat,
    rest: Seq<bool>,
)
    requires
        j < table[first.bucket].sources[first.source].fallback.len(),
        forall|i: int| 0 <= i <= j ==> plain_fallback(table, first, i),
    ensures
        search_run(table, key, search_start(first), available_after(j + 1, rest)) == Some(
            Ok::<Resolution, RouteError>(walking(table, first, j + 1).candidate),
        ),
        walking(table, first, j + 1).candidate.bucket == first.bucket,
        index_of(
            table[first.bucket].names,
            table[first.bucket].sources[first.source].fallback[j as int],
        ) == Some(walking(table, first, j + 1).candidate.source),
{
    lemma_walk_reaches(table, key, first, 0, j, rest);
    assert(plain_fallback(table, first, j as int));
}

/// From the state in which `tried` names have been tried, the search
/// reaches the source that the `j`-th name names.
proof fn lemma_walk_reaches(
    table: Seq<BucketModel>,
    key: Seq<char>,
    first: Resolution,
    tried: nat,
    j: nat,
    rest: Seq<bool>,
)
    requires
        tried <= j + 1,
        j < table[first.bucket].sources[first.source].fallback.len(),
        forall|i: int| 0 <= i <= j ==> plain_fallback(table, first, i),
    ensures
        search_run(
            table,
            key,
            walking(table, first, tried),
            available_after((j + 1 - tried) as nat, rest),
        ) == Some(Ok::<Resolution, RouteError>(walking(table, first, j + 1).candidate)),
    decreases j + 1 - tried,
{
    reveal(search_step);
    let st = walking(table, first, tried);
    let answers = available_after((j + 1 - tried) as nat, rest);
    if tried == j + 1 {
        assert(answers[0]);
    } else {
        assert(!answers[0]);
        assert(answers.skip(1) =~= available_after((j - tried) as nat, rest));
        assert(plain_fallback(table, first, tried as int));
        assert(search_step(table, key, st, false) == Move::Probe(
            walking(table, first, tried + 1),
        ));
        lemma_walk_reaches(table, key, first, tried + 1, j, rest);
    }
}

/// In a table whose fallback names all name sources of their buckets, the
/// search never fails for a missing fallback.
pub proof fn lemma_closed_table_finds_fallbacks(
    table: Seq<BucketModel>,
    key: Seq<char>,
    st: SearchModel,
    available: bool,
)
    requires
        search_inv(table, st),
        fallbacks_closed(table),
    ensures
        search_step(table, key, st, available) != Move::Done(
            Err::<Resolution, RouteError>(RouteError::FallbackNotFound),
        ),
{
    reveal(search_step);
    let (b, s, j): (int, int, int) = match st.origin {
        None => (st.candidate.bucket, st.candidate.source, 0),
        Some((b, s)) => (b, s, st.next as int),
    };
    if !available && j < table[b].sources[s].fallback.len() {
        assert(bucket_closed(table[b]));
        assert(all_known(table[b].names, table[b].sources[s].fallback));
        let name = table[b].sources[s].fallback[j];
        assert(index_of(table[b].names, name) is Some);
        let target = index_of(table[b].names, name).unwrap();
        lemma_resolve_never_lacks_fallback(table, key, st.candidate.uri, 0, b, target);
    }
}

/// Whether the `j`-th fallback name of the source at `(b, s)` names a
/// source of its bucket from which resolution of `uri` succeeds.
pub open spec fn fallback_resolves(
    table: Seq<BucketModel>,
    key: Seq<char>,
    uri: Seq<char>,
    b: int,
    s: int,
    j: int,
) -> bool {
    index_of(table[b].names, table[b].sources[s].fallback[j]) matches Some(target)
        && resolve_from(table, key, uri, 0, b, target) is Ok
}

/// Whether every fallback name of the table names a source of its bucket
/// from which resolution succeeds, whatever the path.
pub open spec fn fallbacks_resolve(table: Seq<BucketModel>, key: Seq<char>) -> bool {
    forall|uri: Seq<char>, b: int, s: int, j: int|
        0 <= b < table.len() && 0 <= s < table[b].sources.len() && 0 <= j
            < table[b].sources[s].fallback.len() ==> #[trigger] fallback_resolves(
            table,
            key,
            uri,
            b,
            s,
            j,
        )
}

/// When no source is available the request is served all the same: if
/// every availability question is answered "unavailable", the search never
/// fails. Once it is over, its outcome is the candidate it had at hand.
pub proof fn lemma_search_is_best_effort(
    table: Seq<BucketModel>,
    key: Seq<char>,
    st: SearchModel,
    answers: Seq<bool>,
)
    requires
        well_formed(table),
        search_inv(table, st),
        fallbacks_resolve(table, key),
        forall|i: int| 0 <= i < answers.len() ==> !answers[i],
    ensures
        search_run(table, key, st, answers) matches Some(outcome) ==> outcome is Ok,
    decreases answers.len(),
{
    if answers.len() > 0 {
        assert(!answers[0]);
        match search_step(table, key, st, false) {
            Move::Done(outcome) => {
                lemma_unavailable_step(table, key, st);
            },
            Move::Probe(next) => {
                lemma_step_keeps_wf(table, key, st);
                lemma_search_progress(table, key, st, next);
                let rest = answers.skip(1);
                assert forall|i: int| 0 <= i < rest.len() implies !rest[i] by {
                    assert(rest[i] == answers[i + 1]);
                }
                lemma_search_is_best_effort(table, key, next, rest);
            },
        }
    }
}

/// Where every fallback resolves, an "unavailable" answer never ends the
/// search with an error.
proof fn lemma_unavailable_step(table: Seq<BucketModel>, key: Seq<char>, st: SearchModel)
    requires
        search_inv(table, st),
        fallbacks_resolve(table, key),
    ensures
        search_step(table, key, st, false) matches Move::Done(outcome) ==> outcome is Ok,
{
    reveal(search_step);
    let (b, s, j): (int, int, int) = match st.origin {
        None => (st.candidate.bucket, st.candidate.source, 0),
        Some((b, s)) => (b, s, st.next as int),
    };
    if j < table[b].sources[s].fallback.len() {
        assert(fallback_resolves(table, key, st.candidate.uri, b, s, j));
    }
}

/// The search ends: with a list of answers long enough, it has an outcome.
/// `longest` bounds the length of the fallback lists of the table.
pub proof fn lemma_search_ends(
    table: Seq<BucketModel>,
    key: Seq<char>,
    st: SearchModel,
    answers: Seq<bool>,
    longest: nat,
)
    requires
        search_inv(table, st),
        well_formed(table),
        forall|b: int, s: int|
            0 <= b < table.len() && 0 <= s < table[b].sources.len() ==> (
            #[trigger] table[b].sources[s]).fallback.len() <= longest,
        answers.len() >= (MAX_ATTEMPTS - st.attempts - 1) * (longest + 2) + names_left(table, st)
            + 1,
    ensures
        search_run(table, key, st, answers) is Some,
    decreases answers.len(),
{
    reveal(search_step);
    assert(names_left(table, st) >= 0);
    assert((MAX_ATTEMPTS - st.attempts - 1) * (longest + 2) >= 0) by (nonlinear_arith)
        requires
            MAX_ATTEMPTS - st.attempts - 1 >= 0,
            longest + 2 >= 0,
    ;
    match search_step(table, key, st, answers[0]) {
        Move::Done(outcome) => {},
        Move::Probe(next) => {
            assert(!answers[0]);
            lemma_search_progress(table, key, st, next);
            lemma_step_keeps_wf(table, key, st);
            if next.attempts > st.attempts {
                assert(next.attempts == st.attempts + 1);
                assert(next.origin is None);
                assert(names_left(table, next) <= longest + 1);
                assert((MAX_ATTEMPTS - st.attempts - 1) * (longest + 2) == (MAX_ATTEMPTS
                    - next.attempts - 1) * (longest + 2) + (longest + 2)) by (nonlinear_arith)
                    requires
                        next.attempts == st.attempts + 1,
                ;
            }
            lemma_search_ends(table, key, next, answers.skip(1), longest);
        },
    }
}

/// An "unavailable" answer leads to a state that points into the table.
proof fn lemma_step_keeps_wf(table: Seq<BucketModel>, key: Seq<char>, st: SearchModel)
    requires
        search_inv(table, st),
        well_formed(table),
    ensures
        search_step(table, key, st, false) matches Move::Probe(next) ==> search_wf(table, next),
{
    reveal(search_step);
    let (b, s, j): (int, int, int) = match st.origin {
        None => (st.candidate.bucket, st.candidate.source, 0),
        Some((b, s)) => (b, s, st.next as int),
    };
    let names = table[b].sources[s].fallback;
    if j < names.len() {
        let name = names[j];
        lemma_index_of(table[b].names, name);
        match index_of(table[b].names, name) {
            Some(target) => {
                lemma_resolve_from_in_table(table, key, st.candidate.uri, 0, b, target);
            },
            None => {},
        }
    }
}

} // verus!
