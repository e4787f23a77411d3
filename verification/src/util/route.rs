//! The route resolver.
//!
//! A request is routed by its virtual host and its path. The sources of the
//! host's bucket are tried first, then those of the default bucket (the one
//! whose key is empty). Among the sources that accept the path, the most
//! specific wins: an exact rule beats a regular expression, a regular
//! expression beats a prefix, a longer prefix beats a shorter one, and
//! between equals the source that comes first in its bucket wins. The
//! order of a bucket is the order in which its sources were handed to the
//! table.
//!
//! The selected source's rewrite rules are then tried in order. The first one
//! whose pattern matches rewrites the path. A `break` rule ends resolution
//! with the selected source; a `last` rule starts it over with the new path,
//! at most [`MAX_DEPTH`] times.

use std::path::Path;
use vstd::prelude::*;
use vstd::string::{StrSliceExecFns, StringExecFns};

use crate::config::location::{rules_view, Location, Rule};
use crate::config::pattern::{regex_matches, regex_replaced};
use crate::config::rewrite::{rewrites_view, Rewrite, RewriteFlag, RewriteRule};
use crate::config::proxy::Proxy;
use crate::config::source::{opt_rewrites_view, Source, SourceModel};
use crate::config::static_server::StaticServer;
use crate::gateway::GatewayCTX;
use crate::util::path::{
    lemma_without_leading_slashes, strip_leading_slashes, uri_directory, uri_root,
    without_leading_slashes,
};
use crate::util::table::{distinct, keys, Bucket, BucketModel, Routes};
use crate::util::text::{
    chars_eq, chars_of, chars_start_with, fields_view, find_char, index_of, lemma_index_of,
    split_chars, split_on, string_of, string_of_range,
};

verus! {

/// How many times resolution may start, counting the first.
pub const MAX_DEPTH: usize = 10;

/// Why a request could not be served. All but `StaticFileMissing` are
/// answered with status 502.
#[derive(Clone, Copy, PartialEq, Eq, Structural, Debug)]
pub enum RouteError {
    /// No source of the host's bucket nor of the default bucket accepts the path.
    NoRoute,
    /// A chain of `last` rewrites did not end within `MAX_DEPTH` resolutions.
    RewriteLoopExceeded,
    /// A fallback name that no source of the bucket bears.
    FallbackNotFound,
    /// There is no address to connect to: the upstream's address could not
    /// be resolved, or the source is a static one and has no upstream.
    UpstreamAddressError,
    /// The rewritten path is no valid request target.
    UriRewriteInvalid,
    /// The file to serve does not exist. Answered with status 404.
    StaticFileMissing,
}

impl RouteError {
    /// The HTTP status that answers this error.
    pub open spec fn spec_status(&self) -> u16 {
        if self is StaticFileMissing {
            404
        } else {
            502
        }
    }

    /// The HTTP status that answers this error.
    #[verifier::when_used_as_spec(spec_status)]
    pub fn status(&self) -> (r: u16)
        ensures
            r == self.spec_status(),
    {
        match self {
            RouteError::StaticFileMissing => 404,
            _ => 502,
        }
    }
}

/// The lower-case form of a text, by Unicode's rules: what
/// `str::to_lowercase` makes of it.
pub uninterp spec fn lowercase(s: Seq<char>) -> Seq<char>;

/// `str::to_lowercase` returns the lower-case form of the text.
pub assume_specification[ str::to_lowercase ](s: &str) -> (r: String)
    ensures
        r@ == lowercase(s@),
;

// ---------------------------------------------------------------------------
// The model

/// The outcome of resolution: a source, given by the index of its bucket and
/// its index in the bucket, and the path to hand to it.
pub struct Resolution {
    pub bucket: int,
    pub source: int,
    pub uri: Seq<char>,
}

/// How specific a rule's acceptance of `uri` is: a class, and within the
/// class of prefixes a length. Class 0 means that the rule does not accept.
pub open spec fn rule_score(rule: Rule, uri: Seq<char>) -> (nat, nat) {
    if !rule.accepts(uri) {
        (0, 0)
    } else {
        match rule {
            Rule::Prefix(p) => (1, p.len()),
            Rule::Regex(_) => (2, 0),
            Rule::Exact(_) => (3, 0),
        }
    }
}

/// The order of scores: by class, then by length.
pub open spec fn score_lt(a: (nat, nat), b: (nat, nat)) -> bool {
    a.0 < b.0 || (a.0 == b.0 && a.1 < b.1)
}

/// The score of the most specific rule of the list.
pub open spec fn best_score(rules: Seq<Rule>, uri: Seq<char>) -> (nat, nat)
    decreases rules.len(),
{
    if rules.len() == 0 {
        (0, 0)
    } else {
        let rest = best_score(rules.drop_last(), uri);
        let last = rule_score(rules.last(), uri);
        if score_lt(rest, last) {
            last
        } else {
            rest
        }
    }
}

/// A source accepts a path if any of its rules does.
pub open spec fn source_accepts(rules: Seq<Rule>, uri: Seq<char>) -> bool {
    exists|i: int| 0 <= i < rules.len() && (#[trigger] rules[i]).accepts(uri)
}

/// The source selected among `sources` for `uri`: the first of those with
/// the highest score, if any accepts.
pub open spec fn pick(sources: Seq<SourceModel>, uri: Seq<char>) -> Option<int>
    decreases sources.len(),
{
    if sources.len() == 0 {
        None
    } else {
        let score = best_score(sources.last().rules, uri);
        match pick(sources.drop_last(), uri) {
            None => if score.0 > 0 {
                Some(sources.len() - 1)
            } else {
                None
            },
            Some(j) => if score_lt(best_score(sources[j].rules, uri), score) {
                Some(sources.len() - 1)
            } else {
                Some(j)
            },
        }
    }
}

/// The source selected in the bucket with the given key.
pub open spec fn select_in(table: Seq<BucketModel>, key: Seq<char>, uri: Seq<char>) -> Option<
    (int, int),
> {
    match index_of(keys(table), key) {
        None => None,
        Some(b) => match pick(table[b].sources, uri) {
            None => None,
            Some(s) => Some((b, s)),
        },
    }
}

/// The source selected for a request: that of the host's bucket, else that
/// of the default bucket.
pub open spec fn select(table: Seq<BucketModel>, key: Seq<char>, uri: Seq<char>) -> Option<
    (int, int),
> {
    match select_in(table, key, uri) {
        Some(found) => Some(found),
        None => select_in(table, Seq::empty(), uri),
    }
}

/// What the rewrite rules make of a path.
pub enum Rewritten {
    /// No rule matched.
    Unchanged,
    /// A `break` rule produced this path.
    Break(Seq<char>),
    /// A `last` rule produced this path.
    Last(Seq<char>),
}

/// What the rules from index `from` on make of `uri`: the first rule whose
/// pattern matches decides.
pub open spec fn rewrite_from(rules: Seq<RewriteRule>, uri: Seq<char>, from: int) -> Rewritten
    decreases rules.len() - from,
{
    if from < 0 || from >= rules.len() {
        Rewritten::Unchanged
    } else if regex_matches(rules[from].pattern, uri) {
        let new_uri = regex_replaced(rules[from].pattern, uri, rules[from].replacement);
        match rules[from].flag {
            RewriteFlag::Last => Rewritten::Last(new_uri),
            RewriteFlag::Break => Rewritten::Break(new_uri),
        }
    } else {
        rewrite_from(rules, uri, from + 1)
    }
}

/// What a source's rewrite rules make of `uri`.
pub open spec fn rewrite_outcome(rules: Seq<RewriteRule>, uri: Seq<char>) -> Rewritten {
    rewrite_from(rules, uri, 0)
}

/// Resolution of `uri` for the host `key`, when `depth` resolutions have
/// already been started for this request.
pub open spec fn resolve(table: Seq<BucketModel>, key: Seq<char>, uri: Seq<char>, depth: nat)
    -> Result<Resolution, RouteError>
    decreases MAX_DEPTH - depth,
{
    if depth >= MAX_DEPTH {
        Err(RouteError::RewriteLoopExceeded)
    } else {
        match select(table, key, uri) {
            None => Err(RouteError::NoRoute),
            Some((b, s)) => match rewrite_outcome(table[b].sources[s].rewrites, uri) {
                Rewritten::Unchanged => Ok(Resolution { bucket: b, source: s, uri }),
                Rewritten::Break(u) => Ok(Resolution { bucket: b, source: s, uri: u }),
                Rewritten::Last(u) => resolve(table, key, u, depth + 1),
            },
        }
    }
}

/// Resolution that starts from a given source instead of selecting one: its
/// rewrite rules are applied to `uri`, its match rules are not consulted.
pub open spec fn resolve_from(
    table: Seq<BucketModel>,
    key: Seq<char>,
    uri: Seq<char>,
    depth: nat,
    bucket: int,
    source: int,
) -> Result<Resolution, RouteError> {
    match rewrite_outcome(table[bucket].sources[source].rewrites, uri) {
        Rewritten::Unchanged => Ok(Resolution { bucket, source, uri }),
        Rewritten::Break(u) => Ok(Resolution { bucket, source, uri: u }),
        Rewritten::Last(u) => resolve(table, key, u, depth + 1),
    }
}

/// Whether a resolution points at a source of the table.
pub open spec fn in_table(table: Seq<BucketModel>, r: Resolution) -> bool {
    &&& 0 <= r.bucket < table.len()
    &&& 0 <= r.source < table[r.bucket].sources.len()
}

// ---------------------------------------------------------------------------
// Facts about the model

/// The best score of a list of rules is the score of one of them, and no
/// rule of the list scores higher. It is above class 0 exactly when some
/// rule accepts.
pub proof fn lemma_best_score(rules: Seq<Rule>, uri: Seq<char>)
    ensures
        forall|i: int|
            0 <= i < rules.len() ==> !score_lt(
                best_score(rules, uri),
                #[trigger] rule_score(rules[i], uri),
            ),
        best_score(rules, uri).0 > 0 <==> source_accepts(rules, uri),
        best_score(rules, uri).0 <= 3,
        best_score(rules, uri).0 == 0 ==> best_score(rules, uri).1 == 0,
    decreases rules.len(),
{
    if rules.len() > 0 {
        let init = rules.drop_last();
        lemma_best_score(init, uri);
        assert forall|i: int| 0 <= i < rules.len() implies !score_lt(
            best_score(rules, uri),
            #[trigger] rule_score(rules[i], uri),
        ) by {
            if i < init.len() {
                assert(init[i] == rules[i]);
            }
        }
        if source_accepts(init, uri) {
            let i = choose|i: int| 0 <= i < init.len() && (#[trigger] init[i]).accepts(uri);
            assert(rules[i].accepts(uri));
        }
        if rules.last().accepts(uri) {
            assert(rules[rules.len() - 1].accepts(uri));
        }
        if source_accepts(rules, uri) {
            let i = choose|i: int| 0 <= i < rules.len() && (#[trigger] rules[i]).accepts(uri);
            if i < init.len() {
                assert(init[i].accepts(uri));
            }
        }
    }
}

/// The selected source accepts the path, no source of the bucket scores
/// higher, and every source that comes before it scores lower. Nothing is
/// selected exactly when no source accepts.
pub proof fn lemma_pick(sources: Seq<SourceModel>, uri: Seq<char>)
    ensures
        match pick(sources, uri) {
            Some(i) => {
                &&& 0 <= i < sources.len()
                &&& source_accepts(sources[i].rules, uri)
                &&& forall|j: int|
                    0 <= j < sources.len() ==> !score_lt(
                        best_score(sources[i].rules, uri),
                        best_score(#[trigger] sources[j].rules, uri),
                    )
                &&& forall|j: int|
                    0 <= j < i ==> score_lt(
                        best_score(#[trigger] sources[j].rules, uri),
                        best_score(sources[i].rules, uri),
                    )
            },
            None => forall|j: int|
                0 <= j < sources.len() ==> !source_accepts(#[trigger] sources[j].rules, uri),
        },
    decreases sources.len(),
{
    if sources.len() > 0 {
        let init = sources.drop_last();
        let n = sources.len() - 1;
        lemma_pick(init, uri);
        lemma_best_score(sources.last().rules, uri);
        assert(sources[n] == sources.last());
        assert forall|j: int| 0 <= j < n implies init[j] == sources[j] by {}
        match pick(init, uri) {
            None => {
                assert forall|j: int| 0 <= j < n implies best_score(
                    #[trigger] sources[j].rules,
                    uri,
                ).0 == 0 && best_score(sources[j].rules, uri).1 == 0 by {
                    assert(init[j] == sources[j]);
                    lemma_best_score(sources[j].rules, uri);
                }
            },
            Some(j0) => {
                assert(init[j0] == sources[j0]);
                assert forall|j: int| 0 <= j < n implies !score_lt(
                    best_score(sources[j0].rules, uri),
                    best_score(#[trigger] sources[j].rules, uri),
                ) by {
                    assert(init[j] == sources[j]);
                }
                assert forall|j: int| 0 <= j < j0 implies score_lt(
                    best_score(#[trigger] sources[j].rules, uri),
                    best_score(sources[j0].rules, uri),
                ) by {
                    assert(init[j] == sources[j]);
                }
            },
        }
    }
}

/// A selection points at a source of the table.
pub proof fn lemma_select_in_table(table: Seq<BucketModel>, key: Seq<char>, uri: Seq<char>)
    ensures
        select_in(table, key, uri) matches Some((b, s)) ==> 0 <= b < table.len() && 0 <= s
            < table[b].sources.len() && table[b].key == key && source_accepts(
            table[b].sources[s].rules,
            uri,
        ),
        select(table, key, uri) matches Some((b, s)) ==> 0 <= b < table.len() && 0 <= s
            < table[b].sources.len() && source_accepts(table[b].sources[s].rules, uri),
{
    lemma_index_of(keys(table), key);
    lemma_index_of(keys(table), Seq::empty());
    if let Some(b) = index_of(keys(table), key) {
        lemma_pick(table[b].sources, uri);
    }
    if let Some(b) = index_of(keys(table), Seq::empty()) {
        lemma_pick(table[b].sources, uri);
    }
}

/// A successful resolution points at a source of the table.
pub proof fn lemma_resolve_in_table(
    table: Seq<BucketModel>,
    key: Seq<char>,
    uri: Seq<char>,
    depth: nat,
)
    ensures
        resolve(table, key, uri, depth) matches Ok(r) ==> in_table(table, r),
    decreases MAX_DEPTH - depth,
{
    if depth < MAX_DEPTH {
        lemma_select_in_table(table, key, uri);
        match select(table, key, uri) {
            None => {},
            Some((b, s)) => match rewrite_outcome(table[b].sources[s].rewrites, uri) {
                Rewritten::Last(u) => {
                    lemma_resolve_in_table(table, key, u, depth + 1);
                },
                _ => {},
            },
        }
    }
}


/// A successful resolution from a source of the table points at a source of
/// the table. The target's index must be within the names of its bucket,
/// of which there are as many as sources.
pub proof fn lemma_resolve_from_in_table(
    table: Seq<BucketModel>,
    key: Seq<char>,
    uri: Seq<char>,
    depth: nat,
    bucket: int,
    source: int,
)
    requires
        0 <= bucket < table.len(),
        0 <= source < table[bucket].sources.len(),
    ensures
        resolve_from(table, key, uri, depth, bucket, source) matches Ok(r) ==> in_table(table, r),
{
    match rewrite_outcome(table[bucket].sources[source].rewrites, uri) {
        Rewritten::Last(u) => {
            lemma_resolve_in_table(table, key, u, depth + 1);
        },
        _ => {},
    }
}

/// Resolution fails with `RewriteLoopExceeded` or `NoRoute` only.
pub proof fn lemma_resolve_errors(table: Seq<BucketModel>, key: Seq<char>, uri: Seq<char>, depth: nat)
    ensures
        resolve(table, key, uri, depth) matches Err(e) ==> e is RewriteLoopExceeded || e is NoRoute,
    decreases MAX_DEPTH - depth,
{
    if depth < MAX_DEPTH {
        match select(table, key, uri) {
            None => {},
            Some((b, s)) => match rewrite_outcome(table[b].sources[s].rewrites, uri) {
                Rewritten::Last(u) => {
                    lemma_resolve_errors(table, key, u, depth + 1);
                },
                _ => {},
            },
        }
    }
}

/// Resolution from a source never fails for a missing fallback.
pub proof fn lemma_resolve_never_lacks_fallback(
    table: Seq<BucketModel>,
    key: Seq<char>,
    uri: Seq<char>,
    depth: nat,
    bucket: int,
    source: int,
)
    ensures
        resolve_from(table, key, uri, depth, bucket, source) != Err::<Resolution, RouteError>(
            RouteError::FallbackNotFound,
        ),
{
    match rewrite_outcome(table[bucket].sources[source].rewrites, uri) {
        Rewritten::Last(u) => {
            lemma_resolve_errors(table, key, u, depth + 1);
        },
        _ => {},
    }
}

/// A path that a single source accepts is routed to that source.
///
/// If, among all the sources of the table, only the one at `(b, s)` accepts
/// `uri`, its bucket is the host's or the default one, and its rewrite
/// rules do not send the request on with a `last` rule, then resolution
/// ends with that source.
pub proof fn lemma_sole_match_is_selected(
    table: Seq<BucketModel>,
    key: Seq<char>,
    uri: Seq<char>,
    depth: nat,
    b: int,
    s: int,
)
    requires
        depth < MAX_DEPTH,
        distinct(keys(table)),
        0 <= b < table.len(),
        0 <= s < table[b].sources.len(),
        table[b].key == key || table[b].key == Seq::<char>::empty(),
        source_accepts(table[b].sources[s].rules, uri),
        forall|b2: int, s2: int|
            0 <= b2 < table.len() && 0 <= s2 < table[b2].sources.len() && (b2 != b || s2 != s)
                ==> !source_accepts(#[trigger] table[b2].sources[s2].rules, uri),
        !(rewrite_outcome(table[b].sources[s].rewrites, uri) is Last),
    ensures
        select(table, key, uri) == Some((b, s)),
        resolve(table, key, uri, depth) matches Ok(r) && r.bucket == b && r.source == s,
{
    lemma_index_of(keys(table), key);
    lemma_index_of(keys(table), Seq::<char>::empty());
    assert(keys(table)[b] == table[b].key);
    lemma_pick(table[b].sources, uri);
    match index_of(keys(table), key) {
        Some(i) => {
            assert(keys(table)[i] == table[i].key);
            lemma_pick(table[i].sources, uri);
        },
        None => {},
    }
    match index_of(keys(table), Seq::<char>::empty()) {
        Some(i) => {
            assert(keys(table)[i] == table[i].key);
            lemma_pick(table[i].sources, uri);
        },
        None => {},
    }
}

/// A `break` rule changes the path and never the source: when the rules of
/// the selected source end with a `break` rule, resolution ends with that
/// very source and the rewritten path.
pub proof fn lemma_break_keeps_source(
    table: Seq<BucketModel>,
    key: Seq<char>,
    uri: Seq<char>,
    depth: nat,
    b: int,
    s: int,
    new_uri: Seq<char>,
)
    requires
        depth < MAX_DEPTH,
        select(table, key, uri) == Some((b, s)),
        rewrite_outcome(table[b].sources[s].rewrites, uri) == Rewritten::Break(new_uri),
    ensures
        resolve(table, key, uri, depth) == Ok::<Resolution, RouteError>(
            Resolution { bucket: b, source: s, uri: new_uri },
        ),
        resolve_from(table, key, uri, depth, b, s) == Ok::<Resolution, RouteError>(
            Resolution { bucket: b, source: s, uri: new_uri },
        ),
{
}

/// The path that the selected source's rules send on with a `last` rule,
/// if they do.
pub open spec fn sent_on(table: Seq<BucketModel>, key: Seq<char>, uri: Seq<char>) -> Option<
    Seq<char>,
> {
    match select(table, key, uri) {
        None => None,
        Some((b, s)) => match rewrite_outcome(table[b].sources[s].rewrites, uri) {
            Rewritten::Last(new_uri) => Some(new_uri),
            _ => None,
        },
    }
}

/// A `last` rule sends the request through resolution again: the outcome
/// for the old path is the outcome for the new path, one level deeper.
/// Every `last` rule followed thus uses up one of the `MAX_DEPTH` levels.
pub proof fn lemma_last_resolves_again(
    table: Seq<BucketModel>,
    key: Seq<char>,
    uri: Seq<char>,
    depth: nat,
    new_uri: Seq<char>,
)
    requires
        sent_on(table, key, uri) == Some(new_uri),
    ensures
        resolve(table, key, uri, depth) == if depth < MAX_DEPTH {
            resolve(table, key, new_uri, depth + 1)
        } else {
            Err(RouteError::RewriteLoopExceeded)
        },
{
}

/// A `last` rule whose new path selects another source hands the request
/// to that source: when the new path selects a source whose rules do not
/// send it on, that source is the outcome.
pub proof fn lemma_last_reroutes(
    table: Seq<BucketModel>,
    key: Seq<char>,
    uri: Seq<char>,
    depth: nat,
    new_uri: Seq<char>,
    b: int,
    s: int,
)
    requires
        depth + 1 < MAX_DEPTH,
        sent_on(table, key, uri) == Some(new_uri),
        select(table, key, new_uri) == Some((b, s)),
        sent_on(table, key, new_uri) is None,
    ensures
        resolve(table, key, uri, depth) == resolve(table, key, new_uri, depth + 1),
        resolve(table, key, uri, depth) matches Ok(r) && r.bucket == b && r.source == s,
{
}

/// A chain of `last` rules that never ends makes resolution fail, and
/// never run on: if every path of a set is sent on, by a `last` rule of the
/// source it selects, to a path of the same set, then resolution of a path
/// of the set fails with `RewriteLoopExceeded`. It does so after
/// `MAX_DEPTH - depth` selections, as the measure of this proof shows.
pub proof fn lemma_endless_chain_fails(
    table: Seq<BucketModel>,
    key: Seq<char>,
    uri: Seq<char>,
    depth: nat,
    chain: spec_fn(Seq<char>) -> bool,
)
    requires
        chain(uri),
        forall|u: Seq<char>| #[trigger]
            chain(u) ==> sent_on(table, key, u) is Some && chain(sent_on(table, key, u).unwrap()),
    ensures
        resolve(table, key, uri, depth) == Err::<Resolution, RouteError>(
            RouteError::RewriteLoopExceeded,
        ),
    decreases MAX_DEPTH - depth,
{
    if depth < MAX_DEPTH {
        let next = sent_on(table, key, uri).unwrap();
        lemma_endless_chain_fails(table, key, next, depth + 1, chain);
    }
}

// ---------------------------------------------------------------------------
// The location matcher

/// Whether `source` accepts the path `uri`: whether any of its rules does.
pub fn match_route(uri: &str, source: &Source) -> (r: bool)
    ensures
        r == source_accepts(source@.rules, uri@),
{
    let location = source.location_as_ref();
    let mut i: usize = 0;
    while i < location.len()
        invariant
            i <= location.len(),
            rules_view(location@) == source@.rules,
            forall|j: int| 0 <= j < i ==> !(#[trigger] source@.rules[j]).accepts(uri@),
        decreases location.len() - i,
    {
        assert(source@.rules[i as int] == location@[i as int]@);
        if location[i].matches(uri) {
            return true;
        }
        i += 1;
    }
    false
}

fn score_less(a: (u8, usize), b: (u8, usize)) -> (r: bool)
    ensures
        r == score_lt((a.0 as nat, a.1 as nat), (b.0 as nat, b.1 as nat)),
{
    a.0 < b.0 || (a.0 == b.0 && a.1 < b.1)
}

/// The score of a rule, given whether it accepts the path at hand.
pub fn score_for(rule: &Location, accepted: bool) -> (r: (u8, usize))
    ensures
        (r.0 as nat, r.1 as nat) == if !accepted {
            (0nat, 0nat)
        } else {
            match rule@ {
                Rule::Prefix(p) => (1nat, p.len()),
                Rule::Regex(_) => (2nat, 0nat),
                Rule::Exact(_) => (3nat, 0nat),
            }
        },
{
    if !accepted {
        (0, 0)
    } else {
        match rule {
            Location::Start(l) => (1, l.as_str().unicode_len()),
            Location::Regex(_) => (2, 0),
            Location::Equal(_) => (3, 0),
        }
    }
}

fn score_of_rule(rule: &Location, uri: &str, uri_chars: &Vec<char>) -> (r: (u8, usize))
    requires
        uri_chars@ == uri@,
    ensures
        (r.0 as nat, r.1 as nat) == rule_score(rule@, uri@),
{
    let accepted = match rule {
        Location::Start(l) => chars_start_with(uri_chars, &chars_of(l.as_str())),
        Location::Equal(l) => chars_eq(uri_chars, &chars_of(l.as_str())),
        Location::Regex(re) => re.is_match(uri),
    };
    score_for(rule, accepted)
}

fn score_of_source(source: &Source, uri: &str, uri_chars: &Vec<char>) -> (r: (u8, usize))
    requires
        uri_chars@ == uri@,
    ensures
        (r.0 as nat, r.1 as nat) == best_score(source@.rules, uri@),
{
    let location = source.location_as_ref();
    let ghost rules = source@.rules;
    let mut best: (u8, usize) = (0, 0);
    let mut i: usize = 0;
    assert(rules.take(0) =~= Seq::<Rule>::empty());
    while i < location.len()
        invariant
            i <= location.len(),
            uri_chars@ == uri@,
            rules == rules_view(location@),
            (best.0 as nat, best.1 as nat) == best_score(rules.take(i as int), uri@),
        decreases location.len() - i,
    {
        assert(rules.take(i + 1).drop_last() =~= rules.take(i as int));
        assert(rules.take(i + 1).last() == location@[i as int]@);
        let score = score_of_rule(&location[i], uri, uri_chars);
        if score_less(best, score) {
            best = score;
        }
        i += 1;
    }
    assert(rules.take(location.len() as int) =~= rules);
    best
}

/// The source of the bucket that is selected for `uri`, by its index.
pub fn pick_source(bucket: &Bucket, uri: &str) -> (r: Option<usize>)
    ensures
        match pick(bucket@.sources, uri@) {
            Some(i) => 0 <= i < bucket.sources.len() && r == Some(i as usize),
            None => r is None,
        },
{
    let uri_chars = chars_of(uri);
    let ghost all = bucket@.sources;
    let mut best: Option<usize> = None;
    let mut best_score_so_far: (u8, usize) = (0, 0);
    let mut i: usize = 0;
    assert(all.take(0) =~= Seq::<SourceModel>::empty());
    while i < bucket.sources.len()
        invariant
            i <= bucket.sources.len(),
            uri_chars@ == uri@,
            all == bucket@.sources,
            match pick(all.take(i as int), uri@) {
                Some(j) => 0 <= j < i && best == Some(j as usize) && (
                best_score_so_far.0 as nat,
                best_score_so_far.1 as nat,
                ) == best_score(all[j].rules, uri@),
                None => best is None,
            },
        decreases bucket.sources.len() - i,
    {
        assert(all.take(i + 1).drop_last() =~= all.take(i as int));
        assert(all.take(i + 1).last() == bucket.sources@[i as int].1@);
        assert(forall|j: int| 0 <= j < i ==> all.take(i + 1)[j] == all[j]);
        let score = score_of_source(&bucket.sources[i].1, uri, &uri_chars);
        match best {
            None => {
                if score.0 > 0 {
                    best = Some(i);
                    best_score_so_far = score;
                }
            },
            Some(_) => {
                if score_less(best_score_so_far, score) {
                    best = Some(i);
                    best_score_so_far = score;
                }
            },
        }
        i += 1;
    }
    assert(all.take(bucket.sources.len() as int) =~= all);
    best
}

/// The source selected for a request of the host `key` (in lower case) and
/// the path `uri`, by the index of its bucket and its index in the bucket.
pub fn select_source(routes: &Routes, key: &str, uri: &str) -> (r: Option<(usize, usize)>)
    ensures
        match select(routes@, key@, uri@) {
            Some((b, s)) => 0 <= b < routes.buckets.len() && 0 <= s
                < routes.buckets[b].sources.len() && r == Some((b as usize, s as usize)),
            None => r is None,
        },
{
    match routes.bucket_index(key) {
        Some(b) => {
            match pick_source(&routes.buckets[b], uri) {
                Some(s) => {
                    return Some((b, s));
                },
                None => {},
            }
        },
        None => {},
    }
    assert(""@ =~= Seq::<char>::empty()) by {
        reveal_strlit("");
    }
    match routes.bucket_index("") {
        Some(d) => {
            match pick_source(&routes.buckets[d], uri) {
                Some(s) => Some((d, s)),
                None => None,
            }
        },
        None => None,
    }
}

// ---------------------------------------------------------------------------
// The rewrite engine

/// What the rewrite rules made of a path.
pub enum RewriteOutcome {
    /// No rule matched.
    Unchanged,
    /// A `break` rule produced this path.
    Break(String),
    /// A `last` rule produced this path.
    Last(String),
}

impl View for RewriteOutcome {
    type V = Rewritten;

    open spec fn view(&self) -> Rewritten {
        match self {
            RewriteOutcome::Unchanged => Rewritten::Unchanged,
            RewriteOutcome::Break(u) => Rewritten::Break(u@),
            RewriteOutcome::Last(u) => Rewritten::Last(u@),
        }
    }
}

/// What a rule whose pattern matched makes of a path, given the path that
/// its replacement produced: the new path, with the rule's flag.
pub fn rewritten(rule: &Rewrite, new_uri: String) -> (r: RewriteOutcome)
    ensures
        r@ == match rule@.flag {
            RewriteFlag::Last => Rewritten::Last(new_uri@),
            RewriteFlag::Break => Rewritten::Break(new_uri@),
        },
{
    if rule.is_last() {
        RewriteOutcome::Last(new_uri)
    } else {
        RewriteOutcome::Break(new_uri)
    }
}

/// Applies a source's rewrite rules to `uri`: the first rule whose pattern
/// matches rewrites the path and ends the evaluation.
pub fn apply_rewrites(rewrites: &Option<Vec<Rewrite>>, uri: &str) -> (r: RewriteOutcome)
    ensures
        r@ == rewrite_outcome(opt_rewrites_view(*rewrites), uri@),
{
    match rewrites {
        None => RewriteOutcome::Unchanged,
        Some(list) => {
            let ghost rules = rewrites_view(list@);
            let mut i: usize = 0;
            while i < list.len()
                invariant
                    i <= list.len(),
                    rules == rewrites_view(list@),
                    rules == opt_rewrites_view(*rewrites),
                    rewrite_from(rules, uri@, i as int) == rewrite_from(rules, uri@, 0),
                decreases list.len() - i,
            {
                let rule = &list[i];
                assert(rules[i as int] == rule@);
                if rule.regex_as_ref().is_match(uri) {
                    let new_uri = rule.regex_as_ref().replace_all(uri, rule.replace_as_ref());
                    return rewritten(rule, new_uri);
                }
                i += 1;
            }
            RewriteOutcome::Unchanged
        },
    }
}

// ---------------------------------------------------------------------------
// The route resolver

/// A resolved request: the source, by the index of its bucket and its index
/// in the bucket, and the path to hand to it.
pub struct Resolved {
    pub bucket: usize,
    pub source: usize,
    pub uri: String,
}

impl View for Resolved {
    type V = Resolution;

    open spec fn view(&self) -> Resolution {
        Resolution { bucket: self.bucket as int, source: self.source as int, uri: self.uri@ }
    }
}

/// Resolves the path `uri` for the host `key` (in lower case), when `depth`
/// resolutions have already been started for this request.
pub fn resolve_route(routes: &Routes, key: &str, uri: &str, depth: usize) -> (r: Result<
    Resolved,
    RouteError,
>)
    ensures
        match resolve(routes@, key@, uri@, depth as nat) {
            Ok(res) => r matches Ok(found) && found@ == res && in_table(routes@, res),
            Err(e) => r == Err::<Resolved, RouteError>(e),
        },
{
    let mut current: String = uri.to_owned();
    let mut level: usize = depth;
    proof {
        lemma_resolve_in_table(routes@, key@, uri@, depth as nat);
    }
    loop
        invariant
            resolve(routes@, key@, current@, level as nat) == resolve(
                routes@,
                key@,
                uri@,
                depth as nat,
            ),
            resolve(routes@, key@, uri@, depth as nat) matches Ok(res) ==> in_table(routes@, res),
        decreases MAX_DEPTH - level,
    {
        if level >= MAX_DEPTH {
            return Err(RouteError::RewriteLoopExceeded);
        }
        match select_source(routes, key, current.as_str()) {
            None => {
                return Err(RouteError::NoRoute);
            },
            Some((b, s)) => {
                let source = &routes.buckets[b].sources[s].1;
                assert(routes@[b as int].sources[s as int] == source@);
                match apply_rewrites(source.rewrite_as_ref(), current.as_str()) {
                    RewriteOutcome::Unchanged => {
                        return Ok(Resolved { bucket: b, source: s, uri: current });
                    },
                    RewriteOutcome::Break(u) => {
                        return Ok(Resolved { bucket: b, source: s, uri: u });
                    },
                    RewriteOutcome::Last(u) => {
                        current = u;
                        level = level + 1;
                    },
                }
            },
        }
    }
}

/// Resolves a request starting from the source at `(bucket, source)`: its
/// rewrite rules are applied to `uri`, and a `last` rule sends the new path
/// through full resolution.
pub fn resolve_from_index(
    routes: &Routes,
    key: &str,
    uri: &str,
    depth: usize,
    bucket: usize,
    source: usize,
) -> (r: Result<Resolved, RouteError>)
    requires
        bucket < routes.buckets.len(),
        source < routes.buckets[bucket as int].sources.len(),
    ensures
        match resolve_from(routes@, key@, uri@, depth as nat, bucket as int, source as int) {
            Ok(res) => r matches Ok(found) && found@ == res && in_table(routes@, res),
            Err(e) => r == Err::<Resolved, RouteError>(e),
        },
{
    let start = &routes.buckets[bucket].sources[source].1;
    assert(routes@[bucket as int].sources[source as int] == start@);
    match apply_rewrites(start.rewrite_as_ref(), uri) {
        RewriteOutcome::Unchanged => Ok(Resolved { bucket, source, uri: uri.to_owned() }),
        RewriteOutcome::Break(u) => Ok(Resolved { bucket, source, uri: u }),
        RewriteOutcome::Last(u) => {
            if depth >= MAX_DEPTH {
                Err(RouteError::RewriteLoopExceeded)
            } else {
                resolve_route(routes, key, u.as_str(), depth + 1)
            }
        },
    }
}

/// What `find_route` hands back for a given outcome of resolution: the
/// name and the source that the resolution points at, and its path; the
/// key of the source's bucket is noted in the context. On failure the
/// context stays as it was.
pub open spec fn hands_back(
    routes: &Routes,
    outcome: Result<Resolution, RouteError>,
    r: Result<((&String, &Source), String), RouteError>,
    before: GatewayCTX,
    after: GatewayCTX,
) -> bool {
    match outcome {
        Ok(res) => {
            &&& in_table(routes@, res)
            &&& r matches Ok(((name, source), uri))
            &&& *name == routes.buckets[res.bucket].sources[res.source].0
            &&& *source == routes.buckets[res.bucket].sources[res.source].1
            &&& uri@ == res.uri
            &&& after.sni == Some(routes.buckets[res.bucket].sni)
            &&& after.source == before.source
        },
        Err(e) => r == Err::<((&String, &Source), String), RouteError>(e) && after == before,
    }
}

fn hand_back<'a>(routes: &'a Routes, found: Resolved, ctx: &mut GatewayCTX) -> (r: (
    (&'a String, &'a Source),
    String,
))
    requires
        in_table(routes@, found@),
    ensures
        r.0.0 == routes.buckets[found.bucket as int].sources[found.source as int].0,
        r.0.1 == routes.buckets[found.bucket as int].sources[found.source as int].1,
        r.1 == found.uri,
        final(ctx).sni == Some(routes.buckets[found.bucket as int].sni),
        final(ctx).source == old(ctx).source,
{
    let bucket = &routes.buckets[found.bucket];
    let entry = &bucket.sources[found.source];
    ctx.sni = Some(bucket.sni.clone());
    ((&entry.0, &entry.1), found.uri)
}

/// Resolves a request: selects the source for the host `sni` and the path
/// `uri`, applies its rewrite rules, and starts over after a `last` rule.
/// `depth` is the number of resolutions already started for this request.
///
/// Fails with `RewriteLoopExceeded` once `MAX_DEPTH` resolutions have been
/// started, and with `NoRoute` when no source accepts the path.
pub fn find_route<'a>(
    sni: &str,
    uri: &str,
    routes: &'a Routes,
    depth: usize,
    ctx: &mut GatewayCTX,
) -> (r: Result<((&'a String, &'a Source), String), RouteError>)
    ensures
        hands_back(
            routes,
            resolve(routes@, lowercase(sni@), uri@, depth as nat),
            r,
            *old(ctx),
            *final(ctx),
        ),
{
    let key = sni.to_lowercase();
    match resolve_route(routes, key.as_str(), uri, depth) {
        Ok(found) => Ok(hand_back(routes, found, ctx)),
        Err(e) => Err(e),
    }
}

/// Resolves a request starting from a given source: its rewrite rules are
/// applied to `uri`, its match rules are not consulted. Without a matching
/// rule, or after a `break` rule, the source itself is handed back and the
/// context stays as it was; after a `last` rule the new path goes through
/// [`find_route`] at depth `depth + 1`.
pub fn find_route_with_start<'a>(
    sni: &str,
    uri: &str,
    routes: &'a Routes,
    depth: usize,
    ctx: &mut GatewayCTX,
    starts_from: (&'a String, &'a Source),
) -> (r: Result<((&'a String, &'a Source), String), RouteError>)
    ensures
        match rewrite_outcome(starts_from.1@.rewrites, uri@) {
            Rewritten::Unchanged => r matches Ok((start, u)) && start == starts_from && u@ == uri@
                && *final(ctx) == *old(ctx),
            Rewritten::Break(new_uri) => r matches Ok((start, u)) && start == starts_from && u@
                == new_uri && *final(ctx) == *old(ctx),
            Rewritten::Last(new_uri) => hands_back(
                routes,
                resolve(routes@, lowercase(sni@), new_uri, depth as nat + 1),
                r,
                *old(ctx),
                *final(ctx),
            ),
        },
{
    match apply_rewrites(starts_from.1.rewrite_as_ref(), uri) {
        RewriteOutcome::Unchanged => Ok((starts_from, uri.to_owned())),
        RewriteOutcome::Break(u) => Ok((starts_from, u)),
        RewriteOutcome::Last(u) => {
            if depth >= MAX_DEPTH {
                Err(RouteError::RewriteLoopExceeded)
            } else {
                find_route(sni, u.as_str(), routes, depth + 1, ctx)
            }
        },
    }
}

// ---------------------------------------------------------------------------
// Static sources

/// The part of a request target before its query: everything up to the
/// first `?`.
pub open spec fn strip_query(uri: Seq<char>) -> Seq<char> {
    match index_of(uri, '?') {
        Some(i) => uri.take(i),
        None => uri,
    }
}

/// A path that names a directory stands for the `index.html` in it.
pub open spec fn with_index(path: Seq<char>) -> Seq<char> {
    if path.len() > 0 && path.last() == '/' {
        path + "index.html"@
    } else {
        path
    }
}

/// How deep below a directory a path is after one more component, given
/// how deep it was before: `..` leads one level up, and out of the
/// directory from its top; `.` and an empty component lead nowhere; any
/// other component leads one level down. `None` stands for a path that has
/// left the directory, and stays so whatever follows.
pub open spec fn step_into(depth: Option<nat>, component: Seq<char>) -> Option<nat> {
    match depth {
        None => None,
        Some(d) => if component == seq!['.', '.'] {
            if d == 0 {
                None
            } else {
                Some((d - 1) as nat)
            }
        } else if component.len() == 0 || component == seq!['.'] {
            Some(d)
        } else {
            Some(d + 1)
        },
    }
}

/// How deep below a directory the path of the given components ends, read
/// from the left; `None` if it leaves the directory on the way.
pub open spec fn depth_of(components: Seq<Seq<char>>) -> Option<nat>
    decreases components.len(),
{
    if components.len() == 0 {
        Some(0)
    } else {
        step_into(depth_of(components.drop_last()), components.last())
    }
}

/// Whether a path leaves the directory that it is taken to lie in: whether,
/// reading its components from the left, a `..` is met at the top of that
/// directory.
pub open spec fn leaves_root(path: Seq<char>) -> bool {
    depth_of(split_on(path, '/')) is None
}

/// A path that has left the directory after its first `n` components has
/// left it for good.
pub proof fn lemma_left_for_good(components: Seq<Seq<char>>, n: int)
    requires
        0 <= n <= components.len(),
        depth_of(components.take(n)) is None,
    ensures
        depth_of(components) is None,
    decreases components.len() - n,
{
    if n < components.len() {
        assert(components.take(n + 1).drop_last() =~= components.take(n));
        lemma_left_for_good(components, n + 1);
    } else {
        assert(components.take(n) =~= components);
    }
}

/// A path that does not leave the directory is never above it: after each
/// of its components it is at some depth below the directory's top.
pub proof fn lemma_never_above_root(components: Seq<Seq<char>>, n: int)
    requires
        0 <= n <= components.len(),
        depth_of(components) is Some,
    ensures
        depth_of(components.take(n)) is Some,
{
    if depth_of(components.take(n)) is None {
        lemma_left_for_good(components, n);
    }
}

/// What a request target names below a root: the target without its query
/// and without the `/` it begins with, and with `index.html` for a
/// directory.
pub open spec fn static_path(uri: Seq<char>) -> Seq<char> {
    without_leading_slashes(with_index(strip_query(uri)))
}

/// The file that a static source with the given root serves for the
/// request target `uri`: what the target names, put after the root.
/// `None` if the root has no directory, and if the path leaves the root:
/// such a path is served nothing.
pub open spec fn static_target(root: Seq<char>, uri: Seq<char>) -> Option<Seq<char>> {
    match uri_root(root) {
        Some(dir) => if leaves_root(static_path(uri)) {
            None
        } else {
            Some(dir + static_path(uri))
        },
        None => None,
    }
}

/// A file that a static source serves lies below its root: its path is the
/// root's directory followed by a path that does not begin with `/` and
/// does not leave the directory.
pub proof fn lemma_static_target_below_root(root: Seq<char>, uri: Seq<char>)
    requires
        static_target(root, uri) is Some,
    ensures
        uri_root(root) matches Some(dir) && ({
            let file = static_target(root, uri).unwrap();
            let rest = file.skip(dir.len() as int);
            &&& dir.is_prefix_of(file)
            &&& rest == static_path(uri)
            &&& !leaves_root(rest)
            &&& rest.len() == 0 || rest[0] != '/'
        }),
{
    let dir = uri_root(root).unwrap();
    let rest = static_path(uri);
    lemma_without_leading_slashes(with_index(strip_query(uri)));
    assert((dir + rest).subrange(0, dir.len() as int) =~= dir);
    assert((dir + rest).skip(dir.len() as int) =~= rest);
}

fn is_text(part: &Vec<char>, first: char, second: Option<char>) -> (r: bool)
    ensures
        r == (part@ == match second {
            Some(c) => seq![first, c],
            None => seq![first],
        }),
{
    match second {
        Some(c) => {
            if part.len() == 2 && part[0] == first && part[1] == c {
                assert(part@ =~= seq![first, c]);
                true
            } else {
                assert(seq![first, c].len() == 2);
                assert(seq![first, c][0] == first && seq![first, c][1] == c);
                false
            }
        },
        None => {
            if part.len() == 1 && part[0] == first {
                assert(part@ =~= seq![first]);
                true
            } else {
                assert(seq![first].len() == 1 && seq![first][0] == first);
                false
            }
        },
    }
}

/// Whether a path leaves the directory that it is taken to lie in.
pub fn path_leaves_root(path: &Vec<char>) -> (r: bool)
    ensures
        r == leaves_root(path@),
{
    let parts = split_chars(path, '/');
    let ghost fields = fields_view(parts@);
    let mut depth: usize = 0;
    let mut i: usize = 0;
    assert(fields.take(0) =~= Seq::<Seq<char>>::empty());
    while i < parts.len()
        invariant
            i <= parts.len(),
            depth <= i,
            fields == fields_view(parts@),
            fields == split_on(path@, '/'),
            depth_of(fields.take(i as int)) == Some(depth as nat),
        decreases parts.len() - i,
    {
        let part = &parts[i];
        assert(fields[i as int] == part@);
        assert(fields.take(i + 1).drop_last() =~= fields.take(i as int));
        assert(fields.take(i + 1).last() == part@);
        if is_text(part, '.', Some('.')) {
            if depth == 0 {
                proof {
                    lemma_left_for_good(fields, i + 1);
                }
                return true;
            }
            depth -= 1;
        } else if part.len() == 0 || is_text(part, '.', None) {
        } else {
            depth += 1;
        }
        i += 1;
    }
    assert(fields.take(parts.len() as int) =~= fields);
    false
}

/// The path of the file that a static source rooted at `root` serves for
/// the request target `uri`.
pub fn static_file_path(root: &str, uri: &str) -> (r: Option<String>)
    ensures
        match static_target(root@, uri@) {
            Some(p) => r matches Some(s) && s@ == p,
            None => r is None,
        },
{
    let chars = chars_of(uri);
    let end: usize = match find_char(&chars, '?') {
        Some(i) => i,
        None => chars.len(),
    };
    let mut path = string_of_range(&chars, 0, end);
    assert(chars@.subrange(0, end as int) =~= strip_query(uri@));
    if end > 0 && chars[end - 1] == '/' {
        path = path.concat("index.html");
    }
    let rest = strip_leading_slashes(&chars_of(path.as_str()));
    match uri_directory(root) {
        None => None,
        Some(dir) => {
            if path_leaves_root(&rest) {
                None
            } else {
                Some(dir.concat(string_of(&rest).as_str()))
            }
        },
    }
}

/// `Path::exists`: whether something can be found at `path` right now.
/// Nothing is known of the answer beforehand.
#[verifier::external_body]
fn file_exists(path: &str) -> bool {
    Path::new(path).exists()
}

/// Whether a static source can serve a request, given the file it would
/// serve and whether something was found at that file's path: it can when
/// there is such a file and it was found.
pub fn static_available(file: &Option<String>, found: bool) -> (r: bool)
    ensures
        r == (file is Some && found),
{
    file.is_some() && found
}

/// Whether a static source can serve the request target `path`, given in
/// decoded form, at this moment: whether the file it would serve exists.
/// The file looked for is the one that [`static_file_path`] gives. A
/// source whose root has no directory serves nothing, and a path that
/// leaves the root is served nothing.
pub fn check_static_status(source: &StaticServer, path: &str) -> (r: bool)
    ensures
        static_target(source.root@, path@) is None ==> !r,
{
    let file = static_file_path(source.root.as_str(), path);
    let found = match &file {
        Some(file) => file_exists(file.as_str()),
        None => false,
    };
    static_available(&file, found)
}

/// Whether a source can serve `path` at this moment. A static source is
/// asked by [`check_static_status`]; for a proxied one `proxy_status` gives
/// the latest result of probing its upstream.
pub fn check_status<F: Fn(&Proxy) -> bool>(source: &Source, path: &str, proxy_status: F) -> (r:
    bool)
    requires
        forall|proxy: &Proxy| proxy_status.requires((proxy,)),
    ensures
        match source {
            Source::Proxy(proxy) => proxy_status.ensures((proxy,), r),
            Source::Static(fixed) => static_target(fixed.root@, path@) is None ==> !r,
        },
{
    match source {
        Source::Proxy(proxy) => proxy_status(proxy),
        Source::Static(fixed) => check_static_status(fixed, path),
    }
}

} // verus!
