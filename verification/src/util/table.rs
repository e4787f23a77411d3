//! The routing table: the sources of a listening port, grouped by virtual
//! host.
//!
//! Every source sits in the bucket of its virtual host; sources without one
//! sit in the default bucket, whose key is empty. A bucket keeps its sources
//! in the order in which they were handed to the table, which is meant to
//! be the order in which they are declared; each has a name that is unique
//! in the bucket.

use vstd::prelude::*;

use crate::config::source::{names_view, Source, SourceModel};
use crate::util::text::{
    chars_eq, chars_of, index_of, lemma_index_of, lemma_index_of_extend, string_of,
};

verus! {

/// The sources of one virtual host.
pub struct BucketModel {
    /// The host name in lower case; empty for the default bucket.
    pub key: Seq<char>,
    /// The names of the sources, in the order of the bucket.
    pub names: Seq<Seq<char>>,
    /// The sources, in the order of the bucket; `sources[i]` bears `names[i]`.
    pub sources: Seq<SourceModel>,
}

/// The keys of the buckets, in order.
pub open spec fn keys(table: Seq<BucketModel>) -> Seq<Seq<char>> {
    table.map_values(|b: BucketModel| b.key)
}

/// The sources of one virtual host, in the order in which they were added.
pub struct Bucket {
    /// The host name in lower case; empty for the default bucket.
    pub sni: String,
    /// Each source with its name.
    pub sources: Vec<(String, Source)>,
}

impl View for Bucket {
    type V = BucketModel;

    open spec fn view(&self) -> BucketModel {
        BucketModel {
            key: self.sni@,
            names: self.sources@.map_values(|e: (String, Source)| e.0@),
            sources: self.sources@.map_values(|e: (String, Source)| e.1@),
        }
    }
}

/// The routing table of one listening port: the sources, grouped by virtual
/// host. It is built once and only read afterwards.
pub struct Routes {
    pub buckets: Vec<Bucket>,
}

impl View for Routes {
    type V = Seq<BucketModel>;

    open spec fn view(&self) -> Seq<BucketModel> {
        self.buckets@.map_values(|b: Bucket| b@)
    }
}

/// The key of the bucket that a source with the given virtual host goes to.
pub open spec fn bucket_key(sni: Option<Seq<char>>) -> Seq<char> {
    match sni {
        Some(s) => s,
        None => Seq::empty(),
    }
}

/// No two entries of `names` are equal.
pub open spec fn distinct(names: Seq<Seq<char>>) -> bool {
    forall|i: int, j: int| 0 <= i < j < names.len() ==> names[i] != names[j]
}

/// The table's invariant: bucket keys are unique, source names are unique
/// within a bucket, and every source sits in the bucket of its virtual host.
pub open spec fn well_formed(table: Seq<BucketModel>) -> bool {
    &&& distinct(keys(table))
    &&& forall|b: int|
        0 <= b < table.len() ==> {
            &&& distinct((#[trigger] table[b]).names)
            &&& table[b].names.len() == table[b].sources.len()
            &&& forall|s: int|
                0 <= s < table[b].sources.len() ==> bucket_key(
                    (#[trigger] table[b].sources[s]).sni,
                ) == table[b].key
        }
}

/// The table with one more source: the source is added, under `name`,
/// after the sources of the bucket of its virtual host; if there is no
/// such bucket yet, one is added after the others. A name that the bucket
/// already holds is refused: the table stays as it is.
pub open spec fn inserted(table: Seq<BucketModel>, name: Seq<char>, source: SourceModel) -> Seq<
    BucketModel,
> {
    let key = bucket_key(source.sni);
    match index_of(keys(table), key) {
        Some(b) => if index_of(table[b].names, name) is Some {
            table
        } else {
            table.update(
                b,
                BucketModel {
                    key,
                    names: table[b].names.push(name),
                    sources: table[b].sources.push(source),
                },
            )
        },
        None => table.push(BucketModel { key, names: seq![name], sources: seq![source] }),
    }
}

/// The table made of the given named sources, added one after the other.
pub open spec fn table_of(entries: Seq<(String, Source)>) -> Seq<BucketModel>
    decreases entries.len(),
{
    if entries.len() == 0 {
        Seq::empty()
    } else {
        inserted(table_of(entries.drop_last()), entries.last().0@, entries.last().1@)
    }
}

/// Whether every name of `names` is among `known`.
pub open spec fn all_known(known: Seq<Seq<char>>, names: Seq<Seq<char>>) -> bool {
    forall|j: int| 0 <= j < names.len() ==> index_of(known, #[trigger] names[j]) is Some
}

/// Whether every fallback name of the bucket names a source of the bucket.
pub open spec fn bucket_closed(bucket: BucketModel) -> bool {
    forall|s: int|
        0 <= s < bucket.sources.len() ==> all_known(
            bucket.names,
            (#[trigger] bucket.sources[s]).fallback,
        )
}

/// Whether every fallback name of the table names a source of the same
/// bucket. In such a table no request fails for a missing fallback.
pub open spec fn fallbacks_closed(table: Seq<BucketModel>) -> bool {
    forall|b: int| 0 <= b < table.len() ==> bucket_closed(#[trigger] table[b])
}

fn names_known(sources: &Vec<(String, Source)>, names: &Vec<String>) -> (r: bool)
    ensures
        r == all_known(sources@.map_values(|e: (String, Source)| e.0@), names_view(names@)),
{
    let ghost known = sources@.map_values(|e: (String, Source)| e.0@);
    let mut j: usize = 0;
    while j < names.len()
        invariant
            j <= names.len(),
            known == sources@.map_values(|e: (String, Source)| e.0@),
            forall|k: int| 0 <= k < j ==> index_of(known, #[trigger] names_view(names@)[k]) is Some,
        decreases names.len() - j,
    {
        let name = chars_of(names[j].as_str());
        assert(names_view(names@)[j as int] == name@);
        if find_name(sources, &name).is_none() {
            return false;
        }
        j += 1;
    }
    true
}

fn bucket_is_closed(bucket: &Bucket) -> (r: bool)
    ensures
        r == bucket_closed(bucket@),
{
    let mut s: usize = 0;
    while s < bucket.sources.len()
        invariant
            s <= bucket.sources.len(),
            forall|k: int|
                0 <= k < s ==> all_known(bucket@.names, (#[trigger] bucket@.sources[k]).fallback),
        decreases bucket.sources.len() - s,
    {
        let source = &bucket.sources[s].1;
        assert(bucket@.sources[s as int] == source@);
        if !names_known(&bucket.sources, source.fallback_as_ref()) {
            return false;
        }
        s += 1;
    }
    true
}

fn find_bucket(buckets: &Vec<Bucket>, key: &Vec<char>) -> (r: Option<usize>)
    ensures
        match index_of(keys(buckets@.map_values(|b: Bucket| b@)), key@) {
            Some(i) => 0 <= i < buckets.len() && r == Some(i as usize),
            None => r is None,
        },
{
    let ghost all = keys(buckets@.map_values(|b: Bucket| b@));
    let mut i: usize = 0;
    assert(all.take(0) =~= Seq::<Seq<char>>::empty());
    while i < buckets.len()
        invariant
            i <= buckets.len(),
            all == keys(buckets@.map_values(|b: Bucket| b@)),
            index_of(all.take(i as int), key@) is None,
        decreases buckets.len() - i,
    {
        let k = chars_of(buckets[i].sni.as_str());
        assert(all.take(i + 1).drop_last() =~= all.take(i as int));
        assert(all.take(i + 1).last() == buckets@[i as int].sni@);
        if chars_eq(&k, key) {
            proof {
                lemma_index_of_extend(all, key@, i + 1);
            }
            return Some(i);
        }
        i += 1;
    }
    assert(all.take(buckets.len() as int) =~= all);
    None
}

fn find_name(sources: &Vec<(String, Source)>, name: &Vec<char>) -> (r: Option<usize>)
    ensures
        match index_of(sources@.map_values(|e: (String, Source)| e.0@), name@) {
            Some(i) => 0 <= i < sources.len() && r == Some(i as usize),
            None => r is None,
        },
{
    let ghost all = sources@.map_values(|e: (String, Source)| e.0@);
    let mut i: usize = 0;
    assert(all.take(0) =~= Seq::<Seq<char>>::empty());
    while i < sources.len()
        invariant
            i <= sources.len(),
            all == sources@.map_values(|e: (String, Source)| e.0@),
            index_of(all.take(i as int), name@) is None,
        decreases sources.len() - i,
    {
        let k = chars_of(sources[i].0.as_str());
        assert(all.take(i + 1).drop_last() =~= all.take(i as int));
        assert(all.take(i + 1).last() == sources@[i as int].0@);
        if chars_eq(&k, name) {
            proof {
                lemma_index_of_extend(all, name@, i + 1);
            }
            return Some(i);
        }
        i += 1;
    }
    assert(all.take(sources.len() as int) =~= all);
    None
}

impl Routes {
    /// Whether the table satisfies its invariant.
    pub open spec fn wf(&self) -> bool {
        well_formed(self@)
    }

    /// A table without sources.
    pub fn new() -> (r: Self)
        ensures
            r@ == Seq::<BucketModel>::empty(),
            r.wf(),
    {
        let r = Routes { buckets: Vec::new() };
        assert(r@ =~= Seq::<BucketModel>::empty());
        r
    }

    /// Whether every source of the table is one of `entries`, under the
    /// name it has there.
    pub open spec fn drawn_from(&self, entries: Seq<(String, Source)>) -> bool {
        forall|b: int, s: int|
            0 <= b < self.buckets@.len() && 0 <= s < self.buckets@[b].sources@.len()
                ==> entries.contains(#[trigger] self.buckets@[b].sources@[s])
    }

    /// The table of the given sources, added in order. A source whose
    /// name its bucket already holds is left out.
    pub fn from_sources(sources: Vec<(String, Source)>) -> (r: Self)
        ensures
            r@ == table_of(sources@),
            r.drawn_from(sources@),
            r.wf(),
    {
        let mut routes = Routes::new();
        let ghost all = sources@;
        assert(all.take(0) =~= Seq::empty());
        for entry in it: sources
            invariant
                it.seq() == all,
                routes.wf(),
                routes@ == table_of(all.take(it.index() as int)),
                routes.drawn_from(all),
        {
            let ghost i = it.index() as int;
            let ghost before = routes;
            assert(all.take(i + 1).drop_last() =~= all.take(i));
            assert(all.take(i + 1).last() == all[i]);
            assert(entry == all[i]);
            let (name, source) = entry;
            let _ = routes.insert(name, source);
            proof {
                lemma_index_of(keys(before@), bucket_key(source@.sni));
                assert forall|b: int, s: int|
                    0 <= b < routes.buckets@.len() && 0 <= s
                        < routes.buckets@[b].sources@.len() implies all.contains(
                    #[trigger] routes.buckets@[b].sources@[s],
                ) by {
                    let placed = routes.buckets@[b].sources@[s];
                    if b < before.buckets@.len() && s < before.buckets@[b].sources@.len() {
                        assert(placed == before.buckets@[b].sources@[s]);
                    } else {
                        assert(placed == all[i]);
                    }
                }
            }
        }
        assert(all.take(all.len() as int) =~= all);
        routes
    }

    /// Whether every fallback name of the table names a source of the
    /// same bucket, so that the table can be refused before it serves.
    pub fn fallbacks_closed(&self) -> (r: bool)
        ensures
            r == fallbacks_closed(self@),
    {
        let mut b: usize = 0;
        while b < self.buckets.len()
            invariant
                b <= self.buckets.len(),
                forall|k: int| 0 <= k < b ==> bucket_closed(#[trigger] self@[k]),
            decreases self.buckets.len() - b,
        {
            assert(self@[b as int] == self.buckets[b as int]@);
            if !bucket_is_closed(&self.buckets[b]) {
                return false;
            }
            b += 1;
        }
        true
    }

    /// The index of the bucket with the given key.
    pub fn bucket_index(&self, key: &str) -> (r: Option<usize>)
        ensures
            match index_of(keys(self@), key@) {
                Some(i) => 0 <= i < self.buckets.len() && r == Some(i as usize),
                None => r is None,
            },
    {
        let k = chars_of(key);
        find_bucket(&self.buckets, &k)
    }

    /// The index, in bucket `bucket`, of the source with the given name.
    pub fn source_index(&self, bucket: usize, name: &str) -> (r: Option<usize>)
        requires
            bucket < self.buckets.len(),
        ensures
            match index_of(self@[bucket as int].names, name@) {
                Some(i) => 0 <= i < self.buckets[bucket as int].sources.len() && r == Some(
                    i as usize,
                ),
                None => r is None,
            },
    {
        let k = chars_of(name);
        find_name(&self.buckets[bucket].sources, &k)
    }

    /// Adds a source under `name` to the bucket of its virtual host, after
    /// the sources that the bucket already holds; the bucket is made, after
    /// the existing ones, if there is none yet. A name that the bucket
    /// already holds is refused and the table stays as it is.
    pub fn insert(&mut self, name: String, source: Source) -> (added: bool)
        requires
            old(self).wf(),
        ensures
            final(self).wf(),
            final(self)@ == inserted(old(self)@, name@, source@),
            ({
                let key = bucket_key(source@.sni);
                match index_of(keys(old(self)@), key) {
                    Some(b) => if index_of(old(self)@[b].names, name@) is Some {
                        !added && final(self).buckets@ == old(self).buckets@
                    } else {
                        &&& added
                        &&& final(self).buckets@.len() == old(self).buckets@.len()
                        &&& final(self).buckets@[b].sni == old(self).buckets@[b].sni
                        &&& final(self).buckets@[b].sources@ == old(self).buckets@[b].sources@.push(
                            (name, source),
                        )
                        &&& forall|i: int|
                            0 <= i < old(self).buckets@.len() && i != b ==> final(self).buckets@[i]
                                == old(self).buckets@[i]
                    },
                    None => {
                        &&& added
                        &&& final(self).buckets@.len() == old(self).buckets@.len() + 1
                        &&& final(self).buckets@.last().sni@ == key
                        &&& final(self).buckets@.last().sources@ == seq![(name, source)]
                        &&& forall|i: int|
                            0 <= i < old(self).buckets@.len() ==> final(self).buckets@[i] == old(
                                self,
                            ).buckets@[i]
                    },
                }
            }),
    {
        let key: Vec<char> = match source.sni_as_ref() {
            Some(s) => chars_of(s.as_str()),
            None => Vec::new(),
        };
        assert(key@ =~= bucket_key(source@.sni));
        let ghost before = self@;
        proof {
            lemma_index_of(keys(before), key@);
        }
        match find_bucket(&self.buckets, &key) {
            Some(b) => {
                let name_chars = chars_of(name.as_str());
                proof {
                    lemma_index_of(before[b as int].names, name@);
                }
                if find_name(&self.buckets[b].sources, &name_chars).is_some() {
                    return false;
                }
                let mut bucket = self.buckets.remove(b);
                bucket.sources.push((name, source));
                self.buckets.insert(b, bucket);
                proof {
                    let after = self@;
                    assert(after.len() == before.len());
                    assert(keys(after) =~= keys(before));
                    assert forall|i: int| 0 <= i < before.len() && i != b implies after[i]
                        == before[i] by {}
                    assert(after[b as int].names =~= before[b as int].names.push(name@));
                    assert(after[b as int].sources =~= before[b as int].sources.push(source@));
                    assert(after[b as int].key == before[b as int].key);
                    assert(keys(before)[b as int] == key@);
                    assert(after =~= inserted(before, name@, source@));
                    assert forall|i: int| 0 <= i < after.len() implies {
                        &&& distinct((#[trigger] after[i]).names)
                        &&& after[i].names.len() == after[i].sources.len()
                        &&& forall|s: int|
                            0 <= s < after[i].sources.len() ==> bucket_key(
                                (#[trigger] after[i].sources[s]).sni,
                            ) == after[i].key
                    } by {
                        if i != b {
                            assert(after[i] == before[i]);
                        }
                    }
                }
                true
            },
            None => {
                let sni = string_of(&key);
                let mut sources: Vec<(String, Source)> = Vec::new();
                sources.push((name, source));
                self.buckets.push(Bucket { sni, sources });
                proof {
                    let after = self@;
                    let n = before.len() as int;
                    assert(after.len() == n + 1);
                    assert forall|i: int| 0 <= i < n implies after[i] == before[i] by {}
                    assert(after[n].key == key@);
                    assert(after[n].names =~= seq![name@]);
                    assert(after[n].sources =~= seq![source@]);
                    assert(keys(after) =~= keys(before).push(key@));
                    assert(after =~= inserted(before, name@, source@));
                    assert forall|i: int| 0 <= i < after.len() implies {
                        &&& distinct((#[trigger] after[i]).names)
                        &&& after[i].names.len() == after[i].sources.len()
                        &&& forall|s: int|
                            0 <= s < after[i].sources.len() ==> bucket_key(
                                (#[trigger] after[i].sources[s]).sni,
                            ) == after[i].key
                    } by {
                        if i < n {
                            assert(after[i] == before[i]);
                        }
                    }
                }
                true
            },
        }
    }
}

} // verus!
