//! The local cache of a registry: for each logical service, the entries
//! that the process has seen for it, in the order in which it saw them.

use crate::plugin::{content_views, Content, ServiceContent};
use crate::text::{same_text, string_views};
use vstd::prelude::*;

verus! {

/// A registration as the store holds it: a record under the id of the
/// registration.
#[derive(Debug, Clone, PartialEq, Eq)]
pub struct ServiceEntry {
    pub id: String,
    pub content: ServiceContent,
}

/// A registration as a mathematical value.
pub struct Entry {
    pub id: Seq<char>,
    pub content: Content,
}

impl View for ServiceEntry {
    type V = Entry;

    open spec fn view(&self) -> Entry {
        Entry { id: self.id@, content: self.content@ }
    }
}

impl ServiceEntry {
    /// A copy of the entry.
    pub fn duplicate(&self) -> (r: Self)
        ensures
            r@ == self@,
    {
        ServiceEntry { id: self.id.clone(), content: self.content.duplicate() }
    }
}

/// The views of a sequence of entries.
pub open spec fn entry_views(r: Seq<ServiceEntry>) -> Seq<Entry> {
    Seq::new(r.len(), |i: int| r[i]@)
}

/// The contents of entries, in order.
pub open spec fn contents_of(entries: Seq<Entry>) -> Seq<Content> {
    Seq::new(entries.len(), |i: int| entries[i].content)
}

/// The ids of entries, in order.
pub open spec fn ids_of(entries: Seq<Entry>) -> Seq<Seq<char>> {
    Seq::new(entries.len(), |i: int| entries[i].id)
}

/// The contents of a list of entries.
pub fn contents(entries: &Vec<ServiceEntry>) -> (r: Vec<ServiceContent>)
    ensures
        content_views(r@) == contents_of(entry_views(entries@)),
{
    let mut r: Vec<ServiceContent> = Vec::new();
    let mut k: usize = 0;
    while k < entries.len()
        invariant
            k <= entries.len(),
            r.len() == k,
            forall|j: int| 0 <= j < k ==> (#[trigger] r@[j])@ == entries@[j]@.content,
        decreases entries.len() - k,
    {
        r.push(entries[k].content.duplicate());
        k += 1;
    }
    assert(content_views(r@) =~= contents_of(entry_views(entries@)));
    r
}

/// The ids of a list of entries.
pub fn ids(entries: &Vec<ServiceEntry>) -> (r: Vec<String>)
    ensures
        string_views(r@) == ids_of(entry_views(entries@)),
{
    let mut r: Vec<String> = Vec::new();
    let mut k: usize = 0;
    while k < entries.len()
        invariant
            k <= entries.len(),
            r.len() == k,
            forall|j: int| 0 <= j < k ==> (#[trigger] r@[j])@ == entries@[j]@.id,
        decreases entries.len() - k,
    {
        r.push(entries[k].id.clone());
        k += 1;
    }
    assert(string_views(r@) =~= ids_of(entry_views(entries@)));
    r
}

/// The index of the first entry with the given id, or the length where
/// there is none.
pub open spec fn position_of_id(entries: Seq<Entry>, id: Seq<char>) -> int
    decreases entries.len(),
{
    if entries.len() == 0 || entries[0].id == id {
        0
    } else {
        1 + position_of_id(entries.skip(1), id)
    }
}

/// The entries after one more was seen: it takes the place of the first
/// entry with its id, and stands at the end where there is none.
pub open spec fn upserted(entries: Seq<Entry>, entry: Entry) -> Seq<Entry> {
    let i = position_of_id(entries, entry.id);
    if 0 <= i < entries.len() {
        entries.update(i, entry)
    } else {
        entries.push(entry)
    }
}

/// The entries without those of the given id.
pub open spec fn without_id(entries: Seq<Entry>, id: Seq<char>) -> Seq<Entry>
    decreases entries.len(),
{
    if entries.len() == 0 {
        Seq::empty()
    } else {
        let before = without_id(entries.drop_last(), id);
        if entries.last().id == id {
            before
        } else {
            before.push(entries.last())
        }
    }
}

/// The cache after an entry was seen for a service.
pub open spec fn cache_upserted(
    cache: Map<Seq<char>, Seq<Entry>>,
    service: Seq<char>,
    entry: Entry,
) -> Map<Seq<char>, Seq<Entry>> {
    if cache.dom().contains(service) {
        cache.insert(service, upserted(cache[service], entry))
    } else {
        cache.insert(service, seq![entry])
    }
}

/// The cache after a registration was seen to leave: no service has an
/// entry of its id any more.
pub open spec fn cache_without_id(cache: Map<Seq<char>, Seq<Entry>>, id: Seq<char>) -> Map<
    Seq<char>,
    Seq<Entry>,
> {
    cache.map_values(|entries: Seq<Entry>| without_id(entries, id))
}

/// The entries of one service.
struct Bucket {
    name: String,
    entries: Vec<ServiceEntry>,
}

/// The map that a list of buckets stands for; of two buckets with one name
/// the later counts.
spec fn bucket_map(buckets: Seq<Bucket>) -> Map<Seq<char>, Seq<Entry>>
    decreases buckets.len(),
{
    if buckets.len() == 0 {
        Map::empty()
    } else {
        bucket_map(buckets.drop_last()).insert(
            buckets.last().name@,
            entry_views(buckets.last().entries@),
        )
    }
}

/// No two buckets have one name.
spec fn distinct_names(buckets: Seq<Bucket>) -> bool {
    forall|i: int, j: int|
        0 <= i < j < buckets.len() ==> (#[trigger] buckets[i]).name@ != (#[trigger] buckets[j]).name@
}

proof fn lemma_position_of_id(entries: Seq<Entry>, id: Seq<char>)
    ensures
        0 <= position_of_id(entries, id) <= entries.len(),
        forall|k: int| 0 <= k < position_of_id(entries, id) ==> entries[k].id != id,
        position_of_id(entries, id) < entries.len() ==> entries[position_of_id(entries, id)].id
            == id,
    decreases entries.len(),
{
    if entries.len() == 0 || entries[0].id == id {
    } else {
        let t = entries.skip(1);
        lemma_position_of_id(t, id);
        assert forall|k: int| 0 <= k < position_of_id(entries, id) implies entries[k].id != id by {
            if k > 0 {
                assert(t[k - 1] == entries[k]);
            }
        }
        if position_of_id(entries, id) < entries.len() {
            assert(t[position_of_id(t, id)] == entries[position_of_id(t, id) + 1]);
        }
    }
}

proof fn lemma_position_of_id_is(entries: Seq<Entry>, id: Seq<char>, j: int)
    requires
        0 <= j <= entries.len(),
        forall|k: int| 0 <= k < j ==> entries[k].id != id,
        j == entries.len() || entries[j].id == id,
    ensures
        position_of_id(entries, id) == j,
    decreases entries.len(),
{
    if entries.len() == 0 || entries[0].id == id {
    } else {
        let t = entries.skip(1);
        assert forall|k: int| 0 <= k < j - 1 implies t[k].id != id by {
            assert(t[k] == entries[k + 1]);
        }
        lemma_position_of_id_is(t, id, j - 1);
    }
}

/// What the map of a list of distinct buckets holds: under the name of each
/// bucket its entries, and nothing under any other name.
proof fn lemma_bucket_map(buckets: Seq<Bucket>)
    requires
        distinct_names(buckets),
    ensures
        forall|i: int|
            0 <= i < buckets.len() ==> bucket_map(buckets).dom().contains(
                (#[trigger] buckets[i]).name@,
            ) && bucket_map(buckets)[buckets[i].name@] == entry_views(buckets[i].entries@),
        forall|k: Seq<char>|
            bucket_map(buckets).dom().contains(k) ==> exists|i: int|
                0 <= i < buckets.len() && (#[trigger] buckets[i]).name@ == k,
    decreases buckets.len(),
{
    if buckets.len() > 0 {
        let front = buckets.drop_last();
        assert forall|i: int, j: int| 0 <= i < j < front.len() implies (#[trigger] front[i]).name@
            != (#[trigger] front[j]).name@ by {
            assert(front[i] == buckets[i]);
            assert(front[j] == buckets[j]);
        }
        lemma_bucket_map(front);
        assert forall|i: int| 0 <= i < buckets.len() implies bucket_map(buckets).dom().contains(
            (#[trigger] buckets[i]).name@,
        ) && bucket_map(buckets)[buckets[i].name@] == entry_views(buckets[i].entries@) by {
            if i < buckets.len() - 1 {
                assert(front[i] == buckets[i]);
                assert(buckets[i].name@ != buckets[buckets.len() - 1].name@);
            }
        }
        assert forall|k: Seq<char>| bucket_map(buckets).dom().contains(k) implies exists|i: int|
            0 <= i < buckets.len() && (#[trigger] buckets[i]).name@ == k by {
            if k == buckets.last().name@ {
                assert(buckets[buckets.len() - 1].name@ == k);
            } else {
                assert(bucket_map(front).dom().contains(k));
                let i = choose|i: int| 0 <= i < front.len() && (#[trigger] front[i]).name@ == k;
                assert(buckets[i] == front[i]);
            }
        }
    }
}

/// A cache of registry entries by logical service.
pub struct CacheMap {
    buckets: Vec<Bucket>,
}

impl View for CacheMap {
    type V = Map<Seq<char>, Seq<Entry>>;

    closed spec fn view(&self) -> Map<Seq<char>, Seq<Entry>> {
        bucket_map(self.buckets@)
    }
}

impl CacheMap {
    /// The cache holds each service once.
    pub closed spec fn wf(&self) -> bool {
        distinct_names(self.buckets@)
    }

    /// An empty cache.
    pub fn new() -> (r: Self)
        ensures
            r.wf(),
            r@ == Map::<Seq<char>, Seq<Entry>>::empty(),
    {
        CacheMap { buckets: Vec::new() }
    }

    /// The index of the bucket of a service, or the number of buckets.
    fn find(&self, service: &str) -> (i: usize)
        requires
            self.wf(),
        ensures
            i <= self.buckets.len(),
            i < self.buckets.len() ==> self.buckets@[i as int].name@ == service@,
            i < self.buckets.len() <==> self@.dom().contains(service@),
            i < self.buckets.len() ==> self@[service@] == entry_views(
                self.buckets@[i as int].entries@,
            ),
    {
        let mut i: usize = 0;
        while i < self.buckets.len()
            invariant
                i <= self.buckets.len(),
                self.wf(),
                forall|k: int| 0 <= k < i ==> (#[trigger] self.buckets@[k]).name@ != service@,
            decreases self.buckets.len() - i,
        {
            if same_text(self.buckets[i].name.as_str(), service) {
                proof {
                    lemma_bucket_map(self.buckets@);
                }
                return i;
            }
            i += 1;
        }
        proof {
            lemma_bucket_map(self.buckets@);
        }
        i
    }

    /// The entries cached for a service; none where the cache has never
    /// seen the service.
    pub fn get(&self, service: &str) -> (r: Option<Vec<ServiceEntry>>)
        requires
            self.wf(),
        ensures
            match r {
                Some(entries) => self@.dom().contains(service@) && entry_views(entries@)
                    == self@[service@],
                None => !self@.dom().contains(service@),
            },
    {
        let i = self.find(service);
        if i == self.buckets.len() {
            return None;
        }
        let bucket = &self.buckets[i];
        let mut r: Vec<ServiceEntry> = Vec::new();
        let mut k: usize = 0;
        while k < bucket.entries.len()
            invariant
                k <= bucket.entries.len(),
                r.len() == k,
                forall|j: int| 0 <= j < k ==> (#[trigger] r@[j])@ == bucket.entries@[j]@,
            decreases bucket.entries.len() - k,
        {
            r.push(bucket.entries[k].duplicate());
            k += 1;
        }
        assert(entry_views(r@) =~= entry_views(bucket.entries@));
        Some(r)
    }

    /// Puts the given entries in the place of what the cache holds for a
    /// service.
    pub fn fill(&mut self, service: &str, entries: Vec<ServiceEntry>)
        requires
            old(self).wf(),
        ensures
            final(self).wf(),
            final(self)@ == old(self)@.insert(service@, entry_views(entries@)),
    {
        let i = self.find(service);
        let ghost before = self.buckets@;
        let bucket = Bucket { name: service.to_owned(), entries };
        if i == self.buckets.len() {
            self.buckets.push(bucket);
            proof {
                lemma_bucket_map(before);
                assert(self.buckets@.drop_last() == before);
                assert forall|a: int, b: int| 0 <= a < b < self.buckets@.len() implies (
                #[trigger] self.buckets@[a]).name@ != (#[trigger] self.buckets@[b]).name@ by {
                    assert(self.buckets@[a] == before[a]);
                    if b < before.len() {
                        assert(self.buckets@[b] == before[b]);
                    }
                }
            }
        } else {
            self.buckets.set(i, bucket);
            proof {
                lemma_replace_bucket(before, i as int, bucket);
            }
        }
    }

    /// Takes note of an entry seen for a service: it takes the place of the
    /// first cached entry with its id, or joins the entries of the service
    /// at the end.
    pub fn update_cache(&mut self, service: &str, entry: &ServiceEntry)
        requires
            old(self).wf(),
        ensures
            final(self).wf(),
            final(self)@ == cache_upserted(old(self)@, service@, entry@),
    {
        match self.get(service) {
            Some(entries) => {
                let mut entries = entries;
                let mut k: usize = 0;
                while k < entries.len() && !same_text(entries[k].id.as_str(), entry.id.as_str())
                    invariant
                        k <= entries.len(),
                        forall|j: int| 0 <= j < k ==> (#[trigger] entries@[j])@.id != entry@.id,
                    decreases entries.len() - k,
                {
                    k += 1;
                }
                let ghost before = entry_views(entries@);
                proof {
                    assert forall|j: int| 0 <= j < k implies before[j].id != entry@.id by {
                        assert(before[j] == entries@[j]@);
                    }
                    if k < entries.len() {
                        assert(before[k as int] == entries@[k as int]@);
                    }
                    lemma_position_of_id_is(before, entry@.id, k as int);
                }
                if k < entries.len() {
                    entries.set(k, entry.duplicate());
                    assert(entry_views(entries@) =~= before.update(k as int, entry@));
                } else {
                    entries.push(entry.duplicate());
                    assert(entry_views(entries@) =~= before.push(entry@));
                }
                self.fill(service, entries);
            },
            None => {
                let mut entries: Vec<ServiceEntry> = Vec::new();
                entries.push(entry.duplicate());
                assert(entry_views(entries@) =~= seq![entry@]);
                self.fill(service, entries);
            },
        }
    }

    /// Takes note that a registration left: every entry of its id leaves
    /// the cache, whatever service it stands under.
    pub fn remove_cache(&mut self, id: &str)
        requires
            old(self).wf(),
        ensures
            final(self).wf(),
            final(self)@ == cache_without_id(old(self)@, id@),
    {
        let ghost before = self.buckets@;
        let mut i: usize = 0;
        while i < self.buckets.len()
            invariant
                i <= self.buckets.len(),
                self.buckets@.len() == before.len(),
                forall|k: int|
                    0 <= k < before.len() ==> (#[trigger] self.buckets@[k]).name@ == before[k].name@,
                forall|k: int|
                    0 <= k < i ==> entry_views((#[trigger] self.buckets@[k]).entries@)
                        == without_id(entry_views(before[k].entries@), id@),
                forall|k: int| i <= k < before.len() ==> self.buckets@[k] == before[k],
            decreases self.buckets.len() - i,
        {
            let bucket = &self.buckets[i];
            let mut kept: Vec<ServiceEntry> = Vec::new();
            let mut k: usize = 0;
            assert(entry_views(bucket.entries@).take(0) =~= Seq::<Entry>::empty());
            while k < bucket.entries.len()
                invariant
                    k <= bucket.entries.len(),
                    entry_views(kept@) == without_id(
                        entry_views(bucket.entries@).take(k as int),
                        id@,
                    ),
                decreases bucket.entries.len() - k,
            {
                proof {
                    let done = entry_views(bucket.entries@).take(k + 1);
                    assert(done.drop_last() == entry_views(bucket.entries@).take(k as int));
                    assert(done.last() == bucket.entries@[k as int]@);
                }
                if !same_text(bucket.entries[k].id.as_str(), id) {
                    let ghost had = entry_views(kept@);
                    kept.push(bucket.entries[k].duplicate());
                    assert(entry_views(kept@) =~= had.push(bucket.entries@[k as int]@));
                }
                k += 1;
            }
            assert(entry_views(bucket.entries@).take(bucket.entries.len() as int) == entry_views(
                bucket.entries@,
            ));
            let name = bucket.name.clone();
            self.buckets.set(i, Bucket { name, entries: kept });
            i += 1;
        }
        proof {
            lemma_filtered_buckets(before, self.buckets@, id@);
        }
    }
}

/// Putting a bucket in the place of one with the same name puts its entries
/// under that name, and leaves the names distinct.
proof fn lemma_replace_bucket(buckets: Seq<Bucket>, i: int, bucket: Bucket)
    requires
        distinct_names(buckets),
        0 <= i < buckets.len(),
        buckets[i].name@ == bucket.name@,
    ensures
        distinct_names(buckets.update(i, bucket)),
        bucket_map(buckets.update(i, bucket)) == bucket_map(buckets).insert(
            bucket.name@,
            entry_views(bucket.entries@),
        ),
{
    let after = buckets.update(i, bucket);
    assert forall|a: int, b: int| 0 <= a < b < after.len() implies (#[trigger] after[a]).name@ != (
    #[trigger] after[b]).name@ by {
        assert(after[a].name@ == buckets[a].name@);
        assert(after[b].name@ == buckets[b].name@);
    }
    lemma_bucket_map(buckets);
    lemma_bucket_map(after);
    let want = bucket_map(buckets).insert(bucket.name@, entry_views(bucket.entries@));
    assert forall|k: Seq<char>| bucket_map(after).dom().contains(k) <==> want.dom().contains(
        k,
    ) by {
        if bucket_map(after).dom().contains(k) {
            let a = choose|a: int| 0 <= a < after.len() && (#[trigger] after[a]).name@ == k;
            assert(buckets[a].name@ == k);
        }
        if want.dom().contains(k) && k != bucket.name@ {
            let a = choose|a: int| 0 <= a < buckets.len() && (#[trigger] buckets[a]).name@ == k;
            assert(after[a].name@ == k);
        }
        if k == bucket.name@ {
            assert(after[i].name@ == k);
        }
    }
    assert forall|k: Seq<char>| bucket_map(after).dom().contains(k) implies bucket_map(after)[k]
        == want[k] by {
        let a = choose|a: int| 0 <= a < after.len() && (#[trigger] after[a]).name@ == k;
        if a == i {
        } else {
            assert(after[a] == buckets[a]);
            assert(buckets[a].name@ != buckets[i].name@);
        }
    }
    assert(bucket_map(after) =~= want);
}

/// Buckets that keep their names, each with its entries without those of
/// one id, stand for the map without the entries of that id.
proof fn lemma_filtered_buckets(before: Seq<Bucket>, after: Seq<Bucket>, id: Seq<char>)
    requires
        distinct_names(before),
        after.len() == before.len(),
        forall|k: int| 0 <= k < before.len() ==> (#[trigger] after[k]).name@ == before[k].name@,
        forall|k: int|
            0 <= k < before.len() ==> entry_views((#[trigger] after[k]).entries@) == without_id(
                entry_views(before[k].entries@),
                id,
            ),
    ensures
        distinct_names(after),
        bucket_map(after) == cache_without_id(bucket_map(before), id),
{
    assert forall|a: int, b: int| 0 <= a < b < after.len() implies (#[trigger] after[a]).name@ != (
    #[trigger] after[b]).name@ by {
        assert(after[a].name@ == before[a].name@);
        assert(after[b].name@ == before[b].name@);
    }
    lemma_bucket_map(before);
    lemma_bucket_map(after);
    let want = cache_without_id(bucket_map(before), id);
    assert forall|k: Seq<char>| bucket_map(after).dom().contains(k) <==> want.dom().contains(
        k,
    ) by {
        if bucket_map(after).dom().contains(k) {
            let a = choose|a: int| 0 <= a < after.len() && (#[trigger] after[a]).name@ == k;
            assert(before[a].name@ == k);
        }
        if want.dom().contains(k) {
            let a = choose|a: int| 0 <= a < before.len() && (#[trigger] before[a]).name@ == k;
            assert(after[a].name@ == k);
        }
    }
    assert forall|k: Seq<char>| bucket_map(after).dom().contains(k) implies bucket_map(after)[k]
        == want[k] by {
        let a = choose|a: int| 0 <= a < after.len() && (#[trigger] after[a]).name@ == k;
        assert(before[a].name@ == k);
    }
    assert(bucket_map(after) =~= want);
}

/// No two entries have one id.
pub open spec fn distinct_ids(entries: Seq<Entry>) -> bool {
    forall|i: int, j: int|
        0 <= i < j < entries.len() ==> (#[trigger] entries[i]).id != (#[trigger] entries[j]).id
}

/// Seeing an entry leaves the ids distinct.
pub proof fn lemma_upserted_distinct(entries: Seq<Entry>, entry: Entry)
    requires
        distinct_ids(entries),
    ensures
        distinct_ids(upserted(entries, entry)),
{
    lemma_position_of_id(entries, entry.id);
    let after = upserted(entries, entry);
    assert forall|i: int, j: int| 0 <= i < j < after.len() implies (#[trigger] after[i]).id != (
    #[trigger] after[j]).id by {
        if i < entries.len() {
            assert(after[i].id == entries[i].id);
        }
        if j < entries.len() {
            assert(after[j].id == entries[j].id);
        }
    }
}

/// Dropping the entries of an id leaves the ids distinct.
pub proof fn lemma_without_id_distinct(entries: Seq<Entry>, id: Seq<char>)
    requires
        distinct_ids(entries),
    ensures
        distinct_ids(without_id(entries, id)),
    decreases entries.len(),
{
    if entries.len() > 0 {
        let front = entries.drop_last();
        let last = entries.last();
        assert forall|i: int, j: int| 0 <= i < j < front.len() implies (#[trigger] front[i]).id != (
        #[trigger] front[j]).id by {
            assert(front[i] == entries[i]);
            assert(front[j] == entries[j]);
        }
        lemma_without_id_distinct(front, id);
        lemma_without_id(front, id);
        let before = without_id(front, id);
        let after = without_id(entries, id);
        if last.id != id {
            assert forall|i: int, j: int| 0 <= i < j < after.len() implies (#[trigger] after[i]).id
                != (#[trigger] after[j]).id by {
                assert(after[i] == before[i]);
                if j == before.len() {
                    assert(before.contains(before[i]));
                    let k = choose|k: int| 0 <= k < front.len() && front[k] == before[i];
                    assert(entries[k] == front[k]);
                    assert(entries[entries.len() - 1] == last);
                } else {
                    assert(after[j] == before[j]);
                }
            }
        }
    }
}

/// The registrations that a process has made and has to renew.
pub struct OwnedSet {
    entries: Vec<ServiceEntry>,
}

impl View for OwnedSet {
    type V = Seq<Entry>;

    closed spec fn view(&self) -> Seq<Entry> {
        entry_views(self.entries@)
    }
}

impl OwnedSet {
    /// The set holds one registration for each id.
    pub open spec fn wf(&self) -> bool {
        distinct_ids(self@)
    }

    /// No registrations.
    pub fn new() -> (r: Self)
        ensures
            r.wf(),
            r@ == Seq::<Entry>::empty(),
    {
        let r = OwnedSet { entries: Vec::new() };
        assert(r@ =~= Seq::<Entry>::empty());
        r
    }

    /// Records a registration; it takes the place of one with the same id.
    pub fn insert(&mut self, entry: ServiceEntry)
        ensures
            final(self)@ == upserted(old(self)@, entry@),
            old(self).wf() ==> final(self).wf(),
    {
        proof {
            if old(self).wf() {
                lemma_upserted_distinct(old(self)@, entry@);
            }
        }
        let mut k: usize = 0;
        while k < self.entries.len() && !same_text(self.entries[k].id.as_str(), entry.id.as_str())
            invariant
                k <= self.entries.len(),
                forall|j: int| 0 <= j < k ==> (#[trigger] self.entries@[j])@.id != entry@.id,
            decreases self.entries.len() - k,
        {
            k += 1;
        }
        let ghost before = entry_views(self.entries@);
        proof {
            assert forall|j: int| 0 <= j < k implies before[j].id != entry@.id by {
                assert(before[j] == self.entries@[j]@);
            }
            if k < self.entries.len() {
                assert(before[k as int] == self.entries@[k as int]@);
            }
            lemma_position_of_id_is(before, entry@.id, k as int);
        }
        if k < self.entries.len() {
            self.entries.set(k, entry);
            assert(entry_views(self.entries@) =~= before.update(k as int, entry@));
        } else {
            self.entries.push(entry);
            assert(entry_views(self.entries@) =~= before.push(entry@));
        }
    }

    /// Forgets the registrations of the given id.
    pub fn remove(&mut self, id: &str)
        ensures
            final(self)@ == without_id(old(self)@, id@),
            old(self).wf() ==> final(self).wf(),
    {
        proof {
            if old(self).wf() {
                lemma_without_id_distinct(old(self)@, id@);
            }
        }
        let mut kept: Vec<ServiceEntry> = Vec::new();
        let mut k: usize = 0;
        assert(entry_views(self.entries@).take(0) =~= Seq::<Entry>::empty());
        while k < self.entries.len()
            invariant
                k <= self.entries.len(),
                entry_views(kept@) == without_id(entry_views(self.entries@).take(k as int), id@),
            decreases self.entries.len() - k,
        {
            proof {
                let done = entry_views(self.entries@).take(k + 1);
                assert(done.drop_last() == entry_views(self.entries@).take(k as int));
                assert(done.last() == self.entries@[k as int]@);
            }
            if !same_text(self.entries[k].id.as_str(), id) {
                let ghost had = entry_views(kept@);
                kept.push(self.entries[k].duplicate());
                assert(entry_views(kept@) =~= had.push(self.entries@[k as int]@));
            }
            k += 1;
        }
        assert(entry_views(self.entries@).take(self.entries.len() as int) == entry_views(
            self.entries@,
        ));
        self.entries = kept;
    }

    /// The registrations, oldest first.
    pub fn entries(&self) -> (r: Vec<ServiceEntry>)
        ensures
            entry_views(r@) == self@,
    {
        let mut r: Vec<ServiceEntry> = Vec::new();
        let mut k: usize = 0;
        while k < self.entries.len()
            invariant
                k <= self.entries.len(),
                r.len() == k,
                forall|j: int| 0 <= j < k ==> (#[trigger] r@[j])@ == self.entries@[j]@,
            decreases self.entries.len() - k,
        {
            r.push(self.entries[k].duplicate());
            k += 1;
        }
        assert(entry_views(r@) =~= entry_views(self.entries@));
        r
    }

    /// The id of the first registration for the given service, or the empty
    /// text where there is none.
    pub fn id_for(&self, service: &str) -> (r: String)
        ensures
            r@ == own_id(self@, service@),
    {
        let mut k: usize = 0;
        assert(entry_views(self.entries@).skip(0) =~= entry_views(self.entries@));
        while k < self.entries.len()
            invariant
                k <= self.entries.len(),
                own_id(self@, service@) == own_id(
                    entry_views(self.entries@).skip(k as int),
                    service@,
                ),
            decreases self.entries.len() - k,
        {
            let ghost rest = entry_views(self.entries@).skip(k as int);
            assert(rest[0] == self.entries@[k as int]@);
            assert(rest.skip(1) =~= entry_views(self.entries@).skip(k + 1));
            if same_text(self.entries[k].content.service.as_str(), service) {
                return self.entries[k].id.clone();
            }
            k += 1;
        }
        String::new()
    }
}

/// The id of the first entry for the given service, or the empty text.
pub open spec fn own_id(entries: Seq<Entry>, service: Seq<char>) -> Seq<char>
    decreases entries.len(),
{
    if entries.len() == 0 {
        Seq::empty()
    } else if entries[0].content.service == service {
        entries[0].id
    } else {
        own_id(entries.skip(1), service)
    }
}

/// After an entry was seen, the entries hold it, and hold nothing but what
/// they held before and the entry.
pub proof fn lemma_upserted(entries: Seq<Entry>, entry: Entry)
    ensures
        upserted(entries, entry).contains(entry),
        forall|e: Entry| #[trigger]
            upserted(entries, entry).contains(e) ==> e == entry || entries.contains(e),
{
    lemma_position_of_id(entries, entry.id);
    let i = position_of_id(entries, entry.id);
    let after = upserted(entries, entry);
    if 0 <= i < entries.len() {
        assert(after[i] == entry);
        assert forall|e: Entry| #[trigger] after.contains(e) implies e == entry || entries.contains(
            e,
        ) by {
            let k = choose|k: int| 0 <= k < after.len() && after[k] == e;
            if k != i {
                assert(entries[k] == e);
            }
        }
    } else {
        assert(after[entries.len() as int] == entry);
        assert forall|e: Entry| #[trigger] after.contains(e) implies e == entry || entries.contains(
            e,
        ) by {
            let k = choose|k: int| 0 <= k < after.len() && after[k] == e;
            if k < entries.len() {
                assert(entries[k] == e);
            }
        }
    }
}

/// After a registration left, no entry has its id, and every entry that is
/// left was there before.
pub proof fn lemma_without_id(entries: Seq<Entry>, id: Seq<char>)
    ensures
        forall|e: Entry| #[trigger]
            without_id(entries, id).contains(e) ==> e.id != id && entries.contains(e),
        forall|e: Entry|
            entries.contains(e) && e.id != id ==> #[trigger] without_id(entries, id).contains(e),
    decreases entries.len(),
{
    if entries.len() > 0 {
        let front = entries.drop_last();
        let last = entries.last();
        lemma_without_id(front, id);
        let before = without_id(front, id);
        let after = without_id(entries, id);
        assert forall|e: Entry| #[trigger] after.contains(e) implies e.id != id
            && entries.contains(e) by {
            let k = choose|k: int| 0 <= k < after.len() && after[k] == e;
            if last.id != id && k == before.len() {
                assert(entries[entries.len() - 1] == e);
            } else {
                assert(before[k] == e);
                assert(before.contains(e));
                let j = choose|j: int| 0 <= j < front.len() && front[j] == e;
                assert(entries[j] == e);
            }
        }
        assert forall|e: Entry| entries.contains(e) && e.id != id implies #[trigger] after.contains(
            e,
        ) by {
            let j = choose|j: int| 0 <= j < entries.len() && entries[j] == e;
            if j == entries.len() - 1 {
                assert(after[before.len() as int] == e);
            } else {
                assert(front[j] == e);
                assert(front.contains(e));
                assert(before.contains(e));
                let k = choose|k: int| 0 <= k < before.len() && before[k] == e;
                assert(after[k] == e);
            }
        }
    }
}

/// The cache holds only what it was shown: after an entry was seen for a
/// service, every cached entry was cached before under the same service,
/// or is the entry seen, which now stands under its service.
pub proof fn lemma_cache_holds_only_seen(
    cache: Map<Seq<char>, Seq<Entry>>,
    service: Seq<char>,
    entry: Entry,
)
    ensures
        cache_upserted(cache, service, entry).dom().contains(service),
        cache_upserted(cache, service, entry)[service].contains(entry),
        forall|s: Seq<char>, e: Entry|
            cache_upserted(cache, service, entry).dom().contains(s) && #[trigger] cache_upserted(
                cache,
                service,
                entry,
            )[s].contains(e) ==> (s == service && e == entry) || (cache.dom().contains(s)
                && cache[s].contains(e)),
{
    let after = cache_upserted(cache, service, entry);
    if cache.dom().contains(service) {
        lemma_upserted(cache[service], entry);
    } else {
        assert(seq![entry][0] == entry);
    }
    assert forall|s: Seq<char>, e: Entry|
        after.dom().contains(s) && #[trigger] after[s].contains(e) implies (s == service && e
        == entry) || (cache.dom().contains(s) && cache[s].contains(e)) by {
        if s == service {
            if cache.dom().contains(service) {
                assert(upserted(cache[service], entry).contains(e));
            } else {
                let k = choose|k: int| 0 <= k < seq![entry].len() && seq![entry][k] == e;
            }
        }
    }
}

/// After a registration was seen to leave, the cache holds no entry of its
/// id, and holds nothing that it did not hold before.
pub proof fn lemma_cache_forgets_id(cache: Map<Seq<char>, Seq<Entry>>, id: Seq<char>)
    ensures
        forall|s: Seq<char>, e: Entry|
            cache_without_id(cache, id).dom().contains(s) && #[trigger] cache_without_id(
                cache,
                id,
            )[s].contains(e) ==> e.id != id && cache.dom().contains(s) && cache[s].contains(e),
{
    let after = cache_without_id(cache, id);
    assert forall|s: Seq<char>, e: Entry|
        after.dom().contains(s) && #[trigger] after[s].contains(e) implies e.id != id
        && cache.dom().contains(s) && cache[s].contains(e) by {
        lemma_without_id(cache[s], id);
        assert(without_id(cache[s], id).contains(e));
    }
}

} // verus!
