//! An executable model of the `kv_store` table: entries keyed by a
//! canonical UUID string, carrying a JSON document as text and two
//! server-assigned timestamps, with upsert, point read, and the
//! filtered / sorted / paginated listing.
//!
//! Timestamps are microseconds since the Unix epoch. Every write sets
//! both `created_at` and `updated_at` to the commit instant — a
//! replacement resets `created_at` too, which is the service's stated
//! last-write-wins behaviour.

use vstd::prelude::*;
use vstd::relations::sorted_by;
use vstd::multiset::Multiset;
use crate::key::{is_canonical_uuid, UuidKey};
use crate::sort::SortOrder;
use crate::text::{lemma_lex_le_total, lemma_lex_le_trans, lex_le, starts_with, str_eq, str_le,
    str_starts_with};

verus! {

broadcast use vstd::seq_lib::group_to_multiset_ensures, vstd::seq_lib::group_filter_ensures;

/// One key-value entry with its metadata.
pub struct KvEntry {
    pub key: String,
    pub value: String,
    pub created_at: i64,
    pub updated_at: i64,
}

/// The mathematical image of one entry.
pub ghost struct RowModel {
    pub key: Seq<char>,
    pub value: Seq<char>,
    pub created_at: int,
    pub updated_at: int,
}

impl View for KvEntry {
    type V = RowModel;

    open spec fn view(&self) -> RowModel {
        RowModel {
            key: self.key@,
            value: self.value@,
            created_at: self.created_at as int,
            updated_at: self.updated_at as int,
        }
    }
}

impl KvEntry {
    /// A field-for-field copy.
    pub fn duplicate(&self) -> (r: KvEntry)
        ensures
            r@ == self@,
    {
        KvEntry {
            key: self.key.clone(),
            value: self.value.clone(),
            created_at: self.created_at,
            updated_at: self.updated_at,
        }
    }
}

/// The last microsecond of year 9999: every stored timestamp stays
/// below this, so it has a calendar rendering.
pub const MAX_TIMESTAMP_MICROS: i64 = 253402300799999999;

/// A well-formed row: canonical key, orderly timestamps.
pub open spec fn row_wf(r: RowModel) -> bool {
    &&& is_canonical_uuid(r.key)
    &&& 0 <= r.created_at
    &&& r.created_at <= r.updated_at
    &&& r.updated_at <= MAX_TIMESTAMP_MICROS as int
}

/// The model of a sequence of entries.
pub open spec fn models(s: Seq<KvEntry>) -> Seq<RowModel> {
    s.map_values(|e: KvEntry| e@)
}

/// A well-formed table: every row well-formed, keys pairwise distinct.
pub open spec fn table_wf(rows: Seq<RowModel>) -> bool {
    &&& forall|i: int| 0 <= i < rows.len() ==> row_wf(#[trigger] rows[i])
    &&& forall|i: int, j: int|
        0 <= i < j < rows.len() ==> (#[trigger] rows[i]).key != (#[trigger] rows[j]).key
}

/// Some row holds `key`.
pub open spec fn contains_key(rows: Seq<RowModel>, key: Seq<char>) -> bool {
    exists|i: int| 0 <= i < rows.len() && (#[trigger] rows[i]).key == key
}

/// The index of the row holding `key` (unique in a well-formed table).
pub open spec fn index_of_key(rows: Seq<RowModel>, key: Seq<char>) -> int {
    choose|i: int| 0 <= i < rows.len() && (#[trigger] rows[i]).key == key
}

/// The row a write at instant `now` produces: both timestamps are the
/// commit instant.
pub open spec fn written_row(key: Seq<char>, value: Seq<char>, now: int) -> RowModel {
    RowModel { key, value, created_at: now, updated_at: now }
}

/// Upsert: replace the row in place when the key exists, append
/// otherwise. Both timestamps are reset to `now` in either case.
pub open spec fn spec_upsert(
    rows: Seq<RowModel>,
    key: Seq<char>,
    value: Seq<char>,
    now: int,
) -> Seq<RowModel> {
    if contains_key(rows, key) {
        rows.update(index_of_key(rows, key), written_row(key, value, now))
    } else {
        rows.push(written_row(key, value, now))
    }
}

/// Point read: the stored document, absent keys read as `None`.
pub open spec fn spec_read(rows: Seq<RowModel>, key: Seq<char>) -> Option<Seq<char>> {
    if contains_key(rows, key) {
        Some(rows[index_of_key(rows, key)].value)
    } else {
        None
    }
}

/// Does the row pass the starts-with filter?
pub open spec fn matches_prefix(r: RowModel, p: Option<Seq<char>>) -> bool {
    match p {
        Some(pre) => starts_with(r.key, pre),
        None => true,
    }
}

/// The rows that pass the filter, in table order.
pub open spec fn spec_filter(rows: Seq<RowModel>, p: Option<Seq<char>>) -> Seq<RowModel> {
    rows.filter(|r: RowModel| matches_prefix(r, p))
}

/// The comparator each sort order denotes.
pub open spec fn row_le(sort: SortOrder, a: RowModel, b: RowModel) -> bool {
    match sort {
        SortOrder::KeyAsc => lex_le(a.key, b.key),
        SortOrder::KeyDesc => lex_le(b.key, a.key),
        SortOrder::CreatedAsc => a.created_at <= b.created_at,
        SortOrder::CreatedDesc => b.created_at <= a.created_at,
        SortOrder::UpdatedAsc => a.updated_at <= b.updated_at,
        SortOrder::UpdatedDesc => b.updated_at <= a.updated_at,
    }
}

/// The comparator as a function value, for `sorted_by`.
pub open spec fn row_le_fn(sort: SortOrder) -> spec_fn(RowModel, RowModel) -> bool {
    |a: RowModel, b: RowModel| row_le(sort, a, b)
}

/// Any two rows are comparable under every sort order.
pub proof fn lemma_row_le_total(sort: SortOrder, a: RowModel, b: RowModel)
    ensures
        row_le(sort, a, b) || row_le(sort, b, a),
{
    match sort {
        SortOrder::KeyAsc => lemma_lex_le_total(a.key, b.key),
        SortOrder::KeyDesc => lemma_lex_le_total(b.key, a.key),
        _ => (),
    }
}

/// Every sort order's comparator is transitive.
pub proof fn lemma_row_le_trans(sort: SortOrder, a: RowModel, b: RowModel, c: RowModel)
    requires
        row_le(sort, a, b),
        row_le(sort, b, c),
    ensures
        row_le(sort, a, c),
{
    match sort {
        SortOrder::KeyAsc => lemma_lex_le_trans(a.key, b.key, c.key),
        SortOrder::KeyDesc => lemma_lex_le_trans(c.key, b.key, a.key),
        _ => (),
    }
}

/// Decides the comparator on entries.
fn entry_le(sort: SortOrder, a: &KvEntry, b: &KvEntry) -> (r: bool)
    ensures
        r == row_le(sort, a@, b@),
{
    match sort {
        SortOrder::KeyAsc => str_le(a.key.as_str(), b.key.as_str()),
        SortOrder::KeyDesc => str_le(b.key.as_str(), a.key.as_str()),
        SortOrder::CreatedAsc => a.created_at <= b.created_at,
        SortOrder::CreatedDesc => b.created_at <= a.created_at,
        SortOrder::UpdatedAsc => a.updated_at <= b.updated_at,
        SortOrder::UpdatedDesc => b.updated_at <= a.updated_at,
    }
}

/// The result of a list query: one page of entries and the number of
/// rows the filter matches in all.
pub struct ListResult {
    pub entries: Vec<KvEntry>,
    pub total_count: i64,
}

/// The in-memory table.
pub struct KvStore {
    rows: Vec<KvEntry>,
}

impl View for KvStore {
    type V = Seq<RowModel>;

    closed spec fn view(&self) -> Seq<RowModel> {
        models(self.rows@)
    }
}

impl KvStore {
    /// The table invariant.
    pub open spec fn wf(&self) -> bool {
        table_wf(self@)
    }

    /// An empty table.
    pub fn new() -> (r: KvStore)
        ensures
            r@ == Seq::<RowModel>::empty(),
            r.wf(),
    {
        let r = KvStore { rows: Vec::new() };
        proof {
            assert(r@ =~= Seq::<RowModel>::empty());
        }
        r
    }

    /// How many entries the table holds.
    pub fn len(&self) -> (r: usize)
        ensures
            r == self@.len(),
    {
        self.rows.len()
    }

    /// The index of the entry holding `key`, if any.
    fn find(&self, key: &str) -> (r: Option<usize>)
        ensures
            r is Some ==> 0 <= r->0 < self@.len() && self@[r->0 as int].key == key@,
            r is None ==> !contains_key(self@, key@),
    {
        let n = self.rows.len();
        let mut i: usize = 0;
        while i < n
            invariant
                i <= n,
                n == self@.len(),
                self@ == models(self.rows@),
                forall|j: int| 0 <= j < i ==> (#[trigger] self@[j]).key != key@,
            decreases n - i,
        {
            if str_eq(self.rows[i].key.as_str(), key) {
                return Some(i);
            }
            i += 1;
        }
        None
    }

    /// Writes or overwrites the entry at `key`; both timestamps take the
    /// commit instant `now`, also when the key already existed.
    pub fn upsert(&mut self, key: &UuidKey, value: &str, now: i64)
        requires
            old(self).wf(),
            key.wf(),
            0 <= now <= MAX_TIMESTAMP_MICROS,
            old(self)@.len() < i64::MAX,
        ensures
            final(self)@ == spec_upsert(old(self)@, key@, value@, now as int),
            final(self).wf(),
    {
        let entry = KvEntry {
            key: key.key_string(),
            value: String::from_str(value),
            created_at: now,
            updated_at: now,
        };
        proof {
            assert(entry@ == written_row(key@, value@, now as int));
        }
        match self.find(key.as_str()) {
            Some(i) => {
                self.rows.remove(i);
                self.rows.insert(i, entry);
                proof {
                    let orig = old(self)@;
                    assert(self@ =~= orig.update(i as int, written_row(key@, value@, now as int)));
                    let ci = index_of_key(orig, key@);
                    assert(orig[ci].key == key@ && orig[i as int].key == key@);
                    assert(ci == i) by {
                        if ci != i {
                            assert(orig[ci].key != orig[i as int].key);
                        }
                    }
                    assert(contains_key(orig, key@));
                    assert(self@ == spec_upsert(orig, key@, value@, now as int));
                    assert(final(self).wf()) by {
                        assert(forall|j: int|
                            0 <= j < self@.len() ==> row_wf(#[trigger] self@[j]));
                    }
                }
            },
            None => {
                self.rows.push(entry);
                proof {
                    let orig = old(self)@;
                    assert(self@ =~= orig.push(written_row(key@, value@, now as int)));
                    assert(self@ == spec_upsert(orig, key@, value@, now as int));
                    assert(final(self).wf()) by {
                        assert(forall|j: int|
                            0 <= j < orig.len() ==> self@[j] == orig[j]);
                    }
                }
            },
        }
    }

    /// Reads the document stored at `key`; `None` when no entry exists.
    pub fn read(&self, key: &UuidKey) -> (r: Option<String>)
        requires
            self.wf(),
        ensures
            r is Some <==> spec_read(self@, key@) is Some,
            r is Some ==> r->0@ == spec_read(self@, key@)->0,
    {
        match self.find(key.as_str()) {
            Some(i) => {
                proof {
                    let ci = index_of_key(self@, key@);
                    assert(self@[ci].key == key@);
                    assert(ci == i) by {
                        if ci != i {
                            assert(self@[ci].key != self@[i as int].key);
                        }
                    }
                }
                Some(self.rows[i].value.clone())
            },
            None => None,
        }
    }
}

// ------------------------------------------------------------------
// Listing: filter, sort, paginate
// ------------------------------------------------------------------

/// The filter a request's optional prefix denotes.
pub open spec fn prefix_model(prefix: Option<&str>) -> Option<Seq<char>> {
    match prefix {
        Some(p) => Some(p@),
        None => None,
    }
}

/// Decides the filter on one entry.
fn entry_matches(e: &KvEntry, prefix: Option<&str>) -> (r: bool)
    ensures
        r == matches_prefix(e@, prefix_model(prefix)),
{
    match prefix {
        Some(p) => str_starts_with(e.key.as_str(), p),
        None => true,
    }
}

/// Copies the entries passing the filter, in table order.
fn filter_entries(rows: &Vec<KvEntry>, prefix: Option<&str>) -> (r: Vec<KvEntry>)
    ensures
        models(r@) == spec_filter(models(rows@), prefix_model(prefix)),
        forall|k: int|
            0 <= k < r@.len() ==> models(rows@).contains(#[trigger] models(r@)[k]),
{
    broadcast use vstd::prelude::Seq::lemma_filter_push;

    let ghost p = prefix_model(prefix);
    let ghost pred = |row: RowModel| matches_prefix(row, p);
    let n = rows.len();
    let mut out: Vec<KvEntry> = Vec::new();
    let mut i: usize = 0;
    proof {
        assert(models(rows@.take(0)) =~= Seq::<RowModel>::empty());
        assert(Seq::<RowModel>::empty().filter(pred) =~= Seq::<RowModel>::empty()) by {
            reveal(Seq::filter);
        }
        assert(models(out@) =~= Seq::<RowModel>::empty());
    }
    while i < n
        invariant
            i <= n,
            n == rows@.len(),
            p == prefix_model(prefix),
            pred == (|row: RowModel| matches_prefix(row, p)),
            models(out@) == models(rows@.take(i as int)).filter(pred),
            forall|k: int|
                0 <= k < out@.len() ==> models(rows@).contains(#[trigger] models(out@)[k]),
        decreases n - i,
    {
        let ghost prev = models(rows@.take(i as int));
        proof {
            assert(rows@.take(i + 1) =~= rows@.take(i as int).push(rows@[i as int]));
            assert(models(rows@.take(i + 1)) =~= prev.push(rows@[i as int]@));
            prev.lemma_filter_push(rows@[i as int]@, pred);
            assert(prev.push(rows@[i as int]@).filter(pred) == if pred(rows@[i as int]@) {
                prev.filter(pred).push(rows@[i as int]@)
            } else {
                prev.filter(pred)
            });
            assert(models(rows@)[i as int] == rows@[i as int]@);
        }
        if entry_matches(&rows[i], prefix) {
            out.push(rows[i].duplicate());
            proof {
                assert(models(out@) =~= prev.filter(pred).push(rows@[i as int]@));
            }
        }
        i += 1;
    }
    proof {
        assert(rows@.take(n as int) =~= rows@);
    }
    out
}

/// Inserts an entry into a sorted vector, keeping it sorted.
fn sorted_insert(out: &mut Vec<KvEntry>, e: KvEntry, sort: SortOrder)
    requires
        sorted_by(models(old(out)@), row_le_fn(sort)),
    ensures
        final(out)@.len() == old(out)@.len() + 1,
        sorted_by(models(final(out)@), row_le_fn(sort)),
        models(final(out)@).to_multiset() == models(old(out)@).to_multiset().insert(e@),
        forall|k: int|
            0 <= k < final(out)@.len() ==> models(final(out)@)[k] == e@ || models(
                old(out)@,
            ).contains(#[trigger] models(final(out)@)[k]),
{
    let leq = sort;
    let n = out.len();
    let mut pos: usize = 0;
    while pos < n && entry_le(leq, &out[pos], &e)
        invariant
            pos <= n,
            n == out@.len(),
            out@ == old(out)@,
            leq == sort,
            forall|k: int| 0 <= k < pos ==> row_le(sort, #[trigger] models(out@)[k], e@),
        decreases n - pos,
    {
        proof {
            assert(models(out@)[pos as int] == out@[pos as int]@);
        }
        pos += 1;
    }
    proof {
        assert(pos < n ==> !row_le(sort, models(out@)[pos as int], e@));
        if pos < n {
            lemma_row_le_total(sort, models(out@)[pos as int], e@);
        }
    }
    out.insert(pos, e);
    proof {
        let m_old = models(old(out)@);
        let m_new = models(out@);
        assert(m_new =~= m_old.insert(pos as int, e@)) by {
            m_old.insert_ensures(pos as int, e@);
            assert(out@ =~= old(out)@.insert(pos as int, e));
            old(out)@.insert_ensures(pos as int, e);
        }
        m_old.insert_ensures(pos as int, e@);
        assert(m_new.to_multiset() == m_old.to_multiset().insert(e@));
        assert forall|i: int, j: int| 0 <= i < j < m_new.len() implies row_le_fn(sort)(
            m_new[i],
            m_new[j],
        ) by {
            let lef = row_le_fn(sort);
            if j < pos {
                assert(m_new[i] == m_old[i] && m_new[j] == m_old[j]);
                assert(lef(m_old[i], m_old[j]));
            } else if i < pos && j == pos {
                assert(m_new[i] == m_old[i] && m_new[j] == e@);
                assert(row_le(sort, m_old[i], e@));
            } else if i < pos && j > pos {
                assert(m_new[i] == m_old[i] && m_new[j] == m_old[j - 1]);
                assert(lef(m_old[i], m_old[j - 1]));
            } else if i == pos && j > pos {
                assert(m_new[i] == e@ && m_new[j] == m_old[j - 1]);
                assert(row_le(sort, e@, m_old[pos as int]));
                if j - 1 > pos {
                    assert(lef(m_old[pos as int], m_old[j - 1]));
                    lemma_row_le_trans(sort, e@, m_old[pos as int], m_old[j - 1]);
                }
            } else {
                assert(i > pos && j > pos);
                assert(m_new[i] == m_old[i - 1] && m_new[j] == m_old[j - 1]);
                assert(lef(m_old[i - 1], m_old[j - 1]));
            }
        }
        assert forall|k: int| 0 <= k < m_new.len() implies m_new[k] == e@ || m_old.contains(
            m_new[k],
        ) by {
            if k < pos {
                assert(m_new[k] == m_old[k]);
            } else if k > pos {
                assert(m_new[k] == m_old[k - 1]);
            }
        }
    }
}

/// Sorts the entries by the comparator of `sort`.
fn sort_entries(v: Vec<KvEntry>, sort: SortOrder) -> (r: Vec<KvEntry>)
    ensures
        r@.len() == v@.len(),
        sorted_by(models(r@), row_le_fn(sort)),
        models(r@).to_multiset() == models(v@).to_multiset(),
        forall|k: int|
            0 <= k < r@.len() ==> models(v@).contains(#[trigger] models(r@)[k]),
{
    broadcast use vstd::multiset::group_multiset_axioms;

    let mut rest = v;
    let mut out: Vec<KvEntry> = Vec::new();
    let ghost m_all = models(rest@);
    proof {
        assert(models(out@) =~= Seq::<RowModel>::empty());
        assert(models(out@).to_multiset().add(models(rest@).to_multiset())
            =~= models(rest@).to_multiset());
    }
    while rest.len() > 0
        invariant
            sorted_by(models(out@), row_le_fn(sort)),
            models(out@).to_multiset().add(models(rest@).to_multiset()) == m_all.to_multiset(),
            out@.len() + rest@.len() == m_all.len(),
            forall|k: int| 0 <= k < out@.len() ==> m_all.contains(#[trigger] models(out@)[k]),
            forall|k: int| 0 <= k < rest@.len() ==> m_all.contains(#[trigger] models(rest@)[k]),
        decreases rest.len(),
    {
        let ghost m_rest = models(rest@);
        let ghost m_out = models(out@);
        let e = rest.pop().unwrap();
        proof {
            assert(e@ == m_rest.last());
            assert(m_rest.drop_last() =~= m_rest.remove(m_rest.len() - 1));
            assert(models(rest@) =~= m_rest.drop_last());
            assert(models(rest@).to_multiset() == m_rest.to_multiset().remove(m_rest.last()));
            assert(m_rest.to_multiset().count(m_rest.last()) > 0) by {
                assert(m_rest.contains(m_rest.last()));
            }
        }
        sorted_insert(&mut out, e, sort);
        proof {
            assert(models(out@).to_multiset() == m_out.to_multiset().insert(e@));
            assert(models(out@).to_multiset().add(models(rest@).to_multiset())
                =~= m_out.to_multiset().add(m_rest.to_multiset()));
            assert forall|k: int| 0 <= k < out@.len() implies m_all.contains(
                #[trigger] models(out@)[k],
            ) by {
                if models(out@)[k] == e@ {
                    assert(m_rest.contains(e@));
                } else {
                    assert(m_out.contains(models(out@)[k]));
                }
            }
        }
    }
    proof {
        assert(models(rest@) =~= Seq::<RowModel>::empty());
        assert(models(rest@).to_multiset().len() == 0);
        vstd::multiset::lemma_multiset_empty_len(models(rest@).to_multiset());
        assert(models(rest@).to_multiset() =~= Multiset::<RowModel>::empty());
        assert(models(out@).to_multiset() =~= m_all.to_multiset());
    }
    out
}

/// Where the page begins: the offset, clamped to the matching rows.
pub open spec fn page_start(total: int, offset: int) -> int {
    if offset <= total {
        offset
    } else {
        total
    }
}

/// Where the page ends: `limit` rows past the start when a limit is
/// given, else everything.
pub open spec fn page_end(total: int, start: int, limit: Option<i64>) -> int {
    match limit {
        Some(l) => if start + l <= total {
            start + l
        } else {
            total
        },
        None => total,
    }
}

/// Copies the window `start..end` of a vector of entries.
fn page_of(sorted: &Vec<KvEntry>, start: usize, end: usize) -> (r: Vec<KvEntry>)
    requires
        start <= end,
        end <= sorted@.len(),
    ensures
        models(r@) == models(sorted@).subrange(start as int, end as int),
{
    let mut r: Vec<KvEntry> = Vec::new();
    let mut k: usize = start;
    proof {
        assert(models(r@) =~= models(sorted@).subrange(start as int, start as int));
    }
    while k < end
        invariant
            start <= k <= end,
            end <= sorted@.len(),
            models(r@) == models(sorted@).subrange(start as int, k as int),
        decreases end - k,
    {
        let ghost prev = models(r@);
        r.push(sorted[k].duplicate());
        proof {
            assert(models(r@) =~= prev.push(models(sorted@)[k as int]));
            assert(models(sorted@).subrange(start as int, k + 1) =~= models(sorted@).subrange(
                start as int,
                k as int,
            ).push(models(sorted@)[k as int]));
        }
        k += 1;
    }
    r
}

impl KvStore {
    /// Lists the entries whose key starts with `prefix` (all entries
    /// when absent), ordered by `sort`, after skipping `offset` rows and
    /// keeping at most `limit`.
    ///
    /// `total_count` is the number of rows the filter matches,
    /// regardless of `limit` and `offset`: it depends only on the table
    /// and the prefix. The page is a window of one sorted arrangement of
    /// exactly the matching rows.
    pub fn list_all(&self, prefix: Option<&str>, sort: SortOrder, limit: Option<i64>, offset: i64)
        -> (r: ListResult)
        requires
            self.wf(),
            limit is Some ==> limit->0 >= 0,
            offset >= 0,
            self@.len() <= i64::MAX,
        ensures
            r.total_count as int == spec_filter(self@, prefix_model(prefix)).len(),
            r.entries@.len() == page_end(
                spec_filter(self@, prefix_model(prefix)).len() as int,
                page_start(spec_filter(self@, prefix_model(prefix)).len() as int, offset as int),
                limit,
            ) - page_start(spec_filter(self@, prefix_model(prefix)).len() as int, offset as int),
            exists|arranged: Seq<RowModel>|
                #![auto]
                {
                    &&& arranged.to_multiset() == spec_filter(
                        self@,
                        prefix_model(prefix),
                    ).to_multiset()
                    &&& sorted_by(arranged, row_le_fn(sort))
                    &&& models(r.entries@) == arranged.subrange(
                        page_start(
                            spec_filter(self@, prefix_model(prefix)).len() as int,
                            offset as int,
                        ),
                        page_end(
                            spec_filter(self@, prefix_model(prefix)).len() as int,
                            page_start(
                                spec_filter(self@, prefix_model(prefix)).len() as int,
                                offset as int,
                            ),
                            limit,
                        ),
                    )
                },
            sorted_by(models(r.entries@), row_le_fn(sort)),
            forall|i: int|
                0 <= i < r.entries@.len() ==> matches_prefix(
                    #[trigger] models(r.entries@)[i],
                    prefix_model(prefix),
                ),
            forall|i: int|
                0 <= i < r.entries@.len() ==> self@.contains(#[trigger] models(r.entries@)[i]),
            forall|i: int| 0 <= i < r.entries@.len() ==> row_wf(#[trigger] models(r.entries@)[i]),
            limit is Some ==> r.entries@.len() <= limit->0,
            limit is None ==> r.entries@.len() == if offset as int <= spec_filter(
                self@,
                prefix_model(prefix),
            ).len() {
                spec_filter(self@, prefix_model(prefix)).len() - offset as int
            } else {
                0
            },
    {
        let ghost fm = spec_filter(self@, prefix_model(prefix));
        let filtered = filter_entries(&self.rows, prefix);
        proof {
            assert(models(self.rows@) == self@);
            assert(models(filtered@) == fm);
            assert(fm.len() <= self@.len());
            assert forall|k: int| 0 <= k < fm.len() implies self@.contains(#[trigger] fm[k]) by {
                assert(models(filtered@)[k] == fm[k]);
            }
        }
        let total: usize = filtered.len();
        let sorted = sort_entries(filtered, sort);
        let start: usize = if offset >= total as i64 {
            total
        } else {
            offset as usize
        };
        let end: usize = match limit {
            Some(l) => {
                let rem: usize = total - start;
                if l >= rem as i64 {
                    total
                } else {
                    start + (l as usize)
                }
            },
            None => total,
        };
        proof {
            assert(start as int == page_start(fm.len() as int, offset as int));
            assert(end as int == page_end(fm.len() as int, start as int, limit));
        }
        let entries = page_of(&sorted, start, end);
        let r = ListResult { entries, total_count: total as i64 };
        proof {
            let pm = prefix_model(prefix);
            let srt = models(sorted@);
            let page = models(r.entries@);
            assert(page == srt.subrange(start as int, end as int));
            assert(srt.to_multiset() == fm.to_multiset());
            assert(sorted_by(srt, row_le_fn(sort)));
            assert forall|i: int, j: int| 0 <= i < j < page.len() implies row_le_fn(sort)(
                page[i],
                page[j],
            ) by {
                assert(page[i] == srt[start + i]);
                assert(page[j] == srt[start + j]);
            }
            assert forall|i: int|
                0 <= i < page.len() implies matches_prefix(#[trigger] page[i], pm)
                && self@.contains(page[i]) && row_wf(page[i]) by {
                assert(page[i] == srt[start + i]);
                assert(fm.contains(srt[start + i]));
                let k = choose|k: int| 0 <= k < fm.len() && fm[k] == srt[start + i];
                assert(spec_filter(self@, pm)[k] == fm[k]);
                assert(matches_prefix(spec_filter(self@, pm)[k], pm));
                assert(self@.contains(fm[k]));
                let w = choose|w: int| 0 <= w < self@.len() && self@[w] == fm[k];
                assert(row_wf(self@[w]));
            }
        }
        r
    }
}

// ------------------------------------------------------------------
// Laws of the table semantics
// ------------------------------------------------------------------

/// An upsert leaves exactly one row under its key: the written row,
/// with both of its timestamps set to the commit instant — on an
/// overwrite `created_at` is reset along with `updated_at`.
pub proof fn lemma_upsert_row(rows: Seq<RowModel>, key: Seq<char>, value: Seq<char>, now: int)
    requires
        table_wf(rows),
    ensures
        contains_key(spec_upsert(rows, key, value, now), key),
        spec_upsert(rows, key, value, now)[index_of_key(spec_upsert(rows, key, value, now), key)]
            == written_row(key, value, now),
{
    let rows2 = spec_upsert(rows, key, value, now);
    if contains_key(rows, key) {
        let i = index_of_key(rows, key);
        assert(0 <= i < rows.len() && rows[i].key == key);
        assert(rows2[i].key == key);
        assert(contains_key(rows2, key));
        let j = index_of_key(rows2, key);
        assert(0 <= j < rows2.len() && rows2[j].key == key);
        if j != i {
            assert(rows2[j] == rows[j]);
            assert(rows[j].key == rows[i].key);
            assert(false);
        }
    } else {
        let n = rows.len() as int;
        assert(rows2[n].key == key);
        assert(contains_key(rows2, key));
        let j = index_of_key(rows2, key);
        assert(0 <= j < rows2.len() && rows2[j].key == key);
        if j != n {
            assert(rows2[j] == rows[j]);
            assert(contains_key(rows, key));
            assert(false);
        }
    }
}

/// Round trip: a read after an upsert of `key` returns exactly the
/// document that was written.
pub proof fn lemma_upsert_then_read(
    rows: Seq<RowModel>,
    key: Seq<char>,
    value: Seq<char>,
    now: int,
)
    requires
        table_wf(rows),
    ensures
        spec_read(spec_upsert(rows, key, value, now), key) == Some(value),
{
    lemma_upsert_row(rows, key, value, now);
}

/// Writing the same key twice collapses to the second write alone: the
/// second document wins and both timestamps are reset to the second
/// commit instant — `created_at` is not preserved across an overwrite.
pub proof fn lemma_upsert_last_write_wins(
    rows: Seq<RowModel>,
    key: Seq<char>,
    v1: Seq<char>,
    t1: int,
    v2: Seq<char>,
    t2: int,
)
    requires
        table_wf(rows),
    ensures
        spec_upsert(spec_upsert(rows, key, v1, t1), key, v2, t2) == spec_upsert(
            rows,
            key,
            v2,
            t2,
        ),
{
    let r1 = spec_upsert(rows, key, v1, t1);
    if contains_key(rows, key) {
        let i = index_of_key(rows, key);
        assert(0 <= i < rows.len() && rows[i].key == key);
        assert(r1 =~= rows.update(i, written_row(key, v1, t1)));
        assert(r1[i].key == key);
        assert(contains_key(r1, key));
        let j = index_of_key(r1, key);
        assert(0 <= j < r1.len() && r1[j].key == key);
        if j != i {
            assert(r1[j] == rows[j]);
            assert(rows[j].key == rows[i].key);
            assert(false);
        }
        assert(spec_upsert(r1, key, v2, t2) =~= spec_upsert(rows, key, v2, t2));
    } else {
        let n = rows.len() as int;
        assert(r1 =~= rows.push(written_row(key, v1, t1)));
        assert(r1[n].key == key);
        assert(contains_key(r1, key));
        let j = index_of_key(r1, key);
        assert(0 <= j < r1.len() && r1[j].key == key);
        if j != n {
            assert(r1[j] == rows[j]);
            assert(contains_key(rows, key));
            assert(false);
        }
        assert(spec_upsert(r1, key, v2, t2) =~= r1.update(n, written_row(key, v2, t2)));
        assert(spec_upsert(rows, key, v2, t2) =~= rows.push(written_row(key, v2, t2)));
        assert(r1.update(n, written_row(key, v2, t2)) =~= rows.push(written_row(key, v2, t2)));
    }
}

/// Pagination arithmetic: the window never exceeds a given limit, and
/// without one it is everything past the offset, clamped to zero; the
/// total the window is cut from does not depend on either.
pub proof fn lemma_page_bounds(total: int, offset: int, limit: Option<i64>)
    requires
        0 <= total,
        0 <= offset,
        limit is Some ==> limit->0 >= 0,
    ensures
        ({
            let start = page_start(total, offset);
            let end = page_end(total, start, limit);
            &&& 0 <= start <= end <= total
            &&& (limit is Some ==> end - start <= limit->0)
            &&& (limit is None ==> end - start == if offset <= total {
                total - offset
            } else {
                0
            })
        }),
{
}

/// A key never upserted reads as absent, not as an error.
pub proof fn lemma_read_absent(rows: Seq<RowModel>, key: Seq<char>)
    requires
        !contains_key(rows, key),
    ensures
        spec_read(rows, key) is None,
{
}

} // verus!
