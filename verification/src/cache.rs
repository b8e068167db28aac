use vstd::prelude::*;

use crate::text::{clean_rows, nonblank_rows, split_on, split_str, str_eq};

verus! {

// ---------------------------------------------------------------------------
// Record capabilities
// ---------------------------------------------------------------------------

/// The contract every cached record type satisfies: it derives a stable,
/// unique identifying string from its own fields. Records are keyed by this
/// identity in the cache, and a record loaded later overwrites an earlier one
/// with the same identity.
pub trait CacheKey: Sized {
    /// The identity as a mathematical character sequence.
    spec fn spec_id(&self) -> Seq<char>;

    /// Derives the record's identity string.
    fn id(&self) -> (r: String)
        ensures
            r@ == self.spec_id(),
    ;
}

/// A record type that can be built from one row of a header-bearing delimited
/// table, with columns matched to fields by name, in any column order.
pub trait CsvRecord: CacheKey {
    /// Whether a row with these field values, under this header, is well
    /// formed: every required column present and every value acceptable.
    spec fn row_ok(header: Seq<Seq<char>>, fields: Seq<Seq<char>>) -> bool;

    /// The identity that the record built from this row carries.
    spec fn row_id(header: Seq<Seq<char>>, fields: Seq<Seq<char>>) -> Seq<char>;

    /// How a built record relates to the row it came from.
    spec fn row_matches(header: Seq<Seq<char>>, fields: Seq<Seq<char>>, rec: Self) -> bool;

    /// A record built from a row carries that row's identity.
    proof fn lemma_row_id(header: Seq<Seq<char>>, fields: Seq<Seq<char>>, rec: Self)
        requires
            Self::row_matches(header, fields, rec),
        ensures
            rec.spec_id() == Self::row_id(header, fields),
    ;

    /// Builds a record from one row, or reports the row as malformed.
    fn from_row(header: &Vec<String>, fields: &Vec<String>) -> (r: Option<Self>)
        requires
            fields.deep_view().len() == header.deep_view().len(),
        ensures
            r is Some <==> Self::row_ok(header.deep_view(), fields.deep_view()),
            r is Some ==> Self::row_matches(header.deep_view(), fields.deep_view(), r->0),
    ;
}

// ---------------------------------------------------------------------------
// The in-memory mapping from identity to record
// ---------------------------------------------------------------------------

/// The mathematical mapping held by a list of keyed entries; a later entry
/// with the same key supersedes an earlier one.
pub open spec fn map_of<T>(es: Seq<(String, T)>) -> Map<Seq<char>, T>
    decreases es.len(),
{
    if es.len() == 0 {
        Map::empty()
    } else {
        map_of(es.drop_last()).insert(es.last().0@, es.last().1)
    }
}

/// A mapping from identity string to record. Abstractly a `Map<Seq<char>, T>`;
/// well-formed when its keys are distinct and each entry is keyed by its
/// record's own identity.
#[derive(Debug)]
pub struct CacheMap<T> {
    entries: Vec<(String, T)>,
}

impl<T: CacheKey> View for CacheMap<T> {
    type V = Map<Seq<char>, T>;

    closed spec fn view(&self) -> Map<Seq<char>, T> {
        map_of(self.entries@)
    }
}

proof fn lemma_map_of_contains<T>(es: Seq<(String, T)>, k: Seq<char>)
    ensures
        map_of(es).contains_key(k) <==> exists|i: int| 0 <= i < es.len() && es[i].0@ == k,
        map_of(es).dom().finite(),
    decreases es.len(),
{
    if es.len() > 0 {
        lemma_map_of_contains(es.drop_last(), k);
        assert(forall|i: int| 0 <= i < es.len() - 1 ==> es.drop_last()[i] == es[i]);
        if map_of(es).contains_key(k) {
            if es.last().0@ != k {
                let i = choose|i: int| 0 <= i < es.len() - 1 && es.drop_last()[i].0@ == k;
                assert(es[i].0@ == k);
            } else {
                assert(es[es.len() - 1].0@ == k);
            }
        }
        if exists|i: int| 0 <= i < es.len() && es[i].0@ == k {
            let i = choose|i: int| 0 <= i < es.len() && es[i].0@ == k;
            if i < es.len() - 1 {
                assert(es.drop_last()[i].0@ == k);
            }
        }
    }
}

/// Keys are pairwise distinct.
pub open spec fn distinct_keys<T>(es: Seq<(String, T)>) -> bool {
    forall|i: int, j: int| 0 <= i < j < es.len() ==> es[i].0@ != es[j].0@
}

proof fn lemma_map_of_index<T>(es: Seq<(String, T)>, i: int)
    requires
        distinct_keys(es),
        0 <= i < es.len(),
    ensures
        map_of(es).contains_key(es[i].0@),
        map_of(es)[es[i].0@] == es[i].1,
    decreases es.len(),
{
    if i == es.len() - 1 {
    } else {
        assert(forall|j: int| 0 <= j < es.len() - 1 ==> es.drop_last()[j] == es[j]);
        lemma_map_of_index(es.drop_last(), i);
        assert(es.last().0@ != es[i].0@);
    }
}

proof fn lemma_map_of_len<T>(es: Seq<(String, T)>)
    requires
        distinct_keys(es),
    ensures
        map_of(es).dom().finite(),
        map_of(es).dom().len() == es.len(),
    decreases es.len(),
{
    if es.len() == 0 {
        assert(map_of(es).dom() =~= Set::<Seq<char>>::empty());
    } else {
        assert(forall|j: int| 0 <= j < es.len() - 1 ==> es.drop_last()[j] == es[j]);
        lemma_map_of_len(es.drop_last());
        lemma_map_of_contains(es.drop_last(), es.last().0@);
        assert(!map_of(es.drop_last()).contains_key(es.last().0@));
        assert(map_of(es).dom() =~= map_of(es.drop_last()).dom().insert(es.last().0@));
    }
}

proof fn lemma_map_of_remove<T>(es: Seq<(String, T)>, i: int)
    requires
        distinct_keys(es),
        0 <= i < es.len(),
    ensures
        map_of(es.remove(i)) =~= map_of(es).remove(es[i].0@),
    decreases es.len(),
{
    if i == es.len() - 1 {
        assert(es.remove(i) =~= es.drop_last());
        lemma_map_of_contains(es.drop_last(), es[i].0@);
        assert(forall|j: int| 0 <= j < es.len() - 1 ==> es.drop_last()[j] == es[j]);
        assert(!map_of(es.drop_last()).contains_key(es[i].0@));
        assert(map_of(es.drop_last()).insert(es[i].0@, es[i].1).remove(es[i].0@) =~= map_of(
            es.drop_last(),
        ));
    } else {
        assert(forall|j: int| 0 <= j < es.len() - 1 ==> es.drop_last()[j] == es[j]);
        assert(es.remove(i).drop_last() =~= es.drop_last().remove(i));
        assert(es.remove(i).last() == es.last());
        lemma_map_of_remove(es.drop_last(), i);
        assert(es[i].0@ != es.last().0@);
        assert(map_of(es.remove(i)) =~= map_of(es.drop_last()).remove(es[i].0@).insert(
            es.last().0@,
            es.last().1,
        ));
        assert(map_of(es.drop_last()).remove(es[i].0@).insert(es.last().0@, es.last().1) =~= map_of(
            es.drop_last(),
        ).insert(es.last().0@, es.last().1).remove(es[i].0@));
    }
}

impl<T: CacheKey> CacheMap<T> {
    /// Distinct keys, each the identity of its record.
    pub closed spec fn wf(&self) -> bool {
        &&& distinct_keys(self.entries@)
        &&& forall|i: int|
            0 <= i < self.entries@.len() ==> self.entries@[i].0@ == self.entries@[i].1.spec_id()
    }

    /// A fresh, empty mapping.
    pub fn new() -> (r: CacheMap<T>)
        ensures
            r.wf(),
            r@ == Map::<Seq<char>, T>::empty(),
    {
        let r = CacheMap { entries: Vec::new() };
        proof {
            assert(r@ =~= Map::<Seq<char>, T>::empty());
        }
        r
    }

    /// Position of the entry holding `key`, if any.
    fn find_key(&self, key: &str) -> (r: Option<usize>)
        ensures
            match r {
                Some(ix) => ix < self.entries@.len() && self.entries@[ix as int].0@ == key@,
                None => forall|j: int|
                    0 <= j < self.entries@.len() ==> self.entries@[j].0@ != key@,
            },
    {
        let mut i: usize = 0;
        while i < self.entries.len()
            invariant
                i <= self.entries@.len(),
                forall|j: int| 0 <= j < i ==> self.entries@[j].0@ != key@,
            decreases self.entries@.len() - i,
        {
            if str_eq(self.entries[i].0.as_str(), key) {
                return Some(i);
            }
            i = i + 1;
        }
        None
    }

    /// Looks a record up by its identity.
    pub fn get(&self, key: &str) -> (r: Option<&T>)
        requires
            self.wf(),
        ensures
            match r {
                Some(rec) => self@.contains_key(key@) && *rec == self@[key@],
                None => !self@.contains_key(key@),
            },
    {
        match self.find_key(key) {
            Some(ix) => {
                proof {
                    lemma_map_of_index(self.entries@, ix as int);
                }
                Some(&self.entries[ix].1)
            },
            None => {
                proof {
                    lemma_map_of_contains(self.entries@, key@);
                }
                None
            },
        }
    }

    /// Inserts a record under its own identity, superseding any record that
    /// already carried that identity.
    pub fn insert(&mut self, rec: T)
        requires
            old(self).wf(),
        ensures
            final(self).wf(),
            final(self)@ == old(self)@.insert(rec.spec_id(), rec),
    {
        let key = rec.id();
        let ghost es0 = self.entries@;
        match self.find_key(key.as_str()) {
            Some(ix) => {
                self.entries.remove(ix);
                proof {
                    lemma_map_of_remove(es0, ix as int);
                    assert(forall|a: int, b: int|
                        0 <= a < b < self.entries@.len() ==> (es0.remove(ix as int)[a] == self.entries@[a]
                            && es0.remove(ix as int)[b] == self.entries@[b]));
                }
            },
            None => {
                proof {
                    lemma_map_of_contains(es0, key@);
                    assert(map_of(es0).remove(key@) =~= map_of(es0));
                }
            },
        }
        let ghost es1 = self.entries@;
        proof {
            assert(map_of(es1) =~= map_of(es0).remove(key@));
            assert(forall|j: int| 0 <= j < es1.len() ==> es1[j].0@ != key@) by {
                lemma_map_of_contains(es1, key@);
                if exists|j: int| 0 <= j < es1.len() && es1[j].0@ == key@ {
                    let j = choose|j: int| 0 <= j < es1.len() && es1[j].0@ == key@;
                    lemma_map_of_index(es1, j);
                }
            }
        }
        self.entries.push((key, rec));
        proof {
            assert(self.entries@.drop_last() =~= es1);
            assert(self.entries@.last() == (key, rec));
            assert(map_of(self.entries@) =~= map_of(es1).insert(key@, rec));
            assert(self@ =~= old(self)@.insert(rec.spec_id(), rec));
        }
    }

    /// How many records the mapping holds.
    pub fn len(&self) -> (n: usize)
        requires
            self.wf(),
        ensures
            n == self@.dom().len(),
    {
        proof {
            lemma_map_of_len(self.entries@);
        }
        self.entries.len()
    }

    /// All entries, for iterating over the whole snapshot; each entry pairs an
    /// identity with the record it names, every identity appears exactly
    /// once, and there are as many entries as identities — so the listing
    /// covers the mapping in full.
    pub fn entries(&self) -> (r: &Vec<(String, T)>)
        requires
            self.wf(),
        ensures
            r@.len() == self@.dom().len(),
            forall|i: int, j: int| 0 <= i < j < r@.len() ==> r@[i].0@ != r@[j].0@,
            forall|i: int|
                0 <= i < r@.len() ==> self@.contains_key(#[trigger] r@[i].0@) && self@[r@[i].0@]
                    == r@[i].1 && r@[i].0@ == r@[i].1.spec_id(),
    {
        proof {
            lemma_map_of_len(self.entries@);
            assert forall|i: int| 0 <= i < self.entries@.len() implies self@.contains_key(
                #[trigger] self.entries@[i].0@,
            ) && self@[self.entries@[i].0@] == self.entries@[i].1 && self.entries@[i].0@
                == self.entries@[i].1.spec_id() by {
                lemma_map_of_index(self.entries@, i);
            }
        }
        &self.entries
    }
}

// ---------------------------------------------------------------------------
// The bulk loader
// ---------------------------------------------------------------------------

/// Why a load attempt failed. An empty source file is an error, never a valid
/// empty cache, so a truncated update cannot wipe previously good data; a
/// malformed row aborts the whole attempt.
#[derive(Clone, Copy, Debug, PartialEq, Eq, Structural)]
pub enum LoadError {
    /// The source text had no bytes at all (distinct from holding no rows).
    EmptyFile,
    /// The data row at this position (counting from zero, header excluded)
    /// is malformed: wrong field count, missing column, or bad value.
    ParseRow { index: usize },
}

/// The content rows of the text: lines split on newlines, carriage returns
/// stripped, blank lines dropped.
pub open spec fn spec_rows(text: Seq<char>) -> Seq<Seq<char>> {
    nonblank_rows(split_on(text, '\n'))
}

/// The fields of one row, split on commas.
pub open spec fn spec_fields(line: Seq<char>) -> Seq<Seq<char>> {
    split_on(line, ',')
}

/// The header row's column names.
pub open spec fn spec_header(text: Seq<char>) -> Seq<Seq<char>> {
    spec_fields(spec_rows(text)[0])
}

/// The data rows: everything after the header.
pub open spec fn spec_data_rows(text: Seq<char>) -> Seq<Seq<char>> {
    if spec_rows(text).len() == 0 {
        Seq::empty()
    } else {
        spec_rows(text).skip(1)
    }
}

/// A data row the loader accepts: as many fields as the header has columns,
/// and well formed for the record type.
pub open spec fn row_good<T: CsvRecord>(header: Seq<Seq<char>>, line: Seq<char>) -> bool {
    spec_fields(line).len() == header.len() && T::row_ok(header, spec_fields(line))
}

/// For each identity, the position of the last data row carrying it: the row
/// whose record survives when identities collide.
pub open spec fn last_row_for<T: CsvRecord>(
    header: Seq<Seq<char>>,
    rows: Seq<Seq<char>>,
) -> Map<Seq<char>, int>
    decreases rows.len(),
{
    if rows.len() == 0 {
        Map::empty()
    } else {
        last_row_for::<T>(header, rows.drop_last()).insert(
            T::row_id(header, spec_fields(rows.last())),
            rows.len() - 1,
        )
    }
}

/// What a successfully loaded mapping holds, relative to the text it came
/// from: exactly one record per identity that occurs, each built from the
/// last row carrying that identity.
pub open spec fn loaded_from<T: CsvRecord>(m: Map<Seq<char>, T>, text: Seq<char>) -> bool {
    let header = spec_header(text);
    let data = spec_data_rows(text);
    &&& m.dom() =~= last_row_for::<T>(header, data).dom()
    &&& forall|k: Seq<char>|
        #[trigger] m.contains_key(k) ==> {
            let i = last_row_for::<T>(header, data)[k];
            &&& m[k].spec_id() == k
            &&& T::row_matches(header, spec_fields(data[i]), m[k])
        }
}

/// Parses header-bearing delimited text into a mapping from identity to
/// record: all or nothing. Empty text is an error; the first malformed data
/// row aborts the load; otherwise every data row contributes, and a later row
/// with an identity already seen supersedes the earlier one.
///
/// The table grammar is this library's own and deliberately plain: lines are
/// split on newlines (a trailing carriage return per line is dropped, blank
/// lines are skipped), fields are split on every comma — there is no quoting,
/// so a field cannot contain a comma — and the first content line names the
/// columns.
pub fn load_cache_from_text<T: CsvRecord>(text: &str) -> (r: Result<CacheMap<T>, LoadError>)
    ensures
        match r {
            Ok(m) => {
                &&& text@.len() > 0
                &&& m.wf()
                &&& forall|j: int|
                    0 <= j < spec_data_rows(text@).len() ==> row_good::<T>(
                        spec_header(text@),
                        #[trigger] spec_data_rows(text@)[j],
                    )
                &&& loaded_from::<T>(m@, text@)
            },
            Err(LoadError::EmptyFile) => text@.len() == 0,
            Err(LoadError::ParseRow { index }) => {
                &&& text@.len() > 0
                &&& index < spec_data_rows(text@).len()
                &&& !row_good::<T>(spec_header(text@), spec_data_rows(text@)[index as int])
                &&& forall|j: int|
                    0 <= j < index ==> row_good::<T>(
                        spec_header(text@),
                        #[trigger] spec_data_rows(text@)[j],
                    )
            },
        },
{
    let n = text.unicode_len();
    if n == 0 {
        return Err(LoadError::EmptyFile);
    }
    let raw_lines = split_str(text, '\n');
    let rows = clean_rows(&raw_lines);
    let mut m = CacheMap::<T>::new();
    if rows.len() == 0 {
        proof {
            assert(spec_data_rows(text@) =~= Seq::<Seq<char>>::empty());
            assert(m@.dom() =~= last_row_for::<T>(
                spec_header(text@),
                spec_data_rows(text@),
            ).dom());
        }
        return Ok(m);
    }
    let header = split_str(rows[0].as_str(), ',');
    let ghost gh = spec_header(text@);
    let ghost gd = spec_data_rows(text@);
    proof {
        assert(rows.deep_view()[0] == spec_rows(text@)[0]);
        assert(header.deep_view() == gh);
        assert(gd =~= rows.deep_view().skip(1));
    }
    let mut i: usize = 1;
    while i < rows.len()
        invariant
            text@.len() > 0,
            1 <= i <= rows@.len(),
            rows.deep_view() == spec_rows(text@),
            header.deep_view() == gh,
            gh == spec_header(text@),
            gd == spec_data_rows(text@),
            gd == rows.deep_view().skip(1),
            m.wf(),
            forall|j: int| 0 <= j < i - 1 ==> row_good::<T>(gh, #[trigger] gd[j]),
            m@.dom() =~= last_row_for::<T>(gh, gd.take(i - 1)).dom(),
            forall|k: Seq<char>|
                #[trigger] m@.contains_key(k) ==> {
                    let x = last_row_for::<T>(gh, gd.take(i - 1))[k];
                    &&& m@[k].spec_id() == k
                    &&& T::row_matches(gh, spec_fields(gd[x]), m@[k])
                },
        decreases rows@.len() - i,
    {
        let ghost r_idx = i - 1;
        proof {
            assert(gd[r_idx] == rows.deep_view()[i as int]);
        }
        let fields = split_str(rows[i].as_str(), ',');
        if fields.len() != header.len() {
            return Err(LoadError::ParseRow { index: i - 1 });
        }
        match T::from_row(&header, &fields) {
            None => {
                return Err(LoadError::ParseRow { index: i - 1 });
            },
            Some(rec) => {
                proof {
                    T::lemma_row_id(gh, fields.deep_view(), rec);
                }
                let ghost pre = m@;
                let ghost lrf_pre = last_row_for::<T>(gh, gd.take(r_idx));
                m.insert(rec);
                proof {
                    let lrf = last_row_for::<T>(gh, gd.take(r_idx + 1));
                    assert(gd.take(r_idx + 1).drop_last() =~= gd.take(r_idx));
                    assert(gd.take(r_idx + 1).last() == gd[r_idx]);
                    assert(lrf == lrf_pre.insert(T::row_id(gh, spec_fields(gd[r_idx])), r_idx));
                    assert(m@.dom() =~= lrf.dom());
                    assert forall|k: Seq<char>| #[trigger] m@.contains_key(k) implies {
                        let x = lrf[k];
                        &&& m@[k].spec_id() == k
                        &&& T::row_matches(gh, spec_fields(gd[x]), m@[k])
                    } by {
                        if k == rec.spec_id() {
                            assert(m@[k] == rec);
                            assert(lrf[k] == r_idx);
                        } else {
                            assert(m@[k] == pre[k]);
                            assert(lrf[k] == lrf_pre[k]);
                        }
                    }
                }
            },
        }
        i = i + 1;
    }
    proof {
        assert(gd.take(i - 1) =~= gd);
    }
    Ok(m)
}

// ---------------------------------------------------------------------------
// Laws of loading
// ---------------------------------------------------------------------------

/// A mapping loaded from text whose data rows carry pairwise distinct
/// identities holds exactly one record per data row, each retrievable by its
/// row's identity.
pub proof fn lemma_load_distinct_count<T: CsvRecord>(m: CacheMap<T>, text: Seq<char>)
    requires
        m.wf(),
        loaded_from::<T>(m@, text),
        forall|i: int, j: int|
            0 <= i < j < spec_data_rows(text).len() ==> T::row_id(
                spec_header(text),
                spec_fields(#[trigger] spec_data_rows(text)[i]),
            ) != T::row_id(spec_header(text), spec_fields(#[trigger] spec_data_rows(text)[j])),
    ensures
        m@.dom().len() == spec_data_rows(text).len(),
        forall|i: int|
            0 <= i < spec_data_rows(text).len() ==> m@.contains_key(
                T::row_id(spec_header(text), spec_fields(#[trigger] spec_data_rows(text)[i])),
            ),
{
    lemma_distinct_ids_count::<T>(spec_header(text), spec_data_rows(text));
}

/// A mapping loaded from text keeps, for each identity it holds, the record
/// of the last data row carrying that identity: every later row carries a
/// different one, and the stored record matches that row.
pub proof fn lemma_load_overwrites<T: CsvRecord>(m: CacheMap<T>, text: Seq<char>, k: Seq<char>)
    requires
        m.wf(),
        loaded_from::<T>(m@, text),
        m@.contains_key(k),
    ensures
        ({
            let header = spec_header(text);
            let data = spec_data_rows(text);
            let i = last_row_for::<T>(header, data)[k];
            &&& 0 <= i < data.len()
            &&& T::row_id(header, spec_fields(data[i])) == k
            &&& forall|j: int|
                i < j < data.len() ==> T::row_id(header, spec_fields(#[trigger] data[j])) != k
            &&& T::row_matches(header, spec_fields(data[i]), m@[k])
            &&& m@[k].spec_id() == k
        }),
{
    lemma_last_row_wins::<T>(spec_header(text), spec_data_rows(text), k);
}

/// Overwrite-on-duplicate: an identity occurs in the loaded mapping exactly
/// when some data row carries it, and the surviving record comes from the
/// last such row — every later row carries a different identity.
pub proof fn lemma_last_row_wins<T: CsvRecord>(
    header: Seq<Seq<char>>,
    rows: Seq<Seq<char>>,
    k: Seq<char>,
)
    ensures
        last_row_for::<T>(header, rows).contains_key(k) <==> exists|i: int|
            0 <= i < rows.len() && T::row_id(header, spec_fields(#[trigger] rows[i])) == k,
        last_row_for::<T>(header, rows).contains_key(k) ==> {
            let i = last_row_for::<T>(header, rows)[k];
            &&& 0 <= i < rows.len()
            &&& T::row_id(header, spec_fields(rows[i])) == k
            &&& forall|j: int|
                i < j < rows.len() ==> T::row_id(header, spec_fields(#[trigger] rows[j])) != k
        },
    decreases rows.len(),
{
    if rows.len() > 0 {
        lemma_last_row_wins::<T>(header, rows.drop_last(), k);
        assert(forall|i: int| 0 <= i < rows.len() - 1 ==> rows.drop_last()[i] == rows[i]);
        let last_id = T::row_id(header, spec_fields(rows.last()));
        if k == last_id {
            assert(rows[rows.len() - 1] == rows.last());
        } else {
            if last_row_for::<T>(header, rows).contains_key(k) {
                let i = last_row_for::<T>(header, rows.drop_last())[k];
                assert(T::row_id(header, spec_fields(rows[i])) == k);
            }
            if exists|i: int|
                0 <= i < rows.len() && T::row_id(header, spec_fields(#[trigger] rows[i])) == k {
                let i = choose|i: int|
                    0 <= i < rows.len() && T::row_id(header, spec_fields(#[trigger] rows[i])) == k;
                assert(i < rows.len() - 1);
                assert(T::row_id(header, spec_fields(rows.drop_last()[i])) == k);
            }
        }
    }
}

/// When every data row carries a distinct identity, the loaded mapping has
/// exactly one entry per row, and row `i`'s identity maps to row `i`.
pub proof fn lemma_distinct_ids_count<T: CsvRecord>(header: Seq<Seq<char>>, rows: Seq<Seq<char>>)
    requires
        forall|i: int, j: int|
            0 <= i < j < rows.len() ==> T::row_id(header, spec_fields(#[trigger] rows[i]))
                != T::row_id(header, spec_fields(#[trigger] rows[j])),
    ensures
        last_row_for::<T>(header, rows).dom().finite(),
        last_row_for::<T>(header, rows).dom().len() == rows.len(),
        forall|i: int|
            0 <= i < rows.len() ==> {
                let k = T::row_id(header, spec_fields(#[trigger] rows[i]));
                last_row_for::<T>(header, rows).contains_key(k) && last_row_for::<T>(
                    header,
                    rows,
                )[k] == i
            },
    decreases rows.len(),
{
    if rows.len() == 0 {
        assert(last_row_for::<T>(header, rows).dom() =~= Set::<Seq<char>>::empty());
    } else {
        assert(forall|i: int| 0 <= i < rows.len() - 1 ==> rows.drop_last()[i] == rows[i]);
        lemma_distinct_ids_count::<T>(header, rows.drop_last());
        let last_id = T::row_id(header, spec_fields(rows.last()));
        let prev = last_row_for::<T>(header, rows.drop_last());
        assert(!prev.contains_key(last_id)) by {
            lemma_last_row_wins::<T>(header, rows.drop_last(), last_id);
            if prev.contains_key(last_id) {
                let i = choose|i: int|
                    0 <= i < rows.len() - 1 && T::row_id(
                        header,
                        spec_fields(#[trigger] rows.drop_last()[i]),
                    ) == last_id;
                assert(T::row_id(header, spec_fields(rows[i])) == last_id);
                assert(rows[rows.len() - 1] == rows.last());
            }
        }
        assert(last_row_for::<T>(header, rows).dom() =~= prev.dom().insert(last_id));
        assert(rows[rows.len() - 1] == rows.last());
    }
}

} // verus!
