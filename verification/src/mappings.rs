//! Durable project-directory → board association store.
//!
//! The store holds at most one `BoardMapping` per project directory; a later
//! save for the same directory wins. It is backed by a single JSON document
//! (see `codec`), rebuilt in full on every save by a read-modify-write pass.
//! The store is not designed for concurrent writers from multiple processes:
//! one running instance (a single in-process writer) is an assumed constraint.

use vstd::prelude::*;

verus! {

/// One board association: the external board's opaque identifier, its
/// human-readable label, and which service it lives on (linear, trello,
/// jira or github, kept as the lower-case service name).
#[derive(Debug, Clone)]
pub struct BoardMapping {
    pub board_id: String,
    pub board_name: String,
    pub source: String,
}

/// Mathematical shadow of `BoardMapping`: the three fields as character
/// sequences.
pub ghost struct BoardMappingV {
    pub board_id: Seq<char>,
    pub board_name: Seq<char>,
    pub source: Seq<char>,
}

impl View for BoardMapping {
    type V = BoardMappingV;

    open spec fn view(&self) -> BoardMappingV {
        BoardMappingV {
            board_id: self.board_id@,
            board_name: self.board_name@,
            source: self.source@,
        }
    }
}

/// The store's model: directory/mapping pairs in insertion order, each pair
/// reduced to its character sequences.
pub open spec fn entries_view(es: Seq<(String, BoardMapping)>) -> Seq<(Seq<char>, BoardMappingV)> {
    es.map_values(|e: (String, BoardMapping)| (e.0@, e.1@))
}

pub open spec fn has_key(es: Seq<(Seq<char>, BoardMappingV)>, k: Seq<char>) -> bool {
    exists|i: int| 0 <= i < es.len() && es[i].0 == k
}

pub open spec fn index_of_key(es: Seq<(Seq<char>, BoardMappingV)>, k: Seq<char>) -> int {
    choose|i: int| 0 <= i < es.len() && es[i].0 == k
}

/// At most one entry per project directory.
pub open spec fn unique_keys(es: Seq<(Seq<char>, BoardMappingV)>) -> bool {
    forall|i: int, j: int| 0 <= i < j < es.len() ==> es[i].0 != es[j].0
}

/// The mapping stored under `k`, if any.
pub open spec fn spec_lookup(es: Seq<(Seq<char>, BoardMappingV)>, k: Seq<char>) -> Option<
    BoardMappingV,
> {
    if has_key(es, k) {
        Some(es[index_of_key(es, k)].1)
    } else {
        None
    }
}

/// Last write wins: an existing entry for `k` is overwritten in place, a new
/// key is appended.
pub open spec fn spec_insert(
    es: Seq<(Seq<char>, BoardMappingV)>,
    k: Seq<char>,
    v: BoardMappingV,
) -> Seq<(Seq<char>, BoardMappingV)> {
    if has_key(es, k) {
        es.update(index_of_key(es, k), (k, v))
    } else {
        es.push((k, v))
    }
}

/// Character-wise string equality.
pub fn str_eq(a: &str, b: &str) -> (r: bool)
    ensures
        r == (a@ == b@),
{
    let n = a.unicode_len();
    let m = b.unicode_len();
    if n != m {
        proof {
            assert(a@ != b@);
        }
        return false;
    }
    let mut i: usize = 0;
    while i < n
        invariant
            i <= n,
            n == a@.len(),
            n == b@.len(),
            forall|j: int| 0 <= j < i ==> a@[j] == b@[j],
        decreases n - i,
    {
        if a.get_char(i) != b.get_char(i) {
            proof {
                assert(a@ != b@) by {
                    if a@ == b@ {
                        assert(a@[i as int] == b@[i as int]);
                    }
                }
            }
            return false;
        }
        i = i + 1;
    }
    proof {
        assert(a@ =~= b@);
    }
    true
}

/// Every pair of entries has distinct directories.
fn keys_unique(es: &Vec<(String, BoardMapping)>) -> (r: bool)
    ensures
        r == unique_keys(entries_view(es@)),
{
    let ghost ev = entries_view(es@);
    let n = es.len();
    let mut i: usize = 0;
    while i < n
        invariant
            i <= n,
            n == es@.len(),
            ev == entries_view(es@),
            forall|p: int, q: int| 0 <= p < q < n && p < i ==> ev[p].0 != ev[q].0,
        decreases n - i,
    {
        let mut j: usize = i + 1;
        while j < n
            invariant
                i < n,
                i + 1 <= j <= n,
                n == es@.len(),
                ev == entries_view(es@),
                forall|q: int| i < q < j ==> ev[i as int].0 != ev[q].0,
            decreases n - j,
        {
            let dup = str_eq(es[i].0.as_str(), es[j].0.as_str());
            if dup {
                proof {
                    assert(ev[i as int].0 == ev[j as int].0);
                    assert(!unique_keys(ev)) by {
                        if unique_keys(ev) {
                            assert(ev[i as int].0 != ev[j as int].0);
                        }
                    }
                }
                return false;
            }
            j = j + 1;
        }
        i = i + 1;
    }
    proof {
        assert(unique_keys(ev));
    }
    true
}

/// In-memory table of project-directory → board associations, keyed by the
/// absolute directory path. Insertion order is kept; keys are unique.
pub struct BoardMappings {
    entries: Vec<(String, BoardMapping)>,
}

impl View for BoardMappings {
    type V = Seq<(Seq<char>, BoardMappingV)>;

    closed spec fn view(&self) -> Seq<(Seq<char>, BoardMappingV)> {
        entries_view(self.entries@)
    }
}

impl BoardMappings {
    /// Keys are unique: at most one mapping per project directory.
    pub open spec fn wf(self) -> bool {
        unique_keys(self@)
    }

    /// The empty store.
    pub fn new() -> (r: BoardMappings)
        ensures
            r.wf(),
            r@ == Seq::<(Seq<char>, BoardMappingV)>::empty(),
    {
        let r = BoardMappings { entries: Vec::new() };
        proof {
            assert(r@ =~= Seq::<(Seq<char>, BoardMappingV)>::empty());
        }
        r
    }

    pub fn len(&self) -> (r: usize)
        ensures
            r == self@.len(),
    {
        self.entries.len()
    }

    /// The mapping recorded for `dir`, if one is.
    pub fn get<'a>(&'a self, dir: &str) -> (r: Option<&'a BoardMapping>)
        requires
            self.wf(),
        ensures
            r matches Some(m) ==> spec_lookup(self@, dir@) == Some(m@),
            r is None ==> spec_lookup(self@, dir@) is None,
    {
        let n = self.entries.len();
        let mut i: usize = 0;
        while i < n
            invariant
                i <= n,
                n == self@.len(),
                self.wf(),
                forall|j: int| 0 <= j < i ==> self@[j].0 != dir@,
            decreases n - i,
        {
            let e = &self.entries[i];
            if str_eq(e.0.as_str(), dir) {
                proof {
                    assert(self@[i as int].0 == dir@);
                    assert(has_key(self@, dir@));
                    let i0 = index_of_key(self@, dir@);
                    assert(0 <= i0 < self@.len() && self@[i0].0 == dir@);
                    assert(i0 == i as int) by {
                        if i0 < i as int {
                            assert(self@[i0].0 != dir@);
                        }
                        if i0 > i as int {
                            assert(self@[i as int].0 != self@[i0].0);
                        }
                    }
                }
                return Some(&e.1);
            }
            i = i + 1;
        }
        proof {
            assert(!has_key(self@, dir@));
        }
        None
    }

    /// Records `m` for `dir`: a new directory is appended, an existing one is
    /// overwritten — last write wins, and the directory keeps a single entry.
    pub fn insert(&mut self, dir: String, m: BoardMapping)
        requires
            old(self).wf(),
        ensures
            final(self).wf(),
            final(self)@ == spec_insert(old(self)@, dir@, m@),
    {
        let ghost es0 = self@;
        let n = self.entries.len();
        let mut i: usize = 0;
        while i < n
            invariant
                i <= n,
                n == self@.len(),
                self.wf(),
                self@ == es0,
                es0 == old(self)@,
                forall|j: int| 0 <= j < i ==> self@[j].0 != dir@,
        decreases n - i,
        {
            let hit = str_eq(self.entries[i].0.as_str(), dir.as_str());
            if hit {
                proof {
                    assert(es0[i as int].0 == dir@);
                    assert(has_key(es0, dir@));
                    let i0 = index_of_key(es0, dir@);
                    assert(0 <= i0 < es0.len() && es0[i0].0 == dir@);
                    assert(i0 == i as int) by {
                        if i0 < i as int {
                            assert(es0[i0].0 != dir@);
                        }
                        if i0 > i as int {
                            assert(es0[i as int].0 != es0[i0].0);
                        }
                    }
                }
                let ghost k = dir@;
                let ghost v = m@;
                self.entries.set(i, (dir, m));
                proof {
                    assert(self@ =~= es0.update(i as int, (k, v)));
                    assert(self@ == spec_insert(es0, k, v));
                    assert(unique_keys(self@)) by {
                        assert(forall|j: int| 0 <= j < es0.len() && j != i as int
                            ==> self@[j].0 == es0[j].0);
                        assert(self@[i as int].0 == es0[i as int].0);
                    }
                }
                return;
            }
            i = i + 1;
        }
        proof {
            assert(!has_key(es0, dir@));
        }
        let ghost k = dir@;
        let ghost v = m@;
        self.entries.push((dir, m));
        proof {
            assert(self@ =~= es0.push((k, v)));
            assert(unique_keys(self@)) by {
                assert(forall|j: int| 0 <= j < es0.len() ==> self@[j].0 == es0[j].0);
                assert(self@[es0.len() as int].0 == k);
            }
        }
    }
}

impl BoardMappings {
    /// Rebuilds the table from the backing document's contents. A missing
    /// file (`None`), unparsable text or duplicate directories — anything the
    /// store would not itself have written — yields the empty table instead
    /// of an error: a lost mapping is recoverable by re-selecting a board, so
    /// loading never blocks startup.
    pub fn from_document(contents: Option<&str>) -> (r: BoardMappings)
        ensures
            r.wf(),
            contents matches Some(s) ==> r@ == crate::codec::spec_load(s@),
            contents is None ==> r@ == Seq::<(Seq<char>, BoardMappingV)>::empty(),
    {
        match contents {
            None => BoardMappings::new(),
            Some(s) => match crate::codec::parse_document(s) {
                None => BoardMappings::new(),
                Some(v) => {
                    if keys_unique(&v) {
                        BoardMappings { entries: v }
                    } else {
                        BoardMappings::new()
                    }
                },
            },
        }
    }

    /// Writes the table out as the canonical document the store persists.
    pub fn to_document(&self) -> (r: String)
        ensures
            r@ == crate::codec::enc_doc(self@),
    {
        crate::codec::encode_document(&self.entries)
    }
}

/// Inserting keeps keys unique, whichever branch it takes.
pub proof fn lemma_insert_preserves_unique(
    es: Seq<(Seq<char>, BoardMappingV)>,
    k: Seq<char>,
    v: BoardMappingV,
)
    requires
        unique_keys(es),
    ensures
        unique_keys(spec_insert(es, k, v)),
{
    if has_key(es, k) {
        let i0 = index_of_key(es, k);
        assert(0 <= i0 < es.len() && es[i0].0 == k);
        let es1 = es.update(i0, (k, v));
        assert(forall|j: int| 0 <= j < es.len() ==> es1[j].0 == es[j].0);
    } else {
        let es1 = es.push((k, v));
        assert(forall|j: int| 0 <= j < es.len() ==> es1[j].0 == es[j].0);
        assert(es1[es.len() as int].0 == k);
    }
}

/// What a lookup finds right after an insert: the inserted mapping under its
/// own key, and under any other key exactly what was there before.
pub proof fn lemma_lookup_insert(
    es: Seq<(Seq<char>, BoardMappingV)>,
    k: Seq<char>,
    v: BoardMappingV,
    k2: Seq<char>,
)
    requires
        unique_keys(es),
    ensures
        spec_lookup(spec_insert(es, k, v), k) == Some(v),
        k2 != k ==> spec_lookup(spec_insert(es, k, v), k2) == spec_lookup(es, k2),
{
    lemma_insert_preserves_unique(es, k, v);
    let es1 = spec_insert(es, k, v);
    if has_key(es, k) {
        let i0 = index_of_key(es, k);
        assert(0 <= i0 < es.len() && es[i0].0 == k);
        assert(es1 == es.update(i0, (k, v)));
        assert(es1[i0].0 == k);
        assert(has_key(es1, k));
        let i1 = index_of_key(es1, k);
        assert(0 <= i1 < es1.len() && es1[i1].0 == k);
        assert(i1 == i0) by {
            if i1 != i0 {
                assert(es1[i1].0 == es[i1].0);
                assert(es[i1].0 == es[i0].0);
            }
        }
    } else {
        assert(es1 == es.push((k, v)));
        assert(es1[es.len() as int].0 == k);
        assert(has_key(es1, k));
        let i1 = index_of_key(es1, k);
        assert(0 <= i1 < es1.len() && es1[i1].0 == k);
        assert(i1 == es.len() as int) by {
            if i1 < es.len() {
                assert(es1[i1].0 == es[i1].0);
                assert(has_key(es, k));
            }
        }
    }
    if k2 != k {
        if has_key(es, k2) {
            let j0 = index_of_key(es, k2);
            assert(0 <= j0 < es.len() && es[j0].0 == k2);
            assert(es1[j0].0 == k2 && es1[j0].1 == es[j0].1) by {
                if has_key(es, k) {
                    assert(index_of_key(es, k) != j0);
                }
            }
            assert(has_key(es1, k2));
            let j1 = index_of_key(es1, k2);
            assert(0 <= j1 < es1.len() && es1[j1].0 == k2);
            assert(j1 == j0) by {
                if j1 != j0 {
                    assert(unique_keys(es1));
                }
            }
        } else {
            assert(!has_key(es1, k2)) by {
                if has_key(es1, k2) {
                    let j1 = index_of_key(es1, k2);
                    assert(0 <= j1 < es1.len() && es1[j1].0 == k2);
                    if j1 < es.len() {
                        if has_key(es, k) && j1 == index_of_key(es, k) {
                        } else {
                            assert(es1[j1].0 == es[j1].0);
                            assert(has_key(es, k2));
                        }
                    }
                }
            }
        }
    }
}

/// Saving a second mapping under a different directory leaves the first one
/// untouched: after both inserts each directory yields its own mapping.
pub proof fn lemma_two_saves_keep_both(
    es: Seq<(Seq<char>, BoardMappingV)>,
    d1: Seq<char>,
    m1: BoardMappingV,
    d2: Seq<char>,
    m2: BoardMappingV,
)
    requires
        unique_keys(es),
        d1 != d2,
    ensures
        spec_lookup(spec_insert(spec_insert(es, d1, m1), d2, m2), d1) == Some(m1),
        spec_lookup(spec_insert(spec_insert(es, d1, m1), d2, m2), d2) == Some(m2),
{
    lemma_insert_preserves_unique(es, d1, m1);
    lemma_lookup_insert(es, d1, m1, d2);
    lemma_lookup_insert(spec_insert(es, d1, m1), d2, m2, d1);
}

/// The full save/load round trip: save one mapping, save another under a
/// different directory, write the document out and load it back — both
/// directories still yield exactly the mappings saved for them.
pub proof fn lemma_saved_mappings_survive_reload(
    es: Seq<(Seq<char>, BoardMappingV)>,
    d1: Seq<char>,
    m1: BoardMappingV,
    d2: Seq<char>,
    m2: BoardMappingV,
)
    requires
        unique_keys(es),
        d1 != d2,
    ensures
        spec_lookup(
            crate::codec::spec_load(
                crate::codec::enc_doc(spec_insert(spec_insert(es, d1, m1), d2, m2)),
            ),
            d1,
        ) == Some(m1),
        spec_lookup(
            crate::codec::spec_load(
                crate::codec::enc_doc(spec_insert(spec_insert(es, d1, m1), d2, m2)),
            ),
            d2,
        ) == Some(m2),
{
    lemma_insert_preserves_unique(es, d1, m1);
    lemma_insert_preserves_unique(spec_insert(es, d1, m1), d2, m2);
    crate::codec::lemma_save_load_round_trip(spec_insert(spec_insert(es, d1, m1), d2, m2));
    lemma_two_saves_keep_both(es, d1, m1, d2, m2);
}

} // verus!
