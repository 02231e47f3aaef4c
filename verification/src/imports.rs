//! In-memory import graph support for scene compilation.
//!
//! The scene library owns only already-parsed documents here. It does not
//! perform filesystem or CLI lookups.
use vstd::prelude::*;

use crate::text::{chars_lt, chars_of, lemma_chars_lt_strict_total_order, str_eq, str_lt};

verus! {

/// A parsed document made available to scene compilation as an import.
#[derive(Debug, Clone, Copy)]
pub struct ImportedDocument<D> {
    /// The imported document.
    pub document: D,
}

impl<D> ImportedDocument<D> {
    /// Create an imported-document entry from an already parsed document.
    pub fn new(document: D) -> (r: Self)
        ensures
            r.document == document,
    {
        Self { document }
    }
}

/// The keys of `e` ascend strictly in code-point order (so no key occurs
/// twice).
pub open spec fn keys_ascending<D>(e: Seq<(Seq<char>, D)>) -> bool {
    forall|i: int, j: int| 0 <= i < j < e.len() ==> chars_lt(#[trigger] e[i].0, #[trigger] e[j].0)
}

/// Whether some entry of `e` has key `k`.
pub open spec fn has_key<D>(e: Seq<(Seq<char>, D)>, k: Seq<char>) -> bool {
    exists|i: int| 0 <= i < e.len() && #[trigger] e[i].0 == k
}

/// The position of an entry of `e` with key `k`.
pub open spec fn key_index<D>(e: Seq<(Seq<char>, D)>, k: Seq<char>) -> int {
    choose|i: int| 0 <= i < e.len() && #[trigger] e[i].0 == k
}

/// The map from key to document that the entries `e` hold.
pub open spec fn entries_map<D>(e: Seq<(Seq<char>, D)>) -> Map<Seq<char>, D> {
    Map::new(|k: Seq<char>| has_key(e, k), |k: Seq<char>| e[key_index(e, k)].1)
}

proof fn lemma_entries_map_at<D>(e: Seq<(Seq<char>, D)>, i: int)
    requires
        keys_ascending(e),
        0 <= i < e.len(),
    ensures
        entries_map(e).contains_key(e[i].0),
        entries_map(e)[e[i].0] == e[i].1,
{
    let k = e[i].0;
    assert(0 <= i < e.len() && e[i].0 == k);
    let j = key_index(e, k);
    if j != i {
        lemma_chars_lt_strict_total_order(k, k, k);
        if j < i {
            assert(chars_lt(e[j].0, e[i].0));
        } else {
            assert(chars_lt(e[i].0, e[j].0));
        }
    }
    assert(entries_map(e).contains_key(k));
    assert(entries_map(e)[k] == e[j].1);
}

proof fn lemma_entries_len<D>(e: Seq<(Seq<char>, D)>)
    requires
        keys_ascending(e),
    ensures
        entries_map(e).dom().finite(),
        entries_map(e).len() == e.len(),
{
    let ks = e.map_values(|x: (Seq<char>, D)| x.0);
    assert forall|i: int, j: int| 0 <= i < ks.len() && 0 <= j < ks.len() && i != j implies ks[i]
        != ks[j] by {
        lemma_chars_lt_strict_total_order(ks[i], ks[i], ks[i]);
        if i < j {
            assert(chars_lt(e[i].0, e[j].0));
        } else {
            assert(chars_lt(e[j].0, e[i].0));
        }
    }
    ks.unique_seq_to_set();
    assert forall|k: Seq<char>| #[trigger] entries_map(e).dom().contains(k) == ks.to_set().contains(k)
        by {
        if ks.to_set().contains(k) {
            let i = choose|i: int| 0 <= i < ks.len() && ks[i] == k;
            assert(e[i].0 == k);
        }
        if entries_map(e).dom().contains(k) {
            let i = key_index(e, k);
            assert(ks[i] == k);
        }
    }
    assert(entries_map(e).dom() =~= ks.to_set());
}

/// Deterministic, filesystem-free graph of imported documents, kept in
/// ascending order of import id.
#[derive(Debug)]
pub struct ImportGraph<D> {
    documents: Vec<(String, ImportedDocument<D>)>,
}

impl<D> ImportGraph<D> {
    /// The graph's entries: import id and document, in stored order.
    pub closed spec fn entries(&self) -> Seq<(Seq<char>, D)> {
        self.documents@.map_values(|x: (String, ImportedDocument<D>)| (x.0@, x.1.document))
    }

    #[verifier::type_invariant]
    closed spec fn ids_ascending(&self) -> bool {
        keys_ascending(self.entries())
    }
}

impl<D> View for ImportGraph<D> {
    type V = Map<Seq<char>, D>;

    /// The documents of the graph by import id.
    closed spec fn view(&self) -> Map<Seq<char>, D> {
        entries_map(self.entries())
    }
}

impl<D> Default for ImportGraph<D> {
    /// An empty import graph.
    fn default() -> (g: Self)
        ensures
            g@ == Map::<Seq<char>, D>::empty(),
    {
        Self::new()
    }
}

impl<D> ImportGraph<D> {
    /// Create an empty import graph.
    pub fn new() -> (g: Self)
        ensures
            g@ == Map::<Seq<char>, D>::empty(),
    {
        let g = ImportGraph { documents: Vec::new() };
        assert(g.entries() =~= Seq::<(Seq<char>, D)>::empty());
        assert(g@ =~= Map::<Seq<char>, D>::empty());
        g
    }

    /// Add or replace an import id with a parsed document.
    pub fn insert(&mut self, id: String, document: D)
        ensures
            final(self)@ == old(self)@.insert(id@, document),
    {
        proof {
            use_type_invariant(&*self);
        }
        let ghost old_e = self.entries();
        let mut docs: Vec<(String, ImportedDocument<D>)> = Vec::new();
        std::mem::swap(&mut docs, &mut self.documents);
        let ghost e = docs@.map_values(|x: (String, ImportedDocument<D>)| (x.0@, x.1.document));
        assert(e == old_e);
        let mut pos: usize = 0;
        while pos < docs.len() && str_lt(docs[pos].0.as_str(), id.as_str())
            invariant
                e == docs@.map_values(|x: (String, ImportedDocument<D>)| (x.0@, x.1.document)),
                pos <= docs.len(),
                forall|j: int| 0 <= j < pos ==> chars_lt(#[trigger] e[j].0, id@),
            decreases docs.len() - pos,
        {
            pos = pos + 1;
        }
        let replace = pos < docs.len() && str_eq(docs[pos].0.as_str(), id.as_str());
        let ghost k = id@;
        let entry = (id, ImportedDocument::new(document));
        if replace {
            docs.set(pos, entry);
        } else {
            docs.insert(pos, entry);
        }
        let ghost e2 = docs@.map_values(|x: (String, ImportedDocument<D>)| (x.0@, x.1.document));
        proof {
            if replace {
                assert(e2 =~= e.update(pos as int, (k, document)));
            } else {
                assert(e2 =~= e.insert(pos as int, (k, document)));
                if pos < e.len() {
                    lemma_chars_lt_strict_total_order(e[pos as int].0, k, k);
                    assert(chars_lt(k, e[pos as int].0));
                }
            }
            assert forall|i: int, j: int| 0 <= i < j < e2.len() implies chars_lt(
                #[trigger] e2[i].0,
                #[trigger] e2[j].0,
            ) by {
                if replace {
                    if i == pos {
                        lemma_chars_lt_strict_total_order(k, e[i].0, e[j].0);
                    } else if j == pos {
                        lemma_chars_lt_strict_total_order(e[i].0, k, k);
                    }
                } else {
                    if i == pos {
                        lemma_chars_lt_strict_total_order(k, e[pos as int].0, e[j - 1].0);
                    } else if j == pos {
                    } else if i > pos {
                        assert(chars_lt(e[i - 1].0, e[j - 1].0));
                    } else if j > pos {
                        assert(chars_lt(e[i].0, e[j - 1].0));
                    }
                }
            }
            let m = entries_map(e2);
            let m0 = entries_map(e).insert(k, document);
            assert forall|key: Seq<char>| #[trigger] m.contains_key(key) == m0.contains_key(key)
                by {
                if m.contains_key(key) {
                    let i = key_index(e2, key);
                    if key != k {
                        if replace || i < pos {
                            assert(e[i].0 == key);
                        } else {
                            assert(e[i - 1].0 == key);
                        }
                    }
                }
                if m0.contains_key(key) && key != k {
                    let i = key_index(e, key);
                    if replace || i < pos {
                        assert(e2[i].0 == key);
                    } else {
                        assert(e2[i + 1].0 == key);
                    }
                }
                if key == k {
                    assert(e2[pos as int].0 == k);
                }
            }
            assert forall|key: Seq<char>| m.contains_key(key) implies #[trigger] m[key] == m0[key]
                by {
                if key == k {
                    lemma_entries_map_at(e2, pos as int);
                } else {
                    let i = key_index(e, key);
                    lemma_entries_map_at(e, i);
                    if replace || i < pos {
                        lemma_entries_map_at(e2, i);
                    } else {
                        lemma_entries_map_at(e2, i + 1);
                    }
                }
            }
            assert(m =~= m0);
        }
        self.documents = docs;
    }

    /// Return a new graph containing `id -> document`.
    pub fn with_document(self, id: String, document: D) -> (g: Self)
        ensures
            g@ == self@.insert(id@, document),
    {
        let mut g = self;
        g.insert(id, document);
        g
    }

    /// The graph's entries in ascending order of import id (the order in which
    /// scene compilation resolves the imported scopes).
    pub fn documents(&self) -> (d: &[(String, ImportedDocument<D>)])
        ensures
            d.len() == self@.len(),
            forall|i: int, j: int|
                0 <= i < j < d.len() ==> chars_lt(#[trigger] d[i].0@, #[trigger] d[j].0@),
            forall|i: int|
                #![trigger d[i]]
                0 <= i < d.len() ==> self@.contains_key(d[i].0@) && self@[d[i].0@]
                    == d[i].1.document,
    {
        proof {
            use_type_invariant(self);
        }
        let d = self.documents.as_slice();
        proof {
            let e = self.entries();
            assert forall|i: int|
                #![trigger d[i]]
                0 <= i < d.len() implies self@.contains_key(d[i].0@) && self@[d[i].0@]
                    == d[i].1.document by {
                assert(e[i] == (d[i].0@, d[i].1.document));
                lemma_entries_map_at(e, i);
                assert(entries_map(e).contains_key(d[i].0@));
                assert(self@ == entries_map(e));
            }
            assert forall|i: int, j: int| 0 <= i < j < d.len() implies chars_lt(
                #[trigger] d[i].0@,
                #[trigger] d[j].0@,
            ) by {
                assert(chars_lt(e[i].0, e[j].0));
            }
            lemma_entries_len(e);
        }
        d
    }
}

impl<D: Clone> Clone for ImportGraph<D> {
    /// A copy of the graph: the same import ids, each document cloned.
    fn clone(&self) -> (g: Self)
        ensures
            g@.dom() == self@.dom(),
            forall|k: Seq<char>| #[trigger] self@.contains_key(k) ==> cloned::<D>(self@[k], g@[k]),
    {
        proof {
            use_type_invariant(self);
        }
        let ghost e = self.entries();
        let mut docs: Vec<(String, ImportedDocument<D>)> = Vec::new();
        let mut i: usize = 0;
        while i < self.documents.len()
            invariant
                e == self.entries(),
                keys_ascending(e),
                i <= self.documents.len(),
                docs.len() == i,
                forall|j: int|
                    0 <= j < i ==> (#[trigger] docs@[j]).0@ == e[j].0 && cloned::<D>(
                        e[j].1,
                        docs@[j].1.document,
                    ),
            decreases self.documents.len() - i,
        {
            let entry = &self.documents[i];
            let id = entry.0.clone();
            let document = entry.1.document.clone();
            proof {
                assert(e[i as int] == (self.documents@[i as int].0@, self.documents@[i as int].1.document));
            }
            docs.push((id, ImportedDocument { document }));
            i = i + 1;
        }
        let ghost e2 = docs@.map_values(|x: (String, ImportedDocument<D>)| (x.0@, x.1.document));
        proof {
            assert forall|a: int, b: int| 0 <= a < b < e2.len() implies chars_lt(
                #[trigger] e2[a].0,
                #[trigger] e2[b].0,
            ) by {
                assert(docs@[a].0@ == e[a].0);
                assert(docs@[b].0@ == e[b].0);
            }
        }
        let g = ImportGraph { documents: docs };
        proof {
            assert(g.entries() == e2);
            assert forall|k: Seq<char>| #[trigger] g@.contains_key(k) == self@.contains_key(k) by {
                if has_key(e2, k) {
                    let j = choose|j: int| 0 <= j < e2.len() && #[trigger] e2[j].0 == k;
                    assert(docs@[j].0@ == e[j].0);
                    assert(e[j].0 == k);
                }
                if has_key(e, k) {
                    let j = choose|j: int| 0 <= j < e.len() && #[trigger] e[j].0 == k;
                    assert(docs@[j].0@ == e[j].0);
                    assert(e2[j].0 == k);
                }
            }
            assert(g@.dom() =~= self@.dom());
            assert forall|k: Seq<char>| #[trigger] self@.contains_key(k) implies cloned::<D>(
                self@[k],
                g@[k],
            ) by {
                let j = key_index(e, k);
                lemma_entries_map_at(e, j);
                assert(docs@[j].0@ == e[j].0);
                assert(e2[j] == (e[j].0, docs@[j].1.document));
                lemma_entries_map_at(e2, j);
            }
        }
        g
    }
}

/// What an instance's `source="<import>#<target>"` names.
pub enum ImportSource<'a> {
    /// `<import>#component.<id>`: a component of an imported document.
    Component { import_id: &'a str, component_id: &'a str },
    /// `<import>#<target>` with a target that is not a component reference.
    UnsupportedTarget { import_id: &'a str, target: &'a str },
    /// No `#`, an empty import id, an empty target, or an empty component id.
    Invalid,
}

/// The characters an [`ImportSource`] names.
pub enum ImportSourceView {
    Component { import_id: Seq<char>, component_id: Seq<char> },
    UnsupportedTarget { import_id: Seq<char>, target: Seq<char> },
    Invalid,
}

impl<'a> View for ImportSource<'a> {
    type V = ImportSourceView;

    open spec fn view(&self) -> ImportSourceView {
        match self {
            ImportSource::Component { import_id, component_id } => ImportSourceView::Component {
                import_id: import_id@,
                component_id: component_id@,
            },
            ImportSource::UnsupportedTarget { import_id, target } =>
                ImportSourceView::UnsupportedTarget { import_id: import_id@, target: target@ },
            ImportSource::Invalid => ImportSourceView::Invalid,
        }
    }
}

/// The target prefix that names a component: `component.`.
pub open spec fn component_prefix() -> Seq<char> {
    seq!['c', 'o', 'm', 'p', 'o', 'n', 'e', 'n', 't', '.']
}

/// What `source` names: it splits at its FIRST `#` into an import id and a
/// target, both non-empty; a target that starts with `component.` followed by
/// a non-empty id names that component, any other target is unsupported.
pub open spec fn import_source_of(s: Seq<char>) -> ImportSourceView {
    match s.index_of_first('#') {
        None => ImportSourceView::Invalid,
        Some(i) => {
            let import_id = s.subrange(0, i);
            let target = s.subrange(i + 1, s.len() as int);
            if import_id.len() == 0 || target.len() == 0 {
                ImportSourceView::Invalid
            } else if component_prefix().is_prefix_of(target) {
                let component_id = target.subrange(
                    component_prefix().len() as int,
                    target.len() as int,
                );
                if component_id.len() == 0 {
                    ImportSourceView::Invalid
                } else {
                    ImportSourceView::Component { import_id, component_id }
                }
            } else {
                ImportSourceView::UnsupportedTarget { import_id, target }
            }
        },
    }
}

/// Parse an instance `source` attribute into the import it names.
pub fn parse_import_source(source: &str) -> (r: ImportSource<'_>)
    ensures
        r@ == import_source_of(source@),
{
    let chars = chars_of(source);
    let len = chars.len();
    let ghost s = source@;
    let mut i: usize = 0;
    while i < len && chars[i] != '#'
        invariant
            chars@ == s,
            len == s.len(),
            i <= len,
            forall|j: int| 0 <= j < i ==> s[j] != '#',
        decreases len - i,
    {
        i = i + 1;
    }
    proof {
        s.index_of_first_ensures('#');
    }
    if i == len {
        assert(!s.contains('#'));
        return ImportSource::Invalid;
    }
    proof {
        let k = s.index_of_first('#').unwrap();
        assert(s[i as int] == '#');
        assert(k == i);
    }
    if i == 0 || i + 1 == len {
        return ImportSource::Invalid;
    }
    let import_id = source.substring_char(0, i);
    let target_start = i + 1;
    // Does the target start with `component.`?
    let prefix = ['c', 'o', 'm', 'p', 'o', 'n', 'e', 'n', 't', '.'];
    let ghost target = s.subrange(target_start as int, len as int);
    let mut k: usize = 0;
    if len - target_start >= 10 {
        while k < 10 && chars[target_start + k] == prefix[k]
            invariant
                chars@ == s,
                len == s.len(),
                target_start + 10 <= len,
                target == s.subrange(target_start as int, len as int),
                prefix@ == component_prefix(),
                k <= 10,
                forall|j: int| 0 <= j < k ==> target[j] == component_prefix()[j],
            decreases 10 - k,
        {
            k = k + 1;
        }
    }
    let is_component = k == 10;
    proof {
        if is_component {
            assert(target.subrange(0, 10) =~= component_prefix());
        } else if target.len() >= 10 {
            assert(target[k as int] != component_prefix()[k as int]);
            assert(!component_prefix().is_prefix_of(target));
        }
    }
    if is_component {
        if target_start + 10 == len {
            return ImportSource::Invalid;
        }
        let component_id = source.substring_char(target_start + 10, len);
        assert(component_id@ =~= target.subrange(10, target.len() as int));
        ImportSource::Component { import_id, component_id }
    } else {
        proof {
            if component_prefix().is_prefix_of(target) {
                assert(target.len() >= 10);
            }
        }
        let target_str = source.substring_char(target_start, len);
        ImportSource::UnsupportedTarget { import_id, target: target_str }
    }
}

} // verus!
