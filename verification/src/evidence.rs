//! Evidence policy and the JSON-Pointer-keyed evidence sidecar.
//!
//! Extracted JSON stays schema-pure: citations live only in the sidecar and
//! are never wrapped into field values. Required evidence fails closed.

use vstd::prelude::*;

use crate::json::{Json, JsonValue};
use crate::pointer::{
    lemma_tokens_lt_asymmetric, lemma_tokens_lt_irreflexive, lemma_tokens_lt_total,
    lemma_tokens_lt_transitive, path_get, tokens_lt, JsonPointer,
};
use crate::text::{is_blank, str_is_blank};

verus! {

pub const EVIDENCE_SIDECAR_VERSION: u16 = 1;

/// A refused evidence entry, with its reason.
#[derive(Debug, Clone, PartialEq, Eq)]
pub struct EvidenceError(String);

impl EvidenceError {
    pub closed spec fn message_spec(&self) -> Seq<char> {
        self.0@
    }

    /// The error's display text.
    pub fn message(&self) -> (s: &String)
        ensures
            s@ == self.message_spec(),
    {
        &self.0
    }
}

#[derive(Debug, Clone, Copy, PartialEq, Eq, Structural)]
pub enum EvidenceKind {
    Exact,
    Normalized,
    Computed,
    Inferred,
}

#[derive(Debug, Clone, Copy, PartialEq, Eq, Structural)]
pub enum EvidenceSidecarStatus {
    NotRequested,
    Complete,
    Partial,
    Unavailable,
}

/// One citation: how the value was found, the quoted text, and where.
#[derive(Debug, Clone, PartialEq, Eq)]
pub struct EvidenceEntry {
    kind: EvidenceKind,
    quote: Option<String>,
    source: Option<String>,
}

pub open spec fn opt_view(o: Option<String>) -> Option<Seq<char>> {
    match o {
        Some(s) => Some(s@),
        None => None,
    }
}

/// `(kind, quote, source)` of an entry.
pub type EntryView = (EvidenceKind, Option<Seq<char>>, Option<Seq<char>>);

impl View for EvidenceEntry {
    type V = EntryView;

    closed spec fn view(&self) -> EntryView {
        (self.kind, opt_view(self.quote), opt_view(self.source))
    }
}

/// Exact and normalized citations can back a required path; computed and
/// inferred ones cannot.
pub open spec fn supports_required(kind: EvidenceKind) -> bool {
    kind == EvidenceKind::Exact || kind == EvidenceKind::Normalized
}

impl EvidenceEntry {
    /// An entry; a quote, when given, must not be blank.
    pub fn new(kind: EvidenceKind, quote: Option<String>, source: Option<String>) -> (r: Result<
        EvidenceEntry,
        EvidenceError,
    >)
        ensures
            match r {
                Ok(e) => e@ == (kind, opt_view(quote), opt_view(source)) && !(quote matches Some(
                    q,
                ) && is_blank(q@)),
                Err(err) => (quote matches Some(q) && is_blank(q@)) && err.message_spec()
                    == "evidence quote must not be empty"@,
            },
    {
        let blank = match &quote {
            Some(q) => str_is_blank(q.as_str()),
            None => false,
        };
        if blank {
            return Err(EvidenceError("evidence quote must not be empty".to_string()));
        }
        Ok(EvidenceEntry { kind, quote, source })
    }

    pub fn kind(&self) -> (k: EvidenceKind)
        ensures
            k == self@.0,
    {
        self.kind
    }

    pub fn quote(&self) -> (q: Option<&str>)
        ensures
            match q {
                Some(s) => self@.1 == Some(s@),
                None => self@.1.is_none(),
            },
    {
        match &self.quote {
            Some(s) => Some(s.as_str()),
            None => None,
        }
    }

    pub fn source(&self) -> (q: Option<&str>)
        ensures
            match q {
                Some(s) => self@.2 == Some(s@),
                None => self@.2.is_none(),
            },
    {
        match &self.source {
            Some(s) => Some(s.as_str()),
            None => None,
        }
    }

    pub fn supports_required_path(&self) -> (r: bool)
        ensures
            r == supports_required(self@.0),
    {
        matches!(self.kind, EvidenceKind::Exact | EvidenceKind::Normalized)
    }

    pub fn duplicate(&self) -> (r: EvidenceEntry)
        ensures
            r@ == self@,
    {
        EvidenceEntry { kind: self.kind, quote: self.quote.clone(), source: self.source.clone() }
    }
}

// ---------------------------------------------------------------------------
// Pointer-keyed sorted maps
// ---------------------------------------------------------------------------

/// Index of the first entry of `m` whose pointer is `key`.
pub open spec fn find_at<V>(m: Seq<(Seq<Seq<char>>, V)>, key: Seq<Seq<char>>) -> Option<int>
    decreases m.len(),
{
    if m.len() == 0 {
        None
    } else if m[0].0 == key {
        Some(0)
    } else {
        match find_at(m.drop_first(), key) {
            Some(i) => Some(i + 1),
            None => None,
        }
    }
}

/// The value stored under `key`.
pub open spec fn lookup<V>(m: Seq<(Seq<Seq<char>>, V)>, key: Seq<Seq<char>>) -> Option<V> {
    match find_at(m, key) {
        Some(i) => Some(m[i].1),
        None => None,
    }
}

/// Pointers strictly increasing in `JsonPointer`'s order.
pub open spec fn pointers_sorted<V>(m: Seq<(Seq<Seq<char>>, V)>) -> bool {
    forall|i: int, j: int| 0 <= i < j < m.len() ==> tokens_lt(#[trigger] m[i].0, #[trigger] m[j].0)
}

/// Number of leading entries whose pointer sorts before `key`.
pub open spec fn slot<V>(m: Seq<(Seq<Seq<char>>, V)>, key: Seq<Seq<char>>) -> int
    decreases m.len(),
{
    if m.len() > 0 && tokens_lt(m[0].0, key) {
        1 + slot(m.drop_first(), key)
    } else {
        0
    }
}

/// `m` with `key` mapped to `value`: replaced in place, or added in order.
pub open spec fn upsert<V>(m: Seq<(Seq<Seq<char>>, V)>, key: Seq<Seq<char>>, value: V) -> Seq<
    (Seq<Seq<char>>, V),
> {
    match find_at(m, key) {
        Some(i) => m.update(i, (key, value)),
        None => m.insert(slot(m, key), (key, value)),
    }
}

proof fn lemma_find_at<V>(m: Seq<(Seq<Seq<char>>, V)>, key: Seq<Seq<char>>)
    ensures
        match find_at(m, key) {
            Some(k) => 0 <= k < m.len() && m[k].0 == key && forall|j: int|
                0 <= j < k ==> #[trigger] m[j].0 != key,
            None => forall|j: int| 0 <= j < m.len() ==> #[trigger] m[j].0 != key,
        },
    decreases m.len(),
{
    if m.len() > 0 && m[0].0 != key {
        let d = m.drop_first();
        lemma_find_at(d, key);
        match find_at(d, key) {
            Some(k) => {
                assert forall|j: int| 0 <= j < k + 1 implies #[trigger] m[j].0 != key by {
                    if j > 0 {
                        assert(m[j] == d[j - 1]);
                    }
                }
            },
            None => {
                assert forall|j: int| 0 <= j < m.len() implies #[trigger] m[j].0 != key by {
                    if j > 0 {
                        assert(m[j] == d[j - 1]);
                    }
                }
            },
        }
    }
}

proof fn lemma_find_at_is<V>(m: Seq<(Seq<Seq<char>>, V)>, key: Seq<Seq<char>>, k: int)
    requires
        0 <= k <= m.len(),
        forall|j: int| 0 <= j < k ==> #[trigger] m[j].0 != key,
        k == m.len() || m[k].0 == key,
    ensures
        find_at(m, key) == (if k < m.len() { Some(k) } else { None::<int> }),
{
    lemma_find_at(m, key);
    match find_at(m, key) {
        Some(i) => {
            if i < k {
                assert(m[i].0 != key);
            }
            if i > k {
                assert(m[k].0 != key);
            }
        },
        None => {
            if k < m.len() {
                assert(m[k].0 != key);
            }
        },
    }
}

proof fn lemma_sorted_find<V>(m: Seq<(Seq<Seq<char>>, V)>, key: Seq<Seq<char>>, k: int)
    requires
        pointers_sorted(m),
        0 <= k < m.len(),
        m[k].0 == key,
    ensures
        find_at(m, key) == Some(k),
{
    assert forall|j: int| 0 <= j < k implies #[trigger] m[j].0 != key by {
        assert(tokens_lt(m[j].0, m[k].0));
        lemma_tokens_lt_irreflexive(key);
    }
    lemma_find_at_is(m, key, k);
}

proof fn lemma_slot_is<V>(m: Seq<(Seq<Seq<char>>, V)>, key: Seq<Seq<char>>, p: int)
    requires
        0 <= p <= m.len(),
        forall|j: int| 0 <= j < p ==> tokens_lt(#[trigger] m[j].0, key),
        p == m.len() || !tokens_lt(m[p].0, key),
    ensures
        slot(m, key) == p,
    decreases p,
{
    if p > 0 {
        let d = m.drop_first();
        assert forall|j: int| 0 <= j < p - 1 implies tokens_lt(#[trigger] d[j].0, key) by {
            assert(d[j] == m[j + 1]);
        }
        assert(tokens_lt(m[0].0, key));
        if p - 1 < d.len() {
            assert(d[p - 1] == m[p]);
        }
        lemma_slot_is(d, key, p - 1);
    }
}

proof fn lemma_slot<V>(m: Seq<(Seq<Seq<char>>, V)>, key: Seq<Seq<char>>)
    ensures
        0 <= slot(m, key) <= m.len(),
        forall|j: int| 0 <= j < slot(m, key) ==> tokens_lt(#[trigger] m[j].0, key),
        slot(m, key) == m.len() || !tokens_lt(m[slot(m, key)].0, key),
    decreases m.len(),
{
    if m.len() > 0 && tokens_lt(m[0].0, key) {
        let d = m.drop_first();
        lemma_slot(d, key);
        let p = slot(d, key);
        assert forall|j: int| 0 <= j < p + 1 implies tokens_lt(#[trigger] m[j].0, key) by {
            if j > 0 {
                assert(m[j] == d[j - 1]);
            }
        }
        if p + 1 < m.len() {
            assert(m[p + 1] == d[p]);
        }
    }
}

/// Mapping a pointer keeps the map sorted and changes only that pointer's
/// value.
pub proof fn lemma_upsert_lookup<V>(
    m: Seq<(Seq<Seq<char>>, V)>,
    key: Seq<Seq<char>>,
    value: V,
    other: Seq<Seq<char>>,
)
    requires
        pointers_sorted(m),
    ensures
        pointers_sorted(upsert(m, key, value)),
        lookup(upsert(m, key, value), other) == (if other == key {
            Some(value)
        } else {
            lookup(m, other)
        }),
{
    let r = upsert(m, key, value);
    lemma_find_at(m, key);
    lemma_find_at(m, other);
    match find_at(m, key) {
        Some(i) => {
            assert(r == m.update(i, (key, value)));
            assert forall|a: int, b: int| 0 <= a < b < r.len() implies tokens_lt(
                #[trigger] r[a].0,
                #[trigger] r[b].0,
            ) by {
                assert(tokens_lt(m[a].0, m[b].0));
            }
            if other == key {
                lemma_sorted_find(r, key, i);
            } else {
                match find_at(m, other) {
                    Some(k) => {
                        assert(r[k] == m[k]);
                        lemma_sorted_find(r, other, k);
                    },
                    None => {
                        assert forall|j: int| 0 <= j < r.len() implies #[trigger] r[j].0 != other by {
                            if j != i {
                                assert(r[j] == m[j]);
                            }
                        }
                        lemma_find_at_is(r, other, r.len() as int);
                    },
                }
            }
        },
        None => {
            let p = slot(m, key);
            lemma_slot(m, key);
            assert(r == m.insert(p, (key, value)));
            if p < m.len() {
                lemma_tokens_lt_total(m[p].0, key);
            }
            assert forall|a: int, b: int| 0 <= a < b < r.len() implies tokens_lt(
                #[trigger] r[a].0,
                #[trigger] r[b].0,
            ) by {
                if b < p {
                    assert(tokens_lt(m[a].0, m[b].0));
                } else if b == p {
                    assert(r[a] == m[a]);
                } else if a < p {
                    assert(r[b] == m[b - 1]);
                    assert(tokens_lt(key, m[p].0));
                    if p < b - 1 {
                        assert(tokens_lt(m[p].0, m[b - 1].0));
                        lemma_tokens_lt_transitive(key, m[p].0, m[b - 1].0);
                    }
                    lemma_tokens_lt_transitive(m[a].0, key, m[b - 1].0);
                } else if a == p {
                    assert(r[b] == m[b - 1]);
                    assert(tokens_lt(key, m[p].0));
                    if p < b - 1 {
                        assert(tokens_lt(m[p].0, m[b - 1].0));
                        lemma_tokens_lt_transitive(key, m[p].0, m[b - 1].0);
                    }
                } else {
                    assert(r[a] == m[a - 1]);
                    assert(r[b] == m[b - 1]);
                    assert(tokens_lt(m[a - 1].0, m[b - 1].0));
                }
            }
            if other == key {
                lemma_sorted_find(r, key, p);
            } else {
                match find_at(m, other) {
                    Some(k) => {
                        if k < p {
                            assert(r[k] == m[k]);
                            lemma_sorted_find(r, other, k);
                        } else {
                            assert(r[k + 1] == m[k]);
                            lemma_sorted_find(r, other, k + 1);
                        }
                    },
                    None => {
                        assert forall|j: int| 0 <= j < r.len() implies #[trigger] r[j].0 != other by {
                            if j < p {
                                assert(r[j] == m[j]);
                            } else if j > p {
                                assert(r[j] == m[j - 1]);
                            }
                        }
                        lemma_find_at_is(r, other, r.len() as int);
                    },
                }
            }
        },
    }
}


// ---------------------------------------------------------------------------
// The sidecar
// ---------------------------------------------------------------------------

pub open spec fn entries_view(v: Seq<EvidenceEntry>) -> Seq<EntryView> {
    v.map_values(|e: EvidenceEntry| e@)
}

pub open spec fn pairs_view(v: Seq<(JsonPointer, Vec<EvidenceEntry>)>) -> Seq<
    (Seq<Seq<char>>, Seq<EntryView>),
> {
    v.map_values(|p: (JsonPointer, Vec<EvidenceEntry>)| (p.0@, entries_view(p.1@)))
}

/// Where `key` is, or where it would go, in sorted `entries`.
fn locate(entries: &Vec<(JsonPointer, Vec<EvidenceEntry>)>, key: &JsonPointer) -> (r: (usize, bool))
    requires
        pointers_sorted(pairs_view(entries@)),
    ensures
        r.0 <= entries@.len(),
        r.1 ==> r.0 < entries@.len() && find_at(pairs_view(entries@), key@) == Some(r.0 as int),
        !r.1 ==> find_at(pairs_view(entries@), key@) is None && slot(pairs_view(entries@), key@)
            == r.0,
{
    let ghost m = pairs_view(entries@);
    let mut i: usize = 0;
    while i < entries.len() && entries[i].0.less_than(key)
        invariant
            i <= entries@.len(),
            m == pairs_view(entries@),
            m.len() == entries@.len(),
            forall|k: int| 0 <= k < i ==> tokens_lt(#[trigger] m[k].0, key@),
        decreases entries@.len() - i,
    {
        i = i + 1;
    }
    if i < entries.len() && entries[i].0.same_as(key) {
        proof {
            lemma_sorted_find(m, key@, i as int);
        }
        (i, true)
    } else {
        proof {
            lemma_slot_is(m, key@, i as int);
            if i < m.len() {
                lemma_tokens_lt_total(m[i as int].0, key@);
            }
            assert forall|k: int| 0 <= k < m.len() implies #[trigger] m[k].0 != key@ by {
                if k < i {
                    lemma_tokens_lt_irreflexive(key@);
                } else if k > i {
                    assert(tokens_lt(m[i as int].0, m[k].0));
                    lemma_tokens_lt_transitive(key@, m[i as int].0, m[k].0);
                    lemma_tokens_lt_irreflexive(key@);
                }
            }
            lemma_find_at_is(m, key@, m.len() as int);
        }
        (i, false)
    }
}

/// `entries` with `key` mapped to `value`.
fn upsert_entries(
    entries: Vec<(JsonPointer, Vec<EvidenceEntry>)>,
    key: JsonPointer,
    value: Vec<EvidenceEntry>,
) -> (r: Vec<(JsonPointer, Vec<EvidenceEntry>)>)
    requires
        pointers_sorted(pairs_view(entries@)),
    ensures
        pairs_view(r@) == upsert(pairs_view(entries@), key@, entries_view(value@)),
        pointers_sorted(pairs_view(r@)),
{
    let ghost m = pairs_view(entries@);
    let ghost kv = key@;
    let ghost vv = entries_view(value@);
    let (i, found) = locate(&entries, &key);
    let ghost pair = (key, value);
    let mut entries = entries;
    if found {
        entries.set(i, (key, value));
        proof {
            assert(pairs_view(entries@) =~= m.update(i as int, (kv, vv)));
        }
    } else {
        entries.insert(i, (key, value));
        proof {
            assert(pairs_view(entries@) =~= m.insert(i as int, (kv, vv)));
        }
    }
    proof {
        lemma_upsert_lookup(m, kv, vv, kv);
    }
    entries
}

/// Pointers mapped one after the other into an empty sidecar.
pub open spec fn fold_upsert(pairs: Seq<(Seq<Seq<char>>, Seq<EntryView>)>) -> Seq<
    (Seq<Seq<char>>, Seq<EntryView>),
>
    decreases pairs.len(),
{
    if pairs.len() == 0 {
        Seq::empty()
    } else {
        upsert(fold_upsert(pairs.drop_last()), pairs.last().0, pairs.last().1)
    }
}

/// The entries under `key` after `entry` is added there.
pub open spec fn appended(m: Seq<(Seq<Seq<char>>, Seq<EntryView>)>, key: Seq<Seq<char>>, entry: EntryView) -> Seq<EntryView> {
    match lookup(m, key) {
        Some(v) => v.push(entry),
        None => seq![entry],
    }
}

/// JSON-Pointer-keyed evidence. Pointers are kept in `JsonPointer` order, each
/// once, so the serialized order is canonical.
#[derive(Debug, PartialEq, Eq)]
pub struct EvidenceSidecar {
    version: u16,
    status: EvidenceSidecarStatus,
    entries: Vec<(JsonPointer, Vec<EvidenceEntry>)>,
}

impl EvidenceSidecar {
    /// `(pointer, entries)` pairs in pointer order.
    pub closed spec fn model(&self) -> Seq<(Seq<Seq<char>>, Seq<EntryView>)> {
        pairs_view(self.entries@)
    }

    pub closed spec fn status_spec(&self) -> EvidenceSidecarStatus {
        self.status
    }

    pub closed spec fn version_spec(&self) -> u16 {
        self.version
    }

    #[verifier::type_invariant]
    spec fn well_formed(&self) -> bool {
        &&& pointers_sorted(pairs_view(self.entries@))
        &&& self.status == EvidenceSidecarStatus::Complete ==> self.entries@.len() > 0
        &&& self.status == EvidenceSidecarStatus::NotRequested ==> self.entries@.len() == 0
    }

    /// The pointers always come sorted, each once.
    pub fn sorted_model(&self)
        ensures
            pointers_sorted(self.model()),
    {
        proof {
            use_type_invariant(self);
        }
    }

    /// However a sidecar was built, a complete one holds evidence and one
    /// that was not requested holds none.
    pub fn status_matches_entries(&self)
        ensures
            self.status_spec() == EvidenceSidecarStatus::Complete ==> self.model().len() > 0,
            self.status_spec() == EvidenceSidecarStatus::NotRequested ==> self.model().len() == 0,
    {
        proof {
            use_type_invariant(self);
        }
    }

    pub fn not_requested() -> (s: EvidenceSidecar)
        ensures
            s.version_spec() == EVIDENCE_SIDECAR_VERSION,
            s.status_spec() == EvidenceSidecarStatus::NotRequested,
            s.model().len() == 0,
    {
        EvidenceSidecar {
            version: EVIDENCE_SIDECAR_VERSION,
            status: EvidenceSidecarStatus::NotRequested,
            entries: Vec::new(),
        }
    }

    pub fn unavailable() -> (s: EvidenceSidecar)
        ensures
            s.version_spec() == EVIDENCE_SIDECAR_VERSION,
            s.status_spec() == EvidenceSidecarStatus::Unavailable,
            s.model().len() == 0,
    {
        EvidenceSidecar {
            version: EVIDENCE_SIDECAR_VERSION,
            status: EvidenceSidecarStatus::Unavailable,
            entries: Vec::new(),
        }
    }

    /// A sidecar holding `entries`; a later pair for a pointer replaces an
    /// earlier one. `Partial` when it holds nothing, otherwise `Complete`.
    pub fn from_entries(entries: Vec<(JsonPointer, Vec<EvidenceEntry>)>) -> (s: EvidenceSidecar)
        ensures
            s.version_spec() == EVIDENCE_SIDECAR_VERSION,
            s.model() == fold_upsert(pairs_view(entries@)),
            s.status_spec() == (if s.model().len() == 0 {
                EvidenceSidecarStatus::Partial
            } else {
                EvidenceSidecarStatus::Complete
            }),
    {
        let ghost pm = pairs_view(entries@);
        let mut acc: Vec<(JsonPointer, Vec<EvidenceEntry>)> = Vec::new();
        let mut rest = entries;
        let ghost total = rest@;
        let n = rest.len();
        let mut done: usize = 0;
        proof {
            assert(pm.take(0) =~= Seq::<(Seq<Seq<char>>, Seq<EntryView>)>::empty());
            assert(rest@ =~= total.skip(0));
        }
        while rest.len() > 0
            invariant
                done <= total.len(),
                n == total.len(),
                rest@ == total.skip(done as int),
                pm == pairs_view(total),
                pairs_view(acc@) == fold_upsert(pm.take(done as int)),
                pointers_sorted(pairs_view(acc@)),
            decreases rest@.len(),
        {
            let (k, v) = rest.remove(0);
            proof {
                assert(total[done as int] == (k, v));
                assert(pm.take(done + 1).drop_last() =~= pm.take(done as int));
                assert(pm.take(done + 1).last() == (k@, entries_view(v@)));
            }
            acc = upsert_entries(acc, k, v);
            done = done + 1;
            proof {
                assert(rest@ =~= total.skip(done as int));
            }
        }
        proof {
            assert(pm.take(done as int) =~= pm);
        }
        let status = if acc.len() == 0 {
            EvidenceSidecarStatus::Partial
        } else {
            EvidenceSidecarStatus::Complete
        };
        EvidenceSidecar { version: EVIDENCE_SIDECAR_VERSION, status, entries: acc }
    }

    /// Adds `entry` under `pointer`, after those already there. A sidecar
    /// that was not requested becomes `Partial`.
    pub fn with(self, pointer: JsonPointer, entry: EvidenceEntry) -> (s: EvidenceSidecar)
        ensures
            s.version_spec() == self.version_spec(),
            s.model() == upsert(self.model(), pointer@, appended(self.model(), pointer@, entry@)),
            s.status_spec() == (if self.status_spec() == EvidenceSidecarStatus::NotRequested {
                EvidenceSidecarStatus::Partial
            } else {
                self.status_spec()
            }),
    {
        proof {
            use_type_invariant(&self);
        }
        let ghost m = self.model();
        let ghost ev = entry@;
        let EvidenceSidecar { version, status, entries } = self;
        let (i, found) = locate(&entries, &pointer);
        let mut entries = entries;
        if found {
            let ghost old_entries = entries@;
            let (k, existing) = entries.remove(i);
            let ghost before = existing@;
            proof {
                assert(old_entries[i as int].0 == k);
                assert(old_entries[i as int].1@ == before);
            }
            let mut existing = existing;
            existing.push(entry);
            proof {
                assert(existing@ == before.push(entry));
                assert(m[i as int] == (k@, entries_view(old_entries[i as int].1@)));
                assert(entries_view(existing@) =~= m[i as int].1.push(ev));
            }
            let ghost pair = (k, existing);
            entries.insert(i, (k, existing));
            proof {
                assert(entries@ =~= old_entries.update(i as int, pair));
                assert(m == pairs_view(old_entries));
                lemma_find_at(m, pointer@);
                assert(k@ == pointer@);
                assert(appended(m, pointer@, ev) == m[i as int].1.push(ev));
                assert(pairs_view(entries@) =~= upsert(m, pointer@, appended(m, pointer@, ev)));
                lemma_upsert_lookup(m, pointer@, appended(m, pointer@, ev), pointer@);
            }
        } else {
            let mut v: Vec<EvidenceEntry> = Vec::new();
            v.push(entry);
            proof {
                assert(entries_view(v@) =~= seq![ev]);
            }
            entries = upsert_entries(entries, pointer, v);
        }
        let status = if status == EvidenceSidecarStatus::NotRequested {
            EvidenceSidecarStatus::Partial
        } else {
            status
        };
        EvidenceSidecar { version, status, entries }
    }

    pub fn version(&self) -> (v: u16)
        ensures
            v == self.version_spec(),
    {
        self.version
    }

    pub fn status(&self) -> (st: EvidenceSidecarStatus)
        ensures
            st == self.status_spec(),
    {
        self.status
    }

    /// The `(pointer, entries)` pairs in pointer order.
    pub fn entries(&self) -> (r: &Vec<(JsonPointer, Vec<EvidenceEntry>)>)
        ensures
            pairs_view(r@) == self.model(),
    {
        &self.entries
    }

    /// The entries recorded under `pointer`.
    pub fn get(&self, pointer: &JsonPointer) -> (r: Option<&[EvidenceEntry]>)
        ensures
            match r {
                Some(v) => lookup(self.model(), pointer@) == Some(entries_view(v@)),
                None => lookup(self.model(), pointer@).is_none(),
            },
    {
        proof {
            use_type_invariant(self);
        }
        let (i, found) = locate(&self.entries, pointer);
        if found {
            Some(self.entries[i].1.as_slice())
        } else {
            None
        }
    }

    pub fn is_empty(&self) -> (r: bool)
        ensures
            r == (self.model().len() == 0),
    {
        self.entries.len() == 0
    }
}

impl Default for EvidenceSidecar {
    fn default() -> (s: EvidenceSidecar)
        ensures
            s.version_spec() == EVIDENCE_SIDECAR_VERSION,
            s.status_spec() == EvidenceSidecarStatus::NotRequested,
            s.model().len() == 0,
    {
        EvidenceSidecar::not_requested()
    }
}

fn copy_entries(v: &Vec<EvidenceEntry>) -> (r: Vec<EvidenceEntry>)
    ensures
        entries_view(r@) == entries_view(v@),
{
    let mut r: Vec<EvidenceEntry> = Vec::new();
    let mut i: usize = 0;
    while i < v.len()
        invariant
            i <= v@.len(),
            r@.len() == i,
            forall|k: int| 0 <= k < i ==> (#[trigger] r@[k])@ == v@[k]@,
        decreases v@.len() - i,
    {
        r.push(v[i].duplicate());
        i = i + 1;
    }
    proof {
        assert(entries_view(r@) =~= entries_view(v@));
    }
    r
}

fn copy_pairs(v: &Vec<(JsonPointer, Vec<EvidenceEntry>)>) -> (r: Vec<(JsonPointer, Vec<EvidenceEntry>)>)
    ensures
        pairs_view(r@) == pairs_view(v@),
{
    let mut r: Vec<(JsonPointer, Vec<EvidenceEntry>)> = Vec::new();
    let mut i: usize = 0;
    while i < v.len()
        invariant
            i <= v@.len(),
            r@.len() == i,
            forall|k: int|
                0 <= k < i ==> (#[trigger] r@[k]).0@ == v@[k].0@ && entries_view(r@[k].1@) == entries_view(
                    v@[k].1@,
                ),
        decreases v@.len() - i,
    {
        r.push((v[i].0.duplicate(), copy_entries(&v[i].1)));
        i = i + 1;
    }
    proof {
        assert(pairs_view(r@) =~= pairs_view(v@));
    }
    r
}

impl Clone for EvidenceSidecar {
    fn clone(&self) -> (r: EvidenceSidecar)
        ensures
            r.version_spec() == self.version_spec(),
            r.status_spec() == self.status_spec(),
            r.model() == self.model(),
    {
        proof {
            use_type_invariant(self);
        }
        let entries = copy_pairs(&self.entries);
        proof {
            assert(entries@.len() == pairs_view(entries@).len());
            assert(self.entries@.len() == pairs_view(self.entries@).len());
        }
        EvidenceSidecar { version: self.version, status: self.status, entries }
    }
}

/// Adding evidence under a pointer appends it to what that pointer had and
/// leaves every other pointer's entries as they were.
pub proof fn lemma_with_appends(
    m: Seq<(Seq<Seq<char>>, Seq<EntryView>)>,
    pointer: Seq<Seq<char>>,
    entry: EntryView,
    other: Seq<Seq<char>>,
)
    requires
        pointers_sorted(m),
    ensures
        lookup(upsert(m, pointer, appended(m, pointer, entry)), other) == (if other == pointer {
            Some(appended(m, pointer, entry))
        } else {
            lookup(m, other)
        }),
{
    lemma_upsert_lookup(m, pointer, appended(m, pointer, entry), other);
}


// ---------------------------------------------------------------------------
// Policy and check
// ---------------------------------------------------------------------------

pub open spec fn pointers_view(v: Seq<JsonPointer>) -> Seq<Seq<Seq<char>>> {
    v.map_values(|p: JsonPointer| p@)
}

fn copy_pointers(v: &Vec<JsonPointer>) -> (r: Vec<JsonPointer>)
    ensures
        pointers_view(r@) == pointers_view(v@),
{
    let mut r: Vec<JsonPointer> = Vec::new();
    let mut i: usize = 0;
    while i < v.len()
        invariant
            i <= v@.len(),
            r@.len() == i,
            forall|k: int| 0 <= k < i ==> (#[trigger] r@[k])@ == v@[k]@,
        decreases v@.len() - i,
    {
        r.push(v[i].duplicate());
        i = i + 1;
    }
    proof {
        assert(pointers_view(r@) =~= pointers_view(v@));
    }
    r
}

/// Contract-level evidence policy. Required evidence fails closed.
#[derive(Debug, PartialEq, Eq)]
pub enum EvidencePolicy {
    /// No evidence is asked for (`none` in serialized policies).
    NoEvidence,
    Optional(Vec<JsonPointer>),
    Required(Vec<JsonPointer>),
}

impl EvidencePolicy {
    /// The paths the policy names (none for `NoEvidence`).
    pub open spec fn paths_spec(&self) -> Seq<Seq<Seq<char>>> {
        match self {
            EvidencePolicy::NoEvidence => Seq::empty(),
            EvidencePolicy::Optional(paths) => pointers_view(paths@),
            EvidencePolicy::Required(paths) => pointers_view(paths@),
        }
    }

    pub fn none() -> (p: EvidencePolicy)
        ensures
            p is NoEvidence,
    {
        EvidencePolicy::NoEvidence
    }

    pub fn optional(paths: Vec<JsonPointer>) -> (p: EvidencePolicy)
        ensures
            p is Optional,
            p.paths_spec() == pointers_view(paths@),
    {
        EvidencePolicy::Optional(paths)
    }

    pub fn required(paths: Vec<JsonPointer>) -> (p: EvidencePolicy)
        ensures
            p is Required,
            p.paths_spec() == pointers_view(paths@),
    {
        EvidencePolicy::Required(paths)
    }

    pub fn paths(&self) -> (r: &[JsonPointer])
        ensures
            pointers_view(r@) == self.paths_spec(),
    {
        match self {
            EvidencePolicy::NoEvidence => {
                let r: &[JsonPointer] = &[];
                proof {
                    assert(pointers_view(r@) =~= Seq::<Seq<Seq<char>>>::empty());
                }
                r
            },
            EvidencePolicy::Optional(paths) => paths.as_slice(),
            EvidencePolicy::Required(paths) => paths.as_slice(),
        }
    }
}

impl Clone for EvidencePolicy {
    fn clone(&self) -> (r: EvidencePolicy)
        ensures
            r.paths_spec() == self.paths_spec(),
            (r is NoEvidence) == (self is NoEvidence),
            (r is Optional) == (self is Optional),
            (r is Required) == (self is Required),
    {
        match self {
            EvidencePolicy::NoEvidence => EvidencePolicy::NoEvidence,
            EvidencePolicy::Optional(paths) => EvidencePolicy::Optional(copy_pointers(paths)),
            EvidencePolicy::Required(paths) => EvidencePolicy::Required(copy_pointers(paths)),
        }
    }
}

#[derive(Debug, Clone, Copy, PartialEq, Eq, Structural)]
pub enum EvidenceCheckStatus {
    NotRequested,
    Satisfied,
    MissingOptional,
    MissingRequired,
    Unavailable,
    InferredOnly,
    DataMissing,
}

impl EvidenceCheckStatus {
    pub open spec fn is_fail_closed_spec(self) -> bool {
        self == EvidenceCheckStatus::MissingRequired || self == EvidenceCheckStatus::Unavailable
            || self == EvidenceCheckStatus::InferredOnly || self == EvidenceCheckStatus::DataMissing
    }

    /// A status that blocks acceptance.
    pub fn is_fail_closed(self) -> (r: bool)
        ensures
            r == self.is_fail_closed_spec(),
    {
        matches!(
            self,
            EvidenceCheckStatus::MissingRequired | EvidenceCheckStatus::Unavailable
                | EvidenceCheckStatus::InferredOnly | EvidenceCheckStatus::DataMissing
        )
    }
}

/// The outcome of the evidence check for one pointer.
#[derive(Debug, PartialEq, Eq)]
pub struct EvidencePathStatus {
    pointer: JsonPointer,
    status: EvidenceCheckStatus,
}

impl View for EvidencePathStatus {
    type V = (Seq<Seq<char>>, EvidenceCheckStatus);

    closed spec fn view(&self) -> (Seq<Seq<char>>, EvidenceCheckStatus) {
        (self.pointer@, self.status)
    }
}

impl EvidencePathStatus {
    pub fn pointer(&self) -> (p: &JsonPointer)
        ensures
            p@ == self@.0,
    {
        &self.pointer
    }

    pub fn status(&self) -> (st: EvidenceCheckStatus)
        ensures
            st == self@.1,
    {
        self.status
    }
}

impl Clone for EvidencePathStatus {
    fn clone(&self) -> (r: EvidencePathStatus)
        ensures
            r@ == self@,
    {
        EvidencePathStatus { pointer: self.pointer.duplicate(), status: self.status }
    }
}

pub open spec fn statuses_view(v: Seq<EvidencePathStatus>) -> Seq<(Seq<Seq<char>>, EvidenceCheckStatus)> {
    v.map_values(|s: EvidencePathStatus| s@)
}

/// No status in `statuses` fails closed.
pub open spec fn all_pass(statuses: Seq<(Seq<Seq<char>>, EvidenceCheckStatus)>) -> bool {
    forall|i: int| 0 <= i < statuses.len() ==> !(#[trigger] statuses[i]).1.is_fail_closed_spec()
}

/// Per-pointer evidence statuses, in the policy's order.
#[derive(Debug, PartialEq, Eq)]
pub struct EvidenceReport {
    statuses: Vec<EvidencePathStatus>,
}

impl View for EvidenceReport {
    type V = Seq<(Seq<Seq<char>>, EvidenceCheckStatus)>;

    closed spec fn view(&self) -> Seq<(Seq<Seq<char>>, EvidenceCheckStatus)> {
        statuses_view(self.statuses@)
    }
}

impl Clone for EvidenceReport {
    fn clone(&self) -> (r: EvidenceReport)
        ensures
            r@ == self@,
    {
        let mut statuses: Vec<EvidencePathStatus> = Vec::new();
        let mut i: usize = 0;
        while i < self.statuses.len()
            invariant
                i <= self.statuses@.len(),
                statuses@.len() == i,
                forall|k: int| 0 <= k < i ==> (#[trigger] statuses@[k])@ == self.statuses@[k]@,
            decreases self.statuses@.len() - i,
        {
            statuses.push(self.statuses[i].clone());
            i = i + 1;
        }
        proof {
            assert(statuses_view(statuses@) =~= statuses_view(self.statuses@));
        }
        EvidenceReport { statuses }
    }
}

impl EvidenceReport {
    pub fn statuses(&self) -> (r: &[EvidencePathStatus])
        ensures
            statuses_view(r@) == self@,
    {
        self.statuses.as_slice()
    }

    /// No pointer's status fails closed.
    pub fn is_satisfied(&self) -> (r: bool)
        ensures
            r == all_pass(self@),
    {
        let ghost v = self@;
        let mut i: usize = 0;
        while i < self.statuses.len()
            invariant
                i <= self.statuses@.len(),
                v == statuses_view(self.statuses@),
                forall|k: int| 0 <= k < i ==> !(#[trigger] v[k]).1.is_fail_closed_spec(),
            decreases self.statuses@.len() - i,
        {
            if self.statuses[i].status.is_fail_closed() {
                proof {
                    assert(v[i as int].1.is_fail_closed_spec());
                }
                return false;
            }
            i = i + 1;
        }
        true
    }
}

/// The pointer finds a value in `data`, and it is not `null`.
pub open spec fn path_present_spec(data: Json, pointer: Seq<Seq<char>>) -> bool {
    match path_get(data, pointer) {
        Ok(Some(v)) => v != Json::Null,
        _ => false,
    }
}

/// Some entry can back a required path.
pub open spec fn has_supporting(entries: Seq<EntryView>) -> bool {
    exists|i: int| 0 <= i < entries.len() && supports_required((#[trigger] entries[i]).0)
}

/// The evidence status of one pointer. An unavailable or unrequested sidecar
/// decides alone; then the data must be present at the pointer; then a
/// required path needs an exact or normalized citation, while any citation
/// satisfies an optional one.
pub open spec fn path_status_spec(
    pointer: Seq<Seq<char>>,
    data: Json,
    status: EvidenceSidecarStatus,
    m: Seq<(Seq<Seq<char>>, Seq<EntryView>)>,
    required: bool,
) -> EvidenceCheckStatus {
    if status == EvidenceSidecarStatus::Unavailable {
        if required {
            EvidenceCheckStatus::Unavailable
        } else {
            EvidenceCheckStatus::MissingOptional
        }
    } else if status == EvidenceSidecarStatus::NotRequested {
        if required {
            EvidenceCheckStatus::MissingRequired
        } else {
            EvidenceCheckStatus::NotRequested
        }
    } else if !path_present_spec(data, pointer) {
        if required {
            EvidenceCheckStatus::DataMissing
        } else {
            EvidenceCheckStatus::MissingOptional
        }
    } else {
        match lookup(m, pointer) {
            Some(es) => if has_supporting(es) {
                EvidenceCheckStatus::Satisfied
            } else if es.len() > 0 {
                if required {
                    EvidenceCheckStatus::InferredOnly
                } else {
                    EvidenceCheckStatus::Satisfied
                }
            } else if required {
                EvidenceCheckStatus::MissingRequired
            } else {
                EvidenceCheckStatus::MissingOptional
            },
            None => if required {
                EvidenceCheckStatus::MissingRequired
            } else {
                EvidenceCheckStatus::MissingOptional
            },
        }
    }
}

/// The report `check_policy` gives.
pub open spec fn check_policy_spec(
    data: Json,
    status: EvidenceSidecarStatus,
    m: Seq<(Seq<Seq<char>>, Seq<EntryView>)>,
    policy: EvidencePolicy,
) -> Seq<(Seq<Seq<char>>, EvidenceCheckStatus)> {
    match policy {
        EvidencePolicy::NoEvidence => Seq::empty(),
        EvidencePolicy::Optional(_) => {
            let paths = policy.paths_spec();
            Seq::new(paths.len(), |i: int| (paths[i], path_status_spec(paths[i], data, status, m, false)))
        },
        EvidencePolicy::Required(_) => {
            let paths = policy.paths_spec();
            if status == EvidenceSidecarStatus::Unavailable {
                seq![(Seq::<Seq<char>>::empty(), EvidenceCheckStatus::Unavailable)]
            } else {
                Seq::new(paths.len(), |i: int| (paths[i], path_status_spec(paths[i], data, status, m, true)))
            }
        },
    }
}

fn path_present(data: &JsonValue, pointer: &JsonPointer) -> (r: bool)
    ensures
        r == path_present_spec(data@, pointer@),
{
    match pointer.get(data) {
        Ok(Some(v)) => !v.is_null(),
        _ => false,
    }
}

fn any_supporting(entries: &[EvidenceEntry]) -> (r: bool)
    ensures
        r == has_supporting(entries_view(entries@)),
{
    let ghost ev = entries_view(entries@);
    let mut i: usize = 0;
    while i < entries.len()
        invariant
            i <= entries@.len(),
            ev == entries_view(entries@),
            forall|k: int| 0 <= k < i ==> !supports_required((#[trigger] ev[k]).0),
        decreases entries@.len() - i,
    {
        if entries[i].supports_required_path() {
            proof {
                assert(supports_required(ev[i as int].0));
            }
            return true;
        }
        i = i + 1;
    }
    false
}

fn path_status(pointer: &JsonPointer, data: &JsonValue, sidecar: &EvidenceSidecar, required: bool) -> (r:
    EvidenceCheckStatus)
    ensures
        r == path_status_spec(pointer@, data@, sidecar.status_spec(), sidecar.model(), required),
{
    if sidecar.status == EvidenceSidecarStatus::Unavailable {
        return if required {
            EvidenceCheckStatus::Unavailable
        } else {
            EvidenceCheckStatus::MissingOptional
        };
    }
    if sidecar.status == EvidenceSidecarStatus::NotRequested {
        return if required {
            EvidenceCheckStatus::MissingRequired
        } else {
            EvidenceCheckStatus::NotRequested
        };
    }
    if !path_present(data, pointer) {
        return if required {
            EvidenceCheckStatus::DataMissing
        } else {
            EvidenceCheckStatus::MissingOptional
        };
    }
    match sidecar.get(pointer) {
        Some(entries) => {
            if any_supporting(entries) {
                EvidenceCheckStatus::Satisfied
            } else if entries.len() > 0 {
                if required {
                    EvidenceCheckStatus::InferredOnly
                } else {
                    EvidenceCheckStatus::Satisfied
                }
            } else if required {
                EvidenceCheckStatus::MissingRequired
            } else {
                EvidenceCheckStatus::MissingOptional
            }
        },
        None => {
            if required {
                EvidenceCheckStatus::MissingRequired
            } else {
                EvidenceCheckStatus::MissingOptional
            }
        },
    }
}

fn statuses_for(paths: &Vec<JsonPointer>, data: &JsonValue, sidecar: &EvidenceSidecar, required: bool) -> (r:
    Vec<EvidencePathStatus>)
    ensures
        statuses_view(r@) == Seq::new(
            paths@.len(),
            |i: int|
                (
                    pointers_view(paths@)[i],
                    path_status_spec(
                        pointers_view(paths@)[i],
                        data@,
                        sidecar.status_spec(),
                        sidecar.model(),
                        required,
                    ),
                ),
        ),
{
    let ghost ps = pointers_view(paths@);
    let mut out: Vec<EvidencePathStatus> = Vec::new();
    let mut i: usize = 0;
    while i < paths.len()
        invariant
            i <= paths@.len(),
            out@.len() == i,
            ps == pointers_view(paths@),
            forall|k: int|
                0 <= k < i ==> #[trigger] out@[k]@ == (
                    ps[k],
                    path_status_spec(ps[k], data@, sidecar.status_spec(), sidecar.model(), required),
                ),
        decreases paths@.len() - i,
    {
        let status = path_status(&paths[i], data, sidecar, required);
        out.push(EvidencePathStatus { pointer: paths[i].duplicate(), status });
        i = i + 1;
    }
    proof {
        assert(statuses_view(out@) =~= Seq::new(
            paths@.len(),
            |i: int|
                (
                    ps[i],
                    path_status_spec(ps[i], data@, sidecar.status_spec(), sidecar.model(), required),
                ),
        ));
    }
    out
}

/// Checks `data` and its evidence `sidecar` against `policy`.
pub fn check_policy(data: &JsonValue, sidecar: &EvidenceSidecar, policy: &EvidencePolicy) -> (r: EvidenceReport)
    ensures
        r@ == check_policy_spec(data@, sidecar.status_spec(), sidecar.model(), *policy),
{
    let statuses = match policy {
        EvidencePolicy::NoEvidence => Vec::new(),
        EvidencePolicy::Optional(paths) => statuses_for(paths, data, sidecar, false),
        EvidencePolicy::Required(paths) => {
            if sidecar.status == EvidenceSidecarStatus::Unavailable {
                let mut v: Vec<EvidencePathStatus> = Vec::new();
                v.push(EvidencePathStatus { pointer: JsonPointer::root(), status: EvidenceCheckStatus::Unavailable });
                proof {
                    assert(statuses_view(v@) =~= seq![(Seq::<Seq<char>>::empty(), EvidenceCheckStatus::Unavailable)]);
                }
                return EvidenceReport { statuses: v };
            }
            statuses_for(paths, data, sidecar, true)
        },
    };
    proof {
        if policy is NoEvidence {
            assert(statuses_view(statuses@) =~= Seq::<(Seq<Seq<char>>, EvidenceCheckStatus)>::empty());
        }
    }
    EvidenceReport { statuses }
}

/// Required evidence fails closed: under a required policy the report is
/// satisfied exactly when the sidecar was produced (or, when the policy names
/// no path, was not requested) and every required path holds a non-null value
/// backed by an exact or normalized citation.
pub proof fn lemma_required_fails_closed(
    data: Json,
    status: EvidenceSidecarStatus,
    m: Seq<(Seq<Seq<char>>, Seq<EntryView>)>,
    paths: Vec<JsonPointer>,
)
    ensures
        ({
            let ps = pointers_view(paths@);
            all_pass(check_policy_spec(data, status, m, EvidencePolicy::Required(paths))) <==> (
            (status == EvidenceSidecarStatus::Complete || status == EvidenceSidecarStatus::Partial)
                || (ps.len() == 0 && status == EvidenceSidecarStatus::NotRequested)) && forall|i: int|
                0 <= i < ps.len() ==> path_present_spec(data, #[trigger] ps[i]) && (lookup(m, ps[i]) matches Some(es)
                    && has_supporting(es))
        }),
{
    let ps = pointers_view(paths@);
    let policy = EvidencePolicy::Required(paths);
    let r = check_policy_spec(data, status, m, policy);
    if status == EvidenceSidecarStatus::Unavailable {
        assert(!r[0].1.is_fail_closed_spec() == false);
    } else if all_pass(r) {
        assert forall|i: int| 0 <= i < ps.len() implies path_present_spec(data, #[trigger] ps[i]) && (lookup(
            m,
            ps[i],
        ) matches Some(es) && has_supporting(es)) by {
            assert(!r[i].1.is_fail_closed_spec());
        }
        if ps.len() > 0 {
            assert(!r[0].1.is_fail_closed_spec());
        }
    } else {
        let k = choose|k: int| 0 <= k < r.len() && (#[trigger] r[k]).1.is_fail_closed_spec();
        assert(r[k].1.is_fail_closed_spec());
    }
}

/// An optional policy never blocks acceptance, and no policy blocks nothing.
pub proof fn lemma_optional_never_fails_closed(
    data: Json,
    status: EvidenceSidecarStatus,
    m: Seq<(Seq<Seq<char>>, Seq<EntryView>)>,
    paths: Vec<JsonPointer>,
)
    ensures
        all_pass(check_policy_spec(data, status, m, EvidencePolicy::Optional(paths))),
        all_pass(check_policy_spec(data, status, m, EvidencePolicy::NoEvidence)),
{
}

/// Under an optional policy, on a produced (complete or partial) sidecar,
/// every path is reported `Satisfied` exactly when it holds a non-null value
/// and the sidecar cites it at least once, whatever the kind of citation;
/// otherwise it is `MissingOptional`. The report names the policy's paths in
/// order.
pub proof fn lemma_optional_any_citation_satisfies(
    data: Json,
    status: EvidenceSidecarStatus,
    m: Seq<(Seq<Seq<char>>, Seq<EntryView>)>,
    paths: Vec<JsonPointer>,
)
    requires
        status == EvidenceSidecarStatus::Complete || status == EvidenceSidecarStatus::Partial,
    ensures
        ({
            let ps = pointers_view(paths@);
            let r = check_policy_spec(data, status, m, EvidencePolicy::Optional(paths));
            &&& r.len() == ps.len()
            &&& forall|i: int|
                0 <= i < ps.len() ==> #[trigger] r[i] == (
                    ps[i],
                    if path_present_spec(data, ps[i]) && (lookup(m, ps[i]) matches Some(es) && es.len() > 0) {
                        EvidenceCheckStatus::Satisfied
                    } else {
                        EvidenceCheckStatus::MissingOptional
                    },
                )
        }),
{
    let ps = pointers_view(paths@);
    let r = check_policy_spec(data, status, m, EvidencePolicy::Optional(paths));
    assert forall|i: int| 0 <= i < ps.len() implies #[trigger] r[i] == (
        ps[i],
        if path_present_spec(data, ps[i]) && (lookup(m, ps[i]) matches Some(es) && es.len() > 0) {
            EvidenceCheckStatus::Satisfied
        } else {
            EvidenceCheckStatus::MissingOptional
        },
    ) by {
        match lookup(m, ps[i]) {
            Some(es) => {
                if has_supporting(es) {
                    let k = choose|k: int| 0 <= k < es.len() && supports_required((#[trigger] es[k]).0);
                    assert(es.len() > 0);
                }
            },
            None => {},
        }
    }
}

/// Under a required policy, on a produced sidecar, a path holding a non-null
/// value is `Satisfied` exactly when some citation of it is exact or
/// normalized, `InferredOnly` when it is cited only otherwise, and
/// `MissingRequired` when it is not cited; a path without a value is
/// `DataMissing`.
pub proof fn lemma_required_path_statuses(
    pointer: Seq<Seq<char>>,
    data: Json,
    status: EvidenceSidecarStatus,
    m: Seq<(Seq<Seq<char>>, Seq<EntryView>)>,
)
    requires
        status == EvidenceSidecarStatus::Complete || status == EvidenceSidecarStatus::Partial,
    ensures
        path_status_spec(pointer, data, status, m, true) == if !path_present_spec(data, pointer) {
            EvidenceCheckStatus::DataMissing
        } else {
            match lookup(m, pointer) {
                Some(es) => if exists|k: int| 0 <= k < es.len() && ((#[trigger] es[k]).0 == EvidenceKind::Exact
                    || es[k].0 == EvidenceKind::Normalized) {
                    EvidenceCheckStatus::Satisfied
                } else if es.len() > 0 {
                    EvidenceCheckStatus::InferredOnly
                } else {
                    EvidenceCheckStatus::MissingRequired
                },
                None => EvidenceCheckStatus::MissingRequired,
            }
        },
{
    match lookup(m, pointer) {
        Some(es) => {
            if has_supporting(es) {
                let k = choose|k: int| 0 <= k < es.len() && supports_required((#[trigger] es[k]).0);
                assert(es[k].0 == EvidenceKind::Exact || es[k].0 == EvidenceKind::Normalized);
            }
            if exists|k: int| 0 <= k < es.len() && ((#[trigger] es[k]).0 == EvidenceKind::Exact
                || es[k].0 == EvidenceKind::Normalized) {
                let k = choose|k: int| 0 <= k < es.len() && ((#[trigger] es[k]).0 == EvidenceKind::Exact
                    || es[k].0 == EvidenceKind::Normalized);
                assert(supports_required(es[k].0));
            }
        },
        None => {},
    }
}

} // verus!
