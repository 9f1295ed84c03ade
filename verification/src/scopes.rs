//! Typed authorization scopes and the scope set of a principal.

use vstd::prelude::*;

use crate::error::AppError;
use crate::text::{chars_eq_str, chars_of};

verus! {

/// `documents:read` — list or fetch documents in the caller's workspace.
pub const DOCUMENTS_READ: &'static str = "documents:read";

/// `documents:write` — upload, confirm, or delete documents.
pub const DOCUMENTS_WRITE: &'static str = "documents:write";

/// `templates:read` — list or fetch extraction templates.
pub const TEMPLATES_READ: &'static str = "templates:read";

/// `templates:write` — create, update, or delete templates.
pub const TEMPLATES_WRITE: &'static str = "templates:write";

/// `extractions:create` — start a synchronous or inline extraction.
pub const EXTRACTIONS_CREATE: &'static str = "extractions:create";

/// `extractions:read` — list or fetch extractions.
pub const EXTRACTIONS_READ: &'static str = "extractions:read";

/// `batches:create` — enqueue a batch extraction job.
pub const BATCHES_CREATE: &'static str = "batches:create";

/// `batches:read` — list or fetch batches and their child extractions.
pub const BATCHES_READ: &'static str = "batches:read";

/// Typed authorization scope. Unknown strings are not representable.
#[derive(Debug, Clone, Copy, PartialEq, Eq, Structural, PartialOrd, Ord, Hash)]
pub enum Scope {
    DocumentsRead,
    DocumentsWrite,
    TemplatesRead,
    TemplatesWrite,
    ExtractionsCreate,
    ExtractionsRead,
    BatchesCreate,
    BatchesRead,
}

/// The position of a scope in declaration order (its `Ord`).
pub open spec fn rank(s: Scope) -> int {
    match s {
        Scope::DocumentsRead => 0,
        Scope::DocumentsWrite => 1,
        Scope::TemplatesRead => 2,
        Scope::TemplatesWrite => 3,
        Scope::ExtractionsCreate => 4,
        Scope::ExtractionsRead => 5,
        Scope::BatchesCreate => 6,
        Scope::BatchesRead => 7,
    }
}

/// The scope's stored text.
pub open spec fn scope_text(s: Scope) -> Seq<char> {
    match s {
        Scope::DocumentsRead => "documents:read"@,
        Scope::DocumentsWrite => "documents:write"@,
        Scope::TemplatesRead => "templates:read"@,
        Scope::TemplatesWrite => "templates:write"@,
        Scope::ExtractionsCreate => "extractions:create"@,
        Scope::ExtractionsRead => "extractions:read"@,
        Scope::BatchesCreate => "batches:create"@,
        Scope::BatchesRead => "batches:read"@,
    }
}

fn scope_rank(s: Scope) -> (r: u8)
    ensures
        r == rank(s),
{
    match s {
        Scope::DocumentsRead => 0,
        Scope::DocumentsWrite => 1,
        Scope::TemplatesRead => 2,
        Scope::TemplatesWrite => 3,
        Scope::ExtractionsCreate => 4,
        Scope::ExtractionsRead => 5,
        Scope::BatchesCreate => 6,
        Scope::BatchesRead => 7,
    }
}

/// Every scope, in declaration order.
pub open spec fn all_scopes_spec() -> Seq<Scope> {
    seq![
        Scope::DocumentsRead,
        Scope::DocumentsWrite,
        Scope::TemplatesRead,
        Scope::TemplatesWrite,
        Scope::ExtractionsCreate,
        Scope::ExtractionsRead,
        Scope::BatchesCreate,
        Scope::BatchesRead,
    ]
}

impl Scope {
    /// All scopes granted to the local operator principal.
    pub fn all() -> (r: [Scope; 8])
        ensures
            r@ == all_scopes_spec(),
    {
        let r = [
            Scope::DocumentsRead,
            Scope::DocumentsWrite,
            Scope::TemplatesRead,
            Scope::TemplatesWrite,
            Scope::ExtractionsCreate,
            Scope::ExtractionsRead,
            Scope::BatchesCreate,
            Scope::BatchesRead,
        ];
        proof {
            assert(r@ =~= all_scopes_spec());
        }
        r
    }

    pub fn as_str(self) -> (s: &'static str)
        ensures
            s@ == scope_text(self),
    {
        proof {
            reveal_strlit("documents:read");
            reveal_strlit("documents:write");
            reveal_strlit("templates:read");
            reveal_strlit("templates:write");
            reveal_strlit("extractions:create");
            reveal_strlit("extractions:read");
            reveal_strlit("batches:create");
            reveal_strlit("batches:read");
        }
        match self {
            Scope::DocumentsRead => DOCUMENTS_READ,
            Scope::DocumentsWrite => DOCUMENTS_WRITE,
            Scope::TemplatesRead => TEMPLATES_READ,
            Scope::TemplatesWrite => TEMPLATES_WRITE,
            Scope::ExtractionsCreate => EXTRACTIONS_CREATE,
            Scope::ExtractionsRead => EXTRACTIONS_READ,
            Scope::BatchesCreate => BATCHES_CREATE,
            Scope::BatchesRead => BATCHES_READ,
        }
    }

    /// The scope whose text is `value`; unknown text is `None`.
    pub fn parse(value: &str) -> (r: Option<Scope>)
        ensures
            match r {
                Some(s) => scope_text(s) == value@,
                None => forall|s: Scope| scope_text(s) != value@,
            },
    {
        proof {
            reveal_strlit("documents:read");
            reveal_strlit("documents:write");
            reveal_strlit("templates:read");
            reveal_strlit("templates:write");
            reveal_strlit("extractions:create");
            reveal_strlit("extractions:read");
            reveal_strlit("batches:create");
            reveal_strlit("batches:read");
        }
        let v = chars_of(value);
        let v = v.as_slice();
        if chars_eq_str(v, DOCUMENTS_READ) {
            Some(Scope::DocumentsRead)
        } else if chars_eq_str(v, DOCUMENTS_WRITE) {
            Some(Scope::DocumentsWrite)
        } else if chars_eq_str(v, TEMPLATES_READ) {
            Some(Scope::TemplatesRead)
        } else if chars_eq_str(v, TEMPLATES_WRITE) {
            Some(Scope::TemplatesWrite)
        } else if chars_eq_str(v, EXTRACTIONS_CREATE) {
            Some(Scope::ExtractionsCreate)
        } else if chars_eq_str(v, EXTRACTIONS_READ) {
            Some(Scope::ExtractionsRead)
        } else if chars_eq_str(v, BATCHES_CREATE) {
            Some(Scope::BatchesCreate)
        } else if chars_eq_str(v, BATCHES_READ) {
            Some(Scope::BatchesRead)
        } else {
            None
        }
    }
}

/// Parsing a scope's text gives the scope back.
pub proof fn lemma_scope_text_round_trip(s: Scope, t: Scope)
    ensures
        scope_text(s) == scope_text(t) ==> s == t,
{
    reveal_strlit("documents:read");
    reveal_strlit("documents:write");
    reveal_strlit("templates:read");
    reveal_strlit("templates:write");
    reveal_strlit("extractions:create");
    reveal_strlit("extractions:read");
    reveal_strlit("batches:create");
    reveal_strlit("batches:read");
    if scope_text(s) == scope_text(t) && s != t {
        let a = scope_text(s);
        let b = scope_text(t);
        assert(a.len() != b.len() || a[0] != b[0] || a[1] != b[1] || a[2] != b[2] || a[3] != b[3]
            || a[4] != b[4] || a[5] != b[5] || a[6] != b[6] || a[7] != b[7] || a[8] != b[8]
            || a[9] != b[9] || a[10] != b[10] || a[11] != b[11] || a[12] != b[12]);
    }
}

/// Scopes strictly increasing in declaration order.
pub open spec fn ascending(s: Seq<Scope>) -> bool {
    forall|i: int, j: int| 0 <= i < j < s.len() ==> rank(#[trigger] s[i]) < rank(#[trigger] s[j])
}

/// A scope list kept in declaration order without repeats is fixed by
/// which scopes it holds: two such lists with the same members are the same
/// list.
pub proof fn lemma_scopes_determined(a: Seq<Scope>, b: Seq<Scope>)
    requires
        ascending(a),
        ascending(b),
        forall|x: Scope| #![trigger a.contains(x)] #![trigger b.contains(x)] a.contains(x) <==> b.contains(
            x,
        ),
    ensures
        a == b,
    decreases a.len() + b.len(),
{
    if a.len() == 0 || b.len() == 0 {
        if a.len() > 0 {
            assert(a.contains(a[0]));
            assert(b.contains(a[0]));
        }
        if b.len() > 0 {
            assert(b.contains(b[0]));
            assert(a.contains(b[0]));
        }
        assert(a =~= b);
    } else {
        assert(a.contains(a[0]));
        assert(b.contains(b[0]));
        assert(b.contains(a[0]));
        assert(a.contains(b[0]));
        let j = choose|j: int| 0 <= j < b.len() && b[j] == a[0];
        let k = choose|k: int| 0 <= k < a.len() && a[k] == b[0];
        if j > 0 {
            assert(rank(b[0]) < rank(b[j]));
            if k > 0 {
                assert(rank(a[0]) < rank(a[k]));
            }
        }
        assert(a[0] == b[0]);
        let ta = a.drop_first();
        let tb = b.drop_first();
        assert forall|i: int, l: int| 0 <= i < l < ta.len() implies rank(#[trigger] ta[i]) < rank(
            #[trigger] ta[l],
        ) by {
            assert(ta[i] == a[i + 1] && ta[l] == a[l + 1]);
        }
        assert forall|i: int, l: int| 0 <= i < l < tb.len() implies rank(#[trigger] tb[i]) < rank(
            #[trigger] tb[l],
        ) by {
            assert(tb[i] == b[i + 1] && tb[l] == b[l + 1]);
        }
        assert forall|x: Scope| #[trigger] ta.contains(x) <==> tb.contains(x) by {
            if ta.contains(x) {
                let i = choose|i: int| 0 <= i < ta.len() && ta[i] == x;
                assert(a[i + 1] == x);
                assert(rank(a[0]) < rank(a[i + 1]));
                assert(a.contains(x));
                assert(b.contains(x));
                let m = choose|m: int| 0 <= m < b.len() && b[m] == x;
                if m == 0 {
                    assert(false);
                }
                assert(tb[m - 1] == x);
            }
            if tb.contains(x) {
                let i = choose|i: int| 0 <= i < tb.len() && tb[i] == x;
                assert(b[i + 1] == x);
                assert(rank(b[0]) < rank(b[i + 1]));
                assert(b.contains(x));
                assert(a.contains(x));
                let m = choose|m: int| 0 <= m < a.len() && a[m] == x;
                if m == 0 {
                    assert(false);
                }
                assert(ta[m - 1] == x);
            }
        }
        lemma_scopes_determined(ta, tb);
        assert(a =~= seq![a[0]] + ta);
        assert(b =~= seq![b[0]] + tb);
    }
}

/// Reading back the texts of a scope set (as `as_strings` writes them, and
/// as `ScopeSet::parse` reads them) gives the same set.
pub proof fn lemma_parse_as_strings(set: Seq<Scope>, texts: Seq<Seq<char>>, parsed: Seq<Scope>)
    requires
        ascending(set),
        ascending(parsed),
        texts.len() == set.len(),
        forall|i: int| 0 <= i < texts.len() ==> #[trigger] texts[i] == scope_text(set[i]),
        forall|x: Scope| parsed.contains(x) <==> exists|i: int|
            0 <= i < texts.len() && scope_text(x) == #[trigger] texts[i],
    ensures
        parsed == set,
{
    assert forall|x: Scope| #![trigger parsed.contains(x)] #![trigger set.contains(x)] parsed.contains(x)
        <==> set.contains(x) by {
        if parsed.contains(x) {
            let i = choose|i: int| 0 <= i < texts.len() && scope_text(x) == #[trigger] texts[i];
            lemma_scope_text_round_trip(x, set[i]);
            assert(set[i] == x);
        }
        if set.contains(x) {
            let i = choose|i: int| 0 <= i < set.len() && set[i] == x;
            assert(scope_text(x) == texts[i]);
        }
    }
    lemma_scopes_determined(parsed, set);
}

/// The ordered set of scopes attached to a principal in a workspace.
#[derive(Debug, PartialEq, Eq)]
pub struct ScopeSet {
    inner: Vec<Scope>,
}

impl View for ScopeSet {
    type V = Seq<Scope>;

    closed spec fn view(&self) -> Seq<Scope> {
        self.inner@
    }
}

impl ScopeSet {
    #[verifier::type_invariant]
    spec fn well_formed(&self) -> bool {
        ascending(self.inner@)
    }

    /// The scopes are kept in declaration order, each once.
    pub fn ascending_view(&self)
        ensures
            ascending(self@),
    {
        proof {
            use_type_invariant(self);
        }
    }

    pub fn new() -> (s: ScopeSet)
        ensures
            s@.len() == 0,
    {
        ScopeSet { inner: Vec::new() }
    }

    /// `scope` added, keeping declaration order.
    fn insert(&mut self, scope: Scope)
        ensures
            forall|x: Scope| #[trigger] final(self)@.contains(x) <==> (old(self)@.contains(x) || x == scope),
    {
        proof {
            use_type_invariant(&*self);
        }
        let ghost before = self.inner@;
        let mut inner: Vec<Scope> = Vec::new();
        std::mem::swap(&mut inner, &mut self.inner);
        proof {
            assert(inner@ == before);
        }
        let mut i: usize = 0;
        while i < inner.len() && scope_rank(inner[i]) < scope_rank(scope)
            invariant
                i <= inner@.len(),
                inner@ == before,
                ascending(before),
                forall|k: int| 0 <= k < i ==> rank(#[trigger] inner@[k]) < rank(scope),
            decreases inner@.len() - i,
        {
            i = i + 1;
        }
        if i < inner.len() && inner[i] == scope {
            proof {
                assert(before[i as int] == scope);
            }
            self.inner = inner;
        } else {
            inner.insert(i, scope);
            proof {
                assert forall|a: int, b: int| 0 <= a < b < inner@.len() implies rank(
                    #[trigger] inner@[a],
                ) < rank(#[trigger] inner@[b]) by {
                    if b < i {
                        assert(inner@[a] == before[a] && inner@[b] == before[b]);
                    } else if b == i {
                        assert(inner@[a] == before[a]);
                    } else if a < i {
                        assert(inner@[a] == before[a] && inner@[b] == before[b - 1]);
                        assert(rank(before[i as int]) >= rank(scope));
                        assert(rank(before[i as int]) != rank(scope));
                    } else if a == i {
                        assert(inner@[b] == before[b - 1]);
                        assert(rank(before[i as int]) != rank(scope));
                    } else {
                        assert(inner@[a] == before[a - 1] && inner@[b] == before[b - 1]);
                    }
                }
                assert forall|x: Scope| #[trigger] inner@.contains(x) <==> (before.contains(x) || x == scope) by {
                    if inner@.contains(x) {
                        let k = choose|k: int| 0 <= k < inner@.len() && inner@[k] == x;
                        if k < i {
                            assert(before[k] == x);
                        } else if k > i {
                            assert(before[k - 1] == x);
                        }
                    }
                    if before.contains(x) {
                        let k = choose|k: int| 0 <= k < before.len() && before[k] == x;
                        if k < i {
                            assert(inner@[k] == x);
                        } else {
                            assert(inner@[k + 1] == x);
                        }
                    }
                    if x == scope {
                        assert(inner@[i as int] == x);
                    }
                }
            }
            self.inner = inner;
        }
    }

    /// A set holding exactly `scopes`.
    pub fn from_scopes(scopes: &[Scope]) -> (s: ScopeSet)
        ensures
            forall|x: Scope| s@.contains(x) <==> scopes@.contains(x),
    {
        let mut s = ScopeSet::new();
        let mut i: usize = 0;
        while i < scopes.len()
            invariant
                i <= scopes@.len(),
                forall|x: Scope| s@.contains(x) <==> (exists|k: int| 0 <= k < i && #[trigger] scopes@[k] == x),
            decreases scopes@.len() - i,
        {
            let ghost before = s@;
            s.insert(scopes[i]);
            proof {
                assert forall|x: Scope| s@.contains(x) <==> (exists|k: int| 0 <= k < i + 1 && #[trigger] scopes@[k] == x) by {
                    if x == scopes@[i as int] {
                        assert(scopes@[i as int] == x);
                    }
                    if exists|k: int| 0 <= k < i + 1 && #[trigger] scopes@[k] == x {
                        let k = choose|k: int| 0 <= k < i + 1 && #[trigger] scopes@[k] == x;
                        if k < i {
                            assert(before.contains(x));
                        }
                    }
                }
            }
            i = i + 1;
        }
        proof {
            assert forall|x: Scope| s@.contains(x) <==> scopes@.contains(x) by {
                if scopes@.contains(x) {
                    let k = choose|k: int| 0 <= k < scopes@.len() && #[trigger] scopes@[k] == x;
                    assert(scopes@[k] == x);
                }
            }
        }
        s
    }

    /// Every scope.
    pub fn all() -> (s: ScopeSet)
        ensures
            forall|x: Scope| #[trigger] s@.contains(x),
    {
        let a = Scope::all();
        let s = ScopeSet::from_scopes(&a);
        proof {
            assert forall|x: Scope| #[trigger] s@.contains(x) by {
                assert(a@[rank(x)] == x);
            }
        }
        s
    }

    /// The scopes whose stored text is among `items`; unknown text is
    /// ignored, so newer scopes do not break older readers.
    pub fn parse(items: &[&str]) -> (s: ScopeSet)
        ensures
            forall|x: Scope| s@.contains(x) <==> exists|i: int|
                0 <= i < items@.len() && scope_text(x) == (#[trigger] items@[i])@,
    {
        let mut known: Vec<Scope> = Vec::new();
        let mut i: usize = 0;
        while i < items.len()
            invariant
                i <= items@.len(),
                forall|x: Scope| known@.contains(x) <==> exists|k: int|
                    0 <= k < i && scope_text(x) == (#[trigger] items@[k])@,
            decreases items@.len() - i,
        {
            let ghost before = known@;
            match Scope::parse(items[i]) {
                Some(sc) => {
                    known.push(sc);
                    proof {
                        assert forall|x: Scope| known@.contains(x) <==> exists|k: int|
                            0 <= k < i + 1 && scope_text(x) == (#[trigger] items@[k])@ by {
                            if known@.contains(x) {
                                let j = choose|j: int| 0 <= j < known@.len() && known@[j] == x;
                                if j < before.len() {
                                    assert(before[j] == x);
                                    assert(before.contains(x));
                                } else {
                                    assert(scope_text(x) == items@[i as int]@);
                                }
                            }
                            if exists|k: int| 0 <= k < i + 1 && scope_text(x) == (#[trigger] items@[k])@ {
                                let k = choose|k: int| 0 <= k < i + 1 && scope_text(x) == (#[trigger] items@[k])@;
                                if k == i {
                                    lemma_scope_text_round_trip(x, sc);
                                    assert(known@[before.len() as int] == x);
                                } else {
                                    assert(before.contains(x));
                                    let j = choose|j: int| 0 <= j < before.len() && before[j] == x;
                                    assert(known@[j] == x);
                                }
                            }
                        }
                    }
                },
                None => {
                    proof {
                        assert forall|x: Scope| known@.contains(x) <==> exists|k: int|
                            0 <= k < i + 1 && scope_text(x) == (#[trigger] items@[k])@ by {
                            if exists|k: int| 0 <= k < i + 1 && scope_text(x) == (#[trigger] items@[k])@ {
                                let k = choose|k: int| 0 <= k < i + 1 && scope_text(x) == (#[trigger] items@[k])@;
                                assert(k != i);
                            }
                        }
                    }
                },
            }
            i = i + 1;
        }
        ScopeSet::from_scopes(known.as_slice())
    }

    pub fn contains(&self, scope: Scope) -> (r: bool)
        ensures
            r == self@.contains(scope),
    {
        let mut i: usize = 0;
        while i < self.inner.len()
            invariant
                i <= self.inner@.len(),
                forall|k: int| 0 <= k < i ==> self.inner@[k] != scope,
            decreases self.inner@.len() - i,
        {
            if self.inner[i] == scope {
                return true;
            }
            i = i + 1;
        }
        false
    }

    /// A copy of this set.
    pub fn duplicate(&self) -> (r: ScopeSet)
        ensures
            r@ == self@,
    {
        proof {
            use_type_invariant(self);
        }
        let mut v: Vec<Scope> = Vec::new();
        let mut i: usize = 0;
        while i < self.inner.len()
            invariant
                i <= self.inner@.len(),
                v@ == self.inner@.take(i as int),
            decreases self.inner@.len() - i,
        {
            v.push(self.inner[i]);
            i = i + 1;
            proof {
                assert(v@ =~= self.inner@.take(i as int));
            }
        }
        proof {
            assert(v@ =~= self.inner@);
        }
        ScopeSet { inner: v }
    }

    pub fn is_empty(&self) -> (r: bool)
        ensures
            r == (self@.len() == 0),
    {
        self.inner.len() == 0
    }

    /// The scopes in declaration order.
    pub fn iter(&self) -> (r: Vec<Scope>)
        ensures
            r@ == self@,
    {
        self.inner.clone()
    }

    /// `Ok` when `scope` is held; otherwise a `Forbidden` error that names no
    /// resource.
    pub fn require(&self, scope: Scope) -> (r: Result<(), AppError>)
        ensures
            r is Ok <==> self@.contains(scope),
            r matches Err(e) ==> (e matches AppError::Forbidden(m) && m@ == "insufficient scope"@),
    {
        if self.contains(scope) {
            Ok(())
        } else {
            Err(AppError::Forbidden("insufficient scope".to_string()))
        }
    }

    /// The scopes' texts, in declaration order.
    pub fn as_strings(&self) -> (r: Vec<String>)
        ensures
            r@.len() == self@.len(),
            forall|i: int| 0 <= i < r@.len() ==> (#[trigger] r@[i])@ == scope_text(self@[i]),
    {
        let mut r: Vec<String> = Vec::new();
        let mut i: usize = 0;
        while i < self.inner.len()
            invariant
                i <= self.inner@.len(),
                r@.len() == i,
                forall|k: int| 0 <= k < i ==> (#[trigger] r@[k])@ == scope_text(self.inner@[k]),
            decreases self.inner@.len() - i,
        {
            r.push(self.inner[i].as_str().to_string());
            i = i + 1;
        }
        r
    }
}

impl Clone for ScopeSet {
    fn clone(&self) -> (r: ScopeSet)
        ensures
            r@ == self@,
    {
        self.duplicate()
    }
}

impl Default for ScopeSet {
    fn default() -> (s: ScopeSet)
        ensures
            s@.len() == 0,
    {
        ScopeSet::new()
    }
}

} // verus!
