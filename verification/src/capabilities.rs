//! Provider-neutral backend capabilities and contract compatibility.
//! Provider and backend identifiers are opaque strings.

use vstd::prelude::*;

use crate::text::{key_lt, lemma_key_lt_irreflexive, lemma_key_lt_total, lemma_key_lt_transitive, string_less};

verus! {

#[derive(Debug, Clone, Copy, PartialEq, Eq, Structural, PartialOrd, Ord, Hash)]
pub enum BackendCapability {
    StructuredJson,
    RawBytes,
    SourceEvidence,
    ParseIr,
    Vision,
    LongContext,
}

/// Declaration order (the `Ord` of capabilities).
pub open spec fn cap_rank(c: BackendCapability) -> int {
    match c {
        BackendCapability::StructuredJson => 0,
        BackendCapability::RawBytes => 1,
        BackendCapability::SourceEvidence => 2,
        BackendCapability::ParseIr => 3,
        BackendCapability::Vision => 4,
        BackendCapability::LongContext => 5,
    }
}

fn rank_of(c: BackendCapability) -> (r: u8)
    ensures
        r == cap_rank(c),
{
    match c {
        BackendCapability::StructuredJson => 0,
        BackendCapability::RawBytes => 1,
        BackendCapability::SourceEvidence => 2,
        BackendCapability::ParseIr => 3,
        BackendCapability::Vision => 4,
        BackendCapability::LongContext => 5,
    }
}

pub open spec fn caps_ascending(s: Seq<BackendCapability>) -> bool {
    forall|i: int, j: int| 0 <= i < j < s.len() ==> cap_rank(#[trigger] s[i]) < cap_rank(#[trigger] s[j])
}

/// A capability list kept in declaration order without repeats is fixed by
/// which capabilities it holds: two such lists with the same members are the
/// same list.
pub proof fn lemma_caps_determined(a: Seq<BackendCapability>, b: Seq<BackendCapability>)
    requires
        caps_ascending(a),
        caps_ascending(b),
        forall|x: BackendCapability| #![trigger a.contains(x)] #![trigger b.contains(x)] a.contains(x) <==> b.contains(
            x,
        ),
    ensures
        a == b,
    decreases a.len() + b.len(),
{
    if a.len() == 0 || b.len() == 0 {
        if a.len() > 0 {
            assert(a.contains(a[0]));
            assert(b.contains(a[0]));
        }
        if b.len() > 0 {
            assert(b.contains(b[0]));
            assert(a.contains(b[0]));
        }
        assert(a =~= b);
    } else {
        assert(a.contains(a[0]));
        assert(b.contains(b[0]));
        assert(b.contains(a[0]));
        assert(a.contains(b[0]));
        let j = choose|j: int| 0 <= j < b.len() && b[j] == a[0];
        let k = choose|k: int| 0 <= k < a.len() && a[k] == b[0];
        if j > 0 {
            assert(cap_rank(b[0]) < cap_rank(b[j]));
            if k > 0 {
                assert(cap_rank(a[0]) < cap_rank(a[k]));
            }
        }
        assert(a[0] == b[0]);
        let ta = a.drop_first();
        let tb = b.drop_first();
        assert forall|i: int, l: int| 0 <= i < l < ta.len() implies cap_rank(#[trigger] ta[i]) < cap_rank(
            #[trigger] ta[l],
        ) by {
            assert(ta[i] == a[i + 1] && ta[l] == a[l + 1]);
        }
        assert forall|i: int, l: int| 0 <= i < l < tb.len() implies cap_rank(#[trigger] tb[i]) < cap_rank(
            #[trigger] tb[l],
        ) by {
            assert(tb[i] == b[i + 1] && tb[l] == b[l + 1]);
        }
        assert forall|x: BackendCapability| #[trigger] ta.contains(x) <==> tb.contains(x) by {
            if ta.contains(x) {
                let i = choose|i: int| 0 <= i < ta.len() && ta[i] == x;
                assert(a[i + 1] == x);
                assert(cap_rank(a[0]) < cap_rank(a[i + 1]));
                assert(a.contains(x));
                assert(b.contains(x));
                let m = choose|m: int| 0 <= m < b.len() && b[m] == x;
                if m == 0 {
                    assert(false);
                }
                assert(tb[m - 1] == x);
            }
            if tb.contains(x) {
                let i = choose|i: int| 0 <= i < tb.len() && tb[i] == x;
                assert(b[i + 1] == x);
                assert(cap_rank(b[0]) < cap_rank(b[i + 1]));
                assert(b.contains(x));
                assert(a.contains(x));
                let m = choose|m: int| 0 <= m < a.len() && a[m] == x;
                if m == 0 {
                    assert(false);
                }
                assert(ta[m - 1] == x);
            }
        }
        lemma_caps_determined(ta, tb);
        assert(a =~= seq![a[0]] + ta);
        assert(b =~= seq![b[0]] + tb);
    }
}

/// `v` with `c` added in order (unchanged when already there).
fn insert_cap(v: Vec<BackendCapability>, c: BackendCapability) -> (r: Vec<BackendCapability>)
    requires
        caps_ascending(v@),
    ensures
        caps_ascending(r@),
        forall|x: BackendCapability| #[trigger] r@.contains(x) <==> (v@.contains(x) || x == c),
{
    let ghost before = v@;
    let mut v = v;
    let mut i: usize = 0;
    while i < v.len() && rank_of(v[i]) < rank_of(c)
        invariant
            i <= v@.len(),
            v@ == before,
            caps_ascending(before),
            forall|k: int| 0 <= k < i ==> cap_rank(#[trigger] v@[k]) < cap_rank(c),
        decreases v@.len() - i,
    {
        i = i + 1;
    }
    if i < v.len() && v[i] == c {
        proof {
            assert(before[i as int] == c);
        }
        v
    } else {
        v.insert(i, c);
        proof {
            assert forall|a: int, b: int| 0 <= a < b < v@.len() implies cap_rank(#[trigger] v@[a]) < cap_rank(
                #[trigger] v@[b],
            ) by {
                if b < i {
                    assert(v@[a] == before[a] && v@[b] == before[b]);
                } else if b == i {
                    assert(v@[a] == before[a]);
                } else if a < i {
                    assert(v@[a] == before[a] && v@[b] == before[b - 1]);
                    assert(cap_rank(before[i as int]) != cap_rank(c));
                } else if a == i {
                    assert(v@[b] == before[b - 1]);
                    assert(cap_rank(before[i as int]) != cap_rank(c));
                } else {
                    assert(v@[a] == before[a - 1] && v@[b] == before[b - 1]);
                }
            }
            assert forall|x: BackendCapability| #[trigger] v@.contains(x) <==> (before.contains(x) || x == c) by {
                if v@.contains(x) {
                    let k = choose|k: int| 0 <= k < v@.len() && v@[k] == x;
                    if k < i {
                        assert(before[k] == x);
                    } else if k > i {
                        assert(before[k - 1] == x);
                    }
                }
                if before.contains(x) {
                    let k = choose|k: int| 0 <= k < before.len() && before[k] == x;
                    if k < i {
                        assert(v@[k] == x);
                    } else {
                        assert(v@[k + 1] == x);
                    }
                }
                if x == c {
                    assert(v@[i as int] == x);
                }
            }
        }
        v
    }
}

fn contains_cap(v: &Vec<BackendCapability>, c: BackendCapability) -> (r: bool)
    ensures
        r == v@.contains(c),
{
    let mut i: usize = 0;
    while i < v.len()
        invariant
            i <= v@.len(),
            forall|k: int| 0 <= k < i ==> v@[k] != c,
        decreases v@.len() - i,
    {
        if v[i] == c {
            return true;
        }
        i = i + 1;
    }
    false
}

/// A set of capabilities, kept in declaration order.
#[derive(Debug, PartialEq, Eq)]
pub struct BackendCapabilities(Vec<BackendCapability>);

impl View for BackendCapabilities {
    type V = Seq<BackendCapability>;

    closed spec fn view(&self) -> Seq<BackendCapability> {
        self.0@
    }
}

impl Clone for BackendCapabilities {
    fn clone(&self) -> (r: BackendCapabilities)
        ensures
            r@ == self@,
            caps_ascending(r@),
    {
        proof {
            use_type_invariant(self);
        }
        let v = self.0.clone();
        proof {
            assert(v@ =~= self.0@);
        }
        BackendCapabilities(v)
    }
}

impl BackendCapabilities {
    #[verifier::type_invariant]
    spec fn ascending(&self) -> bool {
        caps_ascending(self.0@)
    }

    /// The capabilities are kept in declaration order, each once.
    pub fn ascending_view(&self)
        ensures
            caps_ascending(self@),
    {
        proof {
            use_type_invariant(self);
        }
    }

    pub fn new() -> (c: BackendCapabilities)
        ensures
            c@.len() == 0,
    {
        BackendCapabilities(Vec::new())
    }

    /// These capabilities and `capability`, kept in declaration order, each
    /// once (so adding one twice, or in another order, gives the same set).
    pub fn with(self, capability: BackendCapability) -> (c: BackendCapabilities)
        ensures
            caps_ascending(c@),
            forall|x: BackendCapability| #[trigger] c@.contains(x) <==> (self@.contains(x) || x
                == capability),
    {
        proof {
            use_type_invariant(&self);
        }
        let BackendCapabilities(v) = self;
        BackendCapabilities(insert_cap(v, capability))
    }

    pub fn supports(&self, capability: BackendCapability) -> (r: bool)
        ensures
            r == self@.contains(capability),
    {
        contains_cap(&self.0, capability)
    }

    /// The capabilities in declaration order, each once.
    pub fn iter(&self) -> (r: Vec<BackendCapability>)
        ensures
            r@ == self@,
            caps_ascending(r@),
    {
        proof {
            use_type_invariant(self);
        }
        let v = self.0.clone();
        proof {
            assert(v@ =~= self.0@);
        }
        v
    }
}

impl Default for BackendCapabilities {
    fn default() -> (c: BackendCapabilities)
        ensures
            c@.len() == 0,
    {
        BackendCapabilities::new()
    }
}

/// An advertised backend. The identifiers are opaque allowlist keys.
#[derive(Debug, Clone, PartialEq, Eq)]
pub struct BackendDescriptor {
    provider_id: String,
    backend_id: String,
    capabilities: BackendCapabilities,
}

impl BackendDescriptor {
    pub closed spec fn provider_spec(&self) -> Seq<char> {
        self.provider_id@
    }

    pub closed spec fn backend_spec(&self) -> Seq<char> {
        self.backend_id@
    }

    pub closed spec fn capabilities_spec(&self) -> Seq<BackendCapability> {
        self.capabilities@
    }

    pub fn new(provider_id: String, backend_id: String, capabilities: BackendCapabilities) -> (d: BackendDescriptor)
        ensures
            d.provider_spec() == provider_id@,
            d.backend_spec() == backend_id@,
            d.capabilities_spec() == capabilities@,
    {
        BackendDescriptor { provider_id, backend_id, capabilities }
    }

    pub fn provider_id(&self) -> (s: &str)
        ensures
            s@ == self.provider_spec(),
    {
        self.provider_id.as_str()
    }

    pub fn backend_id(&self) -> (s: &str)
        ensures
            s@ == self.backend_spec(),
    {
        self.backend_id.as_str()
    }

    pub fn capabilities(&self) -> (c: &BackendCapabilities)
        ensures
            c@ == self.capabilities_spec(),
    {
        &self.capabilities
    }
}

pub open spec fn strings_ascending(s: Seq<String>) -> bool {
    forall|i: int, j: int| 0 <= i < j < s.len() ==> key_lt((#[trigger] s[i])@, (#[trigger] s[j])@)
}

/// The texts of `s`.
pub open spec fn texts(s: Seq<String>) -> Seq<Seq<char>> {
    s.map_values(|x: String| x@)
}

fn copy_strings(v: &Vec<String>) -> (r: Vec<String>)
    ensures
        texts(r@) == texts(v@),
{
    let mut r: Vec<String> = Vec::new();
    let mut i: usize = 0;
    while i < v.len()
        invariant
            i <= v@.len(),
            r@.len() == i,
            forall|k: int| 0 <= k < i ==> #[trigger] r@[k]@ == v@[k]@,
        decreases v@.len() - i,
    {
        r.push(v[i].clone());
        i = i + 1;
    }
    proof {
        assert(texts(r@) =~= texts(v@));
    }
    r
}

/// `v` with `s` added in order (unchanged when already there).
fn insert_string(v: Vec<String>, s: String) -> (r: Vec<String>)
    requires
        strings_ascending(v@),
    ensures
        strings_ascending(r@),
        forall|x: Seq<char>| #[trigger] texts(r@).contains(x) <==> (texts(v@).contains(x) || x == s@),
{
    let ghost before = v@;
    let ghost t = texts(v@);
    let ghost sv = s@;
    let mut v = v;
    let mut i: usize = 0;
    while i < v.len() && string_less(&v[i], &s)
        invariant
            i <= v@.len(),
            v@ == before,
            t == texts(before),
            strings_ascending(before),
            forall|k: int| 0 <= k < i ==> key_lt((#[trigger] v@[k])@, s@),
        decreases v@.len() - i,
    {
        i = i + 1;
    }
    if i < v.len() && v[i] == s {
        proof {
            assert(t[i as int] == sv);
        }
        v
    } else {
        proof {
            if i < before.len() {
                lemma_key_lt_total(before[i as int]@, sv);
                assert(before[i as int]@ != sv);
                assert(key_lt(sv, before[i as int]@));
            }
        }
        v.insert(i, s);
        proof {
            assert forall|a: int, b: int| 0 <= a < b < v@.len() implies key_lt(
                (#[trigger] v@[a])@,
                (#[trigger] v@[b])@,
            ) by {
                if b < i {
                    assert(v@[a] == before[a] && v@[b] == before[b]);
                } else if b == i {
                    assert(v@[a] == before[a]);
                } else if a < i {
                    assert(v@[a] == before[a] && v@[b] == before[b - 1]);
                    if i < b - 1 {
                        assert(key_lt(before[i as int]@, before[b - 1]@));
                        lemma_key_lt_transitive(sv, before[i as int]@, before[b - 1]@);
                    }
                    lemma_key_lt_transitive(before[a]@, sv, before[b - 1]@);
                } else if a == i {
                    assert(v@[b] == before[b - 1]);
                    if i < b - 1 {
                        assert(key_lt(before[i as int]@, before[b - 1]@));
                        lemma_key_lt_transitive(sv, before[i as int]@, before[b - 1]@);
                    }
                } else {
                    assert(v@[a] == before[a - 1] && v@[b] == before[b - 1]);
                }
            }
            let nt = texts(v@);
            assert(nt =~= t.insert(i as int, sv));
            assert forall|x: Seq<char>| #[trigger] nt.contains(x) <==> (t.contains(x) || x == sv) by {
                if nt.contains(x) {
                    let k = choose|k: int| 0 <= k < nt.len() && nt[k] == x;
                    if k < i {
                        assert(t[k] == x);
                    } else if k > i {
                        assert(t[k - 1] == x);
                    }
                }
                if t.contains(x) {
                    let k = choose|k: int| 0 <= k < t.len() && t[k] == x;
                    if k < i {
                        assert(nt[k] == x);
                    } else {
                        assert(nt[k + 1] == x);
                    }
                }
                if x == sv {
                    assert(nt[i as int] == x);
                }
            }
        }
        v
    }
}

fn contains_string(v: &Vec<String>, s: &String) -> (r: bool)
    ensures
        r == texts(v@).contains(s@),
{
    let ghost t = texts(v@);
    let mut i: usize = 0;
    while i < v.len()
        invariant
            i <= v@.len(),
            t == texts(v@),
            forall|k: int| 0 <= k < i ==> t[k] != s@,
        decreases v@.len() - i,
    {
        if v[i] == *s {
            proof {
                assert(t[i as int] == s@);
            }
            return true;
        }
        i = i + 1;
    }
    false
}

/// The required capabilities that `have` lacks, in declaration order.
pub open spec fn missing_spec(required: Seq<BackendCapability>, have: Seq<BackendCapability>) -> Seq<
    BackendCapability,
>
    decreases required.len(),
{
    if required.len() == 0 {
        Seq::empty()
    } else {
        let rest = missing_spec(required.drop_last(), have);
        if have.contains(required.last()) {
            rest
        } else {
            rest.push(required.last())
        }
    }
}

/// The missing capabilities are exactly the required ones the backend does
/// not have, in the order they are required: none is dropped, none added.
pub proof fn lemma_missing_is_unsupported_required(required: Seq<BackendCapability>, have: Seq<BackendCapability>)
    ensures
        missing_spec(required, have) == required.filter(|x: BackendCapability| !have.contains(x)),
    decreases required.len(),
{
    reveal_with_fuel(Seq::<BackendCapability>::filter, 1);
    if required.len() > 0 {
        lemma_missing_is_unsupported_required(required.drop_last(), have);
    }
}

/// Contract-side compatibility constraints: required capabilities and
/// optional allowlists of provider and backend identifiers.
#[derive(Debug, PartialEq, Eq)]
pub struct BackendCompatibility {
    required_capabilities: Vec<BackendCapability>,
    allowed_provider_ids: Option<Vec<String>>,
    allowed_backend_ids: Option<Vec<String>>,
}

pub open spec fn opt_texts(o: Option<Vec<String>>) -> Option<Seq<Seq<char>>> {
    match o {
        Some(v) => Some(texts(v@)),
        None => None,
    }
}

/// The allowlist admits `id`: there is none, or it names `id`.
pub open spec fn admits(allow: Option<Seq<Seq<char>>>, id: Seq<char>) -> bool {
    match allow {
        Some(ids) => ids.contains(id),
        None => true,
    }
}

impl BackendCompatibility {
    pub closed spec fn required_spec(&self) -> Seq<BackendCapability> {
        self.required_capabilities@
    }

    pub closed spec fn providers_spec(&self) -> Option<Seq<Seq<char>>> {
        opt_texts(self.allowed_provider_ids)
    }

    pub closed spec fn backends_spec(&self) -> Option<Seq<Seq<char>>> {
        opt_texts(self.allowed_backend_ids)
    }

    #[verifier::type_invariant]
    spec fn ordered(&self) -> bool {
        &&& caps_ascending(self.required_capabilities@)
        &&& (self.allowed_provider_ids matches Some(v) ==> strings_ascending(v@))
        &&& (self.allowed_backend_ids matches Some(v) ==> strings_ascending(v@))
    }

    /// No requirement and no allowlist.
    pub fn new() -> (c: BackendCompatibility)
        ensures
            c.required_spec().len() == 0,
            c.providers_spec().is_none(),
            c.backends_spec().is_none(),
    {
        BackendCompatibility {
            required_capabilities: Vec::new(),
            allowed_provider_ids: None,
            allowed_backend_ids: None,
        }
    }

    /// The required capabilities are kept in declaration order, each once.
    pub fn required_ascending(&self)
        ensures
            caps_ascending(self.required_spec()),
    {
        proof {
            use_type_invariant(self);
        }
    }

    /// These constraints, also requiring `capability` (kept in declaration
    /// order, each once).
    pub fn requiring(self, capability: BackendCapability) -> (c: BackendCompatibility)
        ensures
            caps_ascending(c.required_spec()),
            forall|x: BackendCapability| #[trigger] c.required_spec().contains(x) <==> (
            self.required_spec().contains(x) || x == capability),
            c.providers_spec() == self.providers_spec(),
            c.backends_spec() == self.backends_spec(),
    {
        proof {
            use_type_invariant(&self);
        }
        let BackendCompatibility { required_capabilities, allowed_provider_ids, allowed_backend_ids } =
            self;
        BackendCompatibility {
            required_capabilities: insert_cap(required_capabilities, capability),
            allowed_provider_ids,
            allowed_backend_ids,
        }
    }

    /// These constraints, also admitting the provider `provider_id` (an
    /// allowlist is started when there is none).
    pub fn allowing_provider(self, provider_id: String) -> (c: BackendCompatibility)
        ensures
            c.required_spec() == self.required_spec(),
            c.backends_spec() == self.backends_spec(),
            c.providers_spec() is Some,
            forall|x: Seq<char>| #[trigger] c.providers_spec().unwrap().contains(x) <==> (x
                == provider_id@ || (self.providers_spec() matches Some(p) && p.contains(x))),
    {
        proof {
            use_type_invariant(&self);
        }
        let BackendCompatibility { required_capabilities, allowed_provider_ids, allowed_backend_ids } =
            self;
        let ids = match allowed_provider_ids {
            Some(v) => v,
            None => Vec::new(),
        };
        BackendCompatibility {
            required_capabilities,
            allowed_provider_ids: Some(insert_string(ids, provider_id)),
            allowed_backend_ids,
        }
    }

    /// These constraints, also admitting the backend `backend_id` (an
    /// allowlist is started when there is none).
    pub fn allowing_backend(self, backend_id: String) -> (c: BackendCompatibility)
        ensures
            c.required_spec() == self.required_spec(),
            c.providers_spec() == self.providers_spec(),
            c.backends_spec() is Some,
            forall|x: Seq<char>| #[trigger] c.backends_spec().unwrap().contains(x) <==> (x
                == backend_id@ || (self.backends_spec() matches Some(p) && p.contains(x))),
    {
        proof {
            use_type_invariant(&self);
        }
        let BackendCompatibility { required_capabilities, allowed_provider_ids, allowed_backend_ids } =
            self;
        let ids = match allowed_backend_ids {
            Some(v) => v,
            None => Vec::new(),
        };
        BackendCompatibility {
            required_capabilities,
            allowed_provider_ids,
            allowed_backend_ids: Some(insert_string(ids, backend_id)),
        }
    }

    /// The provider allowlist, in key order, when there is one.
    pub fn allowed_provider_ids(&self) -> (r: Option<Vec<String>>)
        ensures
            opt_texts(r) == self.providers_spec(),
    {
        match &self.allowed_provider_ids {
            Some(v) => Some(copy_strings(v)),
            None => None,
        }
    }

    /// The backend allowlist, in key order, when there is one.
    pub fn allowed_backend_ids(&self) -> (r: Option<Vec<String>>)
        ensures
            opt_texts(r) == self.backends_spec(),
    {
        match &self.allowed_backend_ids {
            Some(v) => Some(copy_strings(v)),
            None => None,
        }
    }

    /// The required capabilities, in declaration order, each once.
    pub fn required_capabilities(&self) -> (r: Vec<BackendCapability>)
        ensures
            r@ == self.required_spec(),
            caps_ascending(r@),
    {
        proof {
            use_type_invariant(self);
        }
        let v = self.required_capabilities.clone();
        proof {
            assert(v@ =~= self.required_capabilities@);
        }
        v
    }

    /// The required capabilities `backend` does not support.
    pub fn missing_capabilities(&self, backend: &BackendDescriptor) -> (r: Vec<BackendCapability>)
        ensures
            r@ == missing_spec(self.required_spec(), backend.capabilities_spec()),
    {
        let req = &self.required_capabilities;
        let mut out: Vec<BackendCapability> = Vec::new();
        let mut i: usize = 0;
        while i < req.len()
            invariant
                i <= req@.len(),
                out@ == missing_spec(req@.take(i as int), backend.capabilities_spec()),
            decreases req@.len() - i,
        {
            proof {
                assert(req@.take(i + 1).drop_last() == req@.take(i as int));
                assert(req@.take(i + 1).last() == req@[i as int]);
            }
            if !backend.capabilities.supports(req[i]) {
                out.push(req[i]);
            }
            i = i + 1;
        }
        proof {
            assert(req@.take(i as int) == req@);
        }
        out
    }

    /// The backend is admitted by both allowlists and supports every required
    /// capability.
    pub fn is_satisfied_by(&self, backend: &BackendDescriptor) -> (r: bool)
        ensures
            r == (admits(self.providers_spec(), backend.provider_spec()) && admits(
                self.backends_spec(),
                backend.backend_spec(),
            ) && missing_spec(self.required_spec(), backend.capabilities_spec()).len() == 0),
    {
        match &self.allowed_provider_ids {
            Some(ids) => {
                if !contains_string(ids, &backend.provider_id) {
                    return false;
                }
            },
            None => {},
        }
        match &self.allowed_backend_ids {
            Some(ids) => {
                if !contains_string(ids, &backend.backend_id) {
                    return false;
                }
            },
            None => {},
        }
        self.missing_capabilities(backend).len() == 0
    }
}

impl Clone for BackendCompatibility {
    fn clone(&self) -> (r: BackendCompatibility)
        ensures
            r.required_spec() == self.required_spec(),
            r.providers_spec() == self.providers_spec(),
            r.backends_spec() == self.backends_spec(),
    {
        proof {
            use_type_invariant(self);
        }
        let required = self.required_capabilities.clone();
        proof {
            assert(required@ =~= self.required_capabilities@);
        }
        let providers = match &self.allowed_provider_ids {
            Some(v) => Some(copy_strings(v)),
            None => None,
        };
        let backends = match &self.allowed_backend_ids {
            Some(v) => Some(copy_strings(v)),
            None => None,
        };
        proof {
            if providers is Some {
                let v = providers->Some_0;
                let w = self.allowed_provider_ids->Some_0;
                assert(strings_ascending(v@)) by {
                    assert(texts(v@) == texts(w@));
                    assert(v@.len() == texts(v@).len());
                    assert(w@.len() == texts(w@).len());
                    assert forall|i: int| 0 <= i < v@.len() implies v@[i]@ == w@[i]@ by {
                        assert(texts(v@)[i] == texts(w@)[i]);
                    }
                }
            }
            if backends is Some {
                let v = backends->Some_0;
                let w = self.allowed_backend_ids->Some_0;
                assert(strings_ascending(v@)) by {
                    assert(texts(v@) == texts(w@));
                    assert(v@.len() == texts(v@).len());
                    assert(w@.len() == texts(w@).len());
                    assert forall|i: int| 0 <= i < v@.len() implies v@[i]@ == w@[i]@ by {
                        assert(texts(v@)[i] == texts(w@)[i]);
                    }
                }
            }
        }
        BackendCompatibility {
            required_capabilities: required,
            allowed_provider_ids: providers,
            allowed_backend_ids: backends,
        }
    }
}

impl Default for BackendCompatibility {
    fn default() -> (c: BackendCompatibility)
        ensures
            c.required_spec().len() == 0,
            c.providers_spec().is_none(),
            c.backends_spec().is_none(),
    {
        BackendCompatibility::new()
    }
}

/// Nothing is missing exactly when every required capability is supported.
pub proof fn lemma_missing_empty(required: Seq<BackendCapability>, have: Seq<BackendCapability>)
    ensures
        missing_spec(required, have).len() == 0 <==> forall|i: int|
            0 <= i < required.len() ==> have.contains(#[trigger] required[i]),
    decreases required.len(),
{
    if required.len() > 0 {
        let d = required.drop_last();
        lemma_missing_empty(d, have);
        assert forall|i: int| 0 <= i < d.len() implies #[trigger] d[i] == required[i] by {}
        if missing_spec(required, have).len() == 0 {
            assert(have.contains(required.last()));
            assert forall|i: int| 0 <= i < required.len() implies have.contains(#[trigger] required[i]) by {
                if i < d.len() {
                    assert(d[i] == required[i]);
                    assert(have.contains(d[i]));
                }
            }
        } else if forall|i: int| 0 <= i < required.len() ==> have.contains(#[trigger] required[i]) {
            assert(have.contains(required[required.len() - 1]));
            assert forall|i: int| 0 <= i < d.len() implies have.contains(#[trigger] d[i]) by {
                assert(d[i] == required[i]);
            }
        }
    }
}

} // verus!
