//! RFC 6901 JSON Pointers: parsing, rendering, and navigation.

use vstd::prelude::*;

use crate::json::{find_index, find_key, lemma_find_index, lemma_find_index_at, Json, JsonValue};
use crate::text::{
    chars_of, key_lt, lemma_digits_value_nonneg, lemma_key_lt_irreflexive, lemma_key_lt_total,
    lemma_key_lt_transitive, lemma_split_nonempty, parse_unsigned, unsigned_digits, parse_unsigned_chars, split_chars, split_spec,
    string_from_chars, string_less,
};

verus! {

#[derive(Debug, Clone, Copy, PartialEq, Eq, Structural)]
pub enum JsonPointerError {
    MustStartWithSlash,
    InvalidEscape,
    InvalidArrayIndex,
    CannotTraverse,
}

impl JsonPointerError {
    /// The error's display text.
    pub fn message(&self) -> (s: &'static str)
        ensures
            s@ == self.message_spec(),
    {
        match self {
            JsonPointerError::MustStartWithSlash => "JSON Pointer must be empty or start with '/'",
            JsonPointerError::InvalidEscape => "JSON Pointer contains an invalid '~' escape",
            JsonPointerError::InvalidArrayIndex => "JSON Pointer contains an invalid array index",
            JsonPointerError::CannotTraverse => "JSON Pointer cannot traverse the JSON value",
        }
    }

    pub open spec fn message_spec(&self) -> Seq<char> {
        match self {
            JsonPointerError::MustStartWithSlash => "JSON Pointer must be empty or start with '/'"@,
            JsonPointerError::InvalidEscape => "JSON Pointer contains an invalid '~' escape"@,
            JsonPointerError::InvalidArrayIndex => "JSON Pointer contains an invalid array index"@,
            JsonPointerError::CannotTraverse => "JSON Pointer cannot traverse the JSON value"@,
        }
    }
}

/// The reference tokens as character sequences.
pub open spec fn token_models(tokens: Seq<String>) -> Seq<Seq<char>> {
    Seq::new(tokens.len(), |i: int| tokens[i]@)
}

/// The array position a reference token names: a decimal `usize` without
/// leading zeros; `-` (the past-the-end marker) and the empty token are refused.
pub open spec fn array_index_spec(token: Seq<char>) -> Result<int, JsonPointerError> {
    if token.len() == 0 || (token.len() > 1 && token[0] == '0') || token == seq!['-'] {
        Err(JsonPointerError::InvalidArrayIndex)
    } else {
        match parse_unsigned(token, usize::MAX as int) {
            Some(n) => Ok(n),
            None => Err(JsonPointerError::InvalidArrayIndex),
        }
    }
}

pub proof fn lemma_array_index_range(token: Seq<char>)
    ensures
        array_index_spec(token) matches Ok(n) ==> 0 <= n <= usize::MAX,
{
    match unsigned_digits(token) {
        Some(d) => lemma_digits_value_nonneg(d),
        None => {},
    }
}

pub fn array_index(token: &String) -> (r: Result<usize, JsonPointerError>)
    ensures
        match r {
            Ok(i) => array_index_spec(token@) == Ok::<int, JsonPointerError>(i as int),
            Err(e) => array_index_spec(token@) == Err::<int, JsonPointerError>(e),
        },
{
    let t = chars_of(token.as_str());
    if t.len() == 0 || (t.len() > 1 && t[0] == '0') || (t.len() == 1 && t[0] == '-') {
        proof {
            if t@.len() == 1 && t@[0] == '-' {
                assert(t@ == seq!['-']);
            }
        }
        return Err(JsonPointerError::InvalidArrayIndex);
    }
    proof {
        if t@ == seq!['-'] {
            assert(t@[0] == '-');
        }
    }
    let parsed = parse_unsigned_chars(&t, usize::MAX as u64);
    proof {
        assert(usize::MAX as u64 as int == usize::MAX as int);
    }
    match parsed {
        Some(n) => {
            Ok(n as usize)
        },
        None => Err(JsonPointerError::InvalidArrayIndex),
    }
}

/// What resolving `tokens` against `j` gives: the target, `None` when an
/// object member or array element along the way is absent, or an error when a
/// token cannot apply to the value it meets.
pub open spec fn path_get(j: Json, tokens: Seq<Seq<char>>) -> Result<Option<Json>, JsonPointerError>
    decreases tokens.len(),
{
    if tokens.len() == 0 {
        Ok(Some(j))
    } else {
        let t = tokens[0];
        match j {
            Json::Object(pairs) => match find_index(pairs, t) {
                Some(k) => path_get(pairs[k].1, tokens.drop_first()),
                None => Ok(None),
            },
            Json::Array(items) => match array_index_spec(t) {
                Ok(i) => if i < items.len() {
                    path_get(items[i], tokens.drop_first())
                } else {
                    Ok(None)
                },
                Err(e) => Err(e),
            },
            _ => Err(JsonPointerError::CannotTraverse),
        }
    }
}

/// `j` with the value that `tokens` names replaced by `replacement`. Every
/// member and element along the path, the target included, must exist.
pub open spec fn path_set(j: Json, tokens: Seq<Seq<char>>, replacement: Json) -> Result<
    Json,
    JsonPointerError,
>
    decreases tokens.len(),
{
    if tokens.len() == 0 {
        Ok(replacement)
    } else {
        let t = tokens[0];
        match j {
            Json::Object(pairs) => match find_index(pairs, t) {
                Some(k) => match path_set(pairs[k].1, tokens.drop_first(), replacement) {
                    Ok(c) => Ok(Json::Object(pairs.update(k, (pairs[k].0, c)))),
                    Err(e) => Err(e),
                },
                None => Err(JsonPointerError::CannotTraverse),
            },
            Json::Array(items) => match array_index_spec(t) {
                Ok(i) => if i < items.len() {
                    match path_set(items[i], tokens.drop_first(), replacement) {
                        Ok(c) => Ok(Json::Array(items.update(i, c))),
                        Err(e) => Err(e),
                    }
                } else {
                    Err(JsonPointerError::CannotTraverse)
                },
                Err(e) => Err(e),
            },
            _ => Err(JsonPointerError::CannotTraverse),
        }
    }
}

/// `~` written `~0` and `/` written `~1`; other characters kept.
pub open spec fn escape_char(c: char) -> Seq<char> {
    if c == '~' {
        seq!['~', '0']
    } else if c == '/' {
        seq!['~', '1']
    } else {
        seq![c]
    }
}

/// A reference token as it appears inside a pointer.
pub open spec fn escape_spec(t: Seq<char>) -> Seq<char>
    decreases t.len(),
{
    if t.len() == 0 {
        Seq::empty()
    } else {
        escape_char(t[0]) + escape_spec(t.drop_first())
    }
}

/// The reference token that the escaped text `t` stands for; `None` when a
/// `~` is not followed by `0` or `1`.
pub open spec fn unescape_spec(t: Seq<char>) -> Option<Seq<char>>
    decreases t.len(),
{
    if t.len() == 0 {
        Some(Seq::empty())
    } else if t[0] != '~' {
        match unescape_spec(t.drop_first()) {
            Some(r) => Some(seq![t[0]] + r),
            None => None,
        }
    } else if t.len() >= 2 && t[1] == '0' {
        match unescape_spec(t.skip(2)) {
            Some(r) => Some(seq!['~'] + r),
            None => None,
        }
    } else if t.len() >= 2 && t[1] == '1' {
        match unescape_spec(t.skip(2)) {
            Some(r) => Some(seq!['/'] + r),
            None => None,
        }
    } else {
        None
    }
}

/// Each segment unescaped; the first that cannot be is an `InvalidEscape`.
pub open spec fn unescape_all(segments: Seq<Seq<char>>) -> Result<Seq<Seq<char>>, JsonPointerError>
    decreases segments.len(),
{
    if segments.len() == 0 {
        Ok(Seq::empty())
    } else {
        match unescape_spec(segments[0]) {
            Some(t) => match unescape_all(segments.drop_first()) {
                Ok(rest) => Ok(seq![t] + rest),
                Err(e) => Err(e),
            },
            None => Err(JsonPointerError::InvalidEscape),
        }
    }
}

/// What `JsonPointer::parse` gives for the text `s`: the empty text is the
/// root; otherwise `s` starts with `/` and each `/`-separated segment is an
/// escaped reference token.
pub open spec fn parse_spec(s: Seq<char>) -> Result<Seq<Seq<char>>, JsonPointerError> {
    if s.len() == 0 {
        Ok(Seq::empty())
    } else if s[0] != '/' {
        Err(JsonPointerError::MustStartWithSlash)
    } else {
        unescape_all(split_spec(s, '/').drop_first())
    }
}

/// The RFC 6901 text of a pointer with reference tokens `tokens`.
pub open spec fn pointer_text(tokens: Seq<Seq<char>>) -> Seq<char>
    decreases tokens.len(),
{
    if tokens.len() == 0 {
        Seq::empty()
    } else {
        pointer_text(tokens.drop_last()) + seq!['/'] + escape_spec(tokens.last())
    }
}

/// `JsonPointer`'s order: lexicographic over tokens, each compared as a
/// string.
pub open spec fn tokens_lt(a: Seq<Seq<char>>, b: Seq<Seq<char>>) -> bool
    decreases a.len(),
{
    if b.len() == 0 {
        false
    } else if a.len() == 0 {
        true
    } else if a[0] != b[0] {
        key_lt(a[0], b[0])
    } else {
        tokens_lt(a.drop_first(), b.drop_first())
    }
}

pub proof fn lemma_tokens_lt_irreflexive(a: Seq<Seq<char>>)
    ensures
        !tokens_lt(a, a),
    decreases a.len(),
{
    if a.len() > 0 {
        lemma_tokens_lt_irreflexive(a.drop_first());
    }
}

pub proof fn lemma_tokens_lt_transitive(a: Seq<Seq<char>>, b: Seq<Seq<char>>, c: Seq<Seq<char>>)
    requires
        tokens_lt(a, b),
        tokens_lt(b, c),
    ensures
        tokens_lt(a, c),
    decreases a.len(),
{
    if a.len() > 0 && b.len() > 0 && c.len() > 0 {
        if a[0] == b[0] && b[0] == c[0] {
            lemma_tokens_lt_transitive(a.drop_first(), b.drop_first(), c.drop_first());
        } else if a[0] != b[0] && b[0] != c[0] {
            lemma_key_lt_transitive(a[0], b[0], c[0]);
            if a[0] == c[0] {
                lemma_key_lt_transitive(a[0], b[0], a[0]);
                lemma_key_lt_irreflexive(a[0]);
            }
        }
    }
}

#[verifier::spinoff_prover]
pub proof fn lemma_tokens_lt_total(a: Seq<Seq<char>>, b: Seq<Seq<char>>)
    ensures
        a == b || tokens_lt(a, b) || tokens_lt(b, a),
    decreases a.len(),
{
    if a.len() > 0 && b.len() > 0 {
        if a[0] == b[0] {
            lemma_tokens_lt_total(a.drop_first(), b.drop_first());
            if a.drop_first() == b.drop_first() {
                assert(a.drop_first().len() == a.len() - 1);
                assert(b.drop_first().len() == b.len() - 1);
                assert(a.len() == b.len());
                assert forall|i: int| 0 <= i < a.len() implies a[i] == b[i] by {
                    if i > 0 {
                        assert(a[i] == a.drop_first()[i - 1]);
                        assert(b[i] == b.drop_first()[i - 1]);
                    }
                }
                assert(a =~= b);
            }
        } else {
            lemma_key_lt_total(a[0], b[0]);
        }
    } else if a.len() == 0 && b.len() == 0 {
        assert(a =~= b);
    }
}

pub proof fn lemma_tokens_lt_asymmetric(a: Seq<Seq<char>>, b: Seq<Seq<char>>)
    requires
        tokens_lt(a, b),
    ensures
        !tokens_lt(b, a),
{
    if tokens_lt(b, a) {
        lemma_tokens_lt_transitive(a, b, a);
        lemma_tokens_lt_irreflexive(a);
    }
}

proof fn lemma_unescape_escape_char(c: char, x: Seq<char>)
    ensures
        unescape_spec(escape_char(c) + x) == (match unescape_spec(x) {
            Some(r) => Some(seq![c] + r),
            None => None::<Seq<char>>,
        }),
{
    let e = escape_char(c) + x;
    if c == '~' {
        assert(e.skip(2) == x);
    } else if c == '/' {
        assert(e.skip(2) == x);
    } else {
        assert(e.drop_first() == x);
    }
}

/// Unescaping undoes escaping.
pub proof fn lemma_unescape_escape(t: Seq<char>)
    ensures
        unescape_spec(escape_spec(t)) == Some(t),
    decreases t.len(),
{
    if t.len() > 0 {
        lemma_unescape_escape(t.drop_first());
        lemma_unescape_escape_char(t[0], escape_spec(t.drop_first()));
        assert(seq![t[0]] + t.drop_first() == t);
    }
}

proof fn lemma_escape_no_slash(t: Seq<char>)
    ensures
        forall|i: int| 0 <= i < escape_spec(t).len() ==> #[trigger] escape_spec(t)[i] != '/',
    decreases t.len(),
{
    if t.len() > 0 {
        lemma_escape_no_slash(t.drop_first());
        let e = escape_spec(t);
        let h = escape_char(t[0]);
        assert forall|i: int| 0 <= i < e.len() implies #[trigger] e[i] != '/' by {
            if i >= h.len() {
                assert(e[i] == escape_spec(t.drop_first())[i - h.len()]);
            }
        }
    }
}

proof fn lemma_split_append_piece(s: Seq<char>, e: Seq<char>)
    requires
        forall|i: int| 0 <= i < e.len() ==> #[trigger] e[i] != '/',
    ensures
        split_spec(s + seq!['/'] + e, '/') == split_spec(s, '/').push(e),
    decreases e.len(),
{
    let w = s + seq!['/'] + e;
    if e.len() == 0 {
        assert(e == Seq::<char>::empty());
        assert(w =~= s + seq!['/']);
        assert(w.drop_last() =~= s);
        assert(w.last() == '/');
    } else {
        let e1 = e.drop_last();
        assert forall|i: int| 0 <= i < e1.len() implies #[trigger] e1[i] != '/' by {
            assert(e1[i] == e[i]);
        }
        lemma_split_append_piece(s, e1);
        assert(w.drop_last() =~= s + seq!['/'] + e1);
        assert(w.last() == e.last());
        assert(e.last() != '/');
        assert(e1.push(e.last()) =~= e);
        let r = split_spec(s, '/').push(e1);
        assert(split_spec(w, '/') == r.update(r.len() - 1, r.last().push(w.last())));
        assert(r.update(r.len() - 1, r.last().push(w.last())) =~= split_spec(s, '/').push(e));
    }
}

proof fn lemma_split_pointer_text(tokens: Seq<Seq<char>>)
    ensures
        split_spec(pointer_text(tokens), '/') == seq![Seq::<char>::empty()] + Seq::new(
            tokens.len(),
            |i: int| escape_spec(tokens[i]),
        ),
    decreases tokens.len(),
{
    if tokens.len() == 0 {
        assert(split_spec(Seq::<char>::empty(), '/') == seq![Seq::<char>::empty()]);
        assert(seq![Seq::<char>::empty()] + Seq::new(0, |i: int| escape_spec(tokens[i]))
            == seq![Seq::<char>::empty()]);
    } else {
        lemma_split_pointer_text(tokens.drop_last());
        lemma_escape_no_slash(tokens.last());
        lemma_split_append_piece(pointer_text(tokens.drop_last()), escape_spec(tokens.last()));
        let d = tokens.drop_last();
        assert((seq![Seq::<char>::empty()] + Seq::new(d.len(), |i: int| escape_spec(d[i]))).push(
            escape_spec(tokens.last()),
        ) =~= seq![Seq::<char>::empty()] + Seq::new(
            tokens.len(),
            |i: int| escape_spec(tokens[i]),
        ));
    }
}

proof fn lemma_unescape_all_escaped(tokens: Seq<Seq<char>>)
    ensures
        unescape_all(Seq::new(tokens.len(), |i: int| escape_spec(tokens[i]))) == Ok::<
            Seq<Seq<char>>,
            JsonPointerError,
        >(tokens),
    decreases tokens.len(),
{
    let segs = Seq::new(tokens.len(), |i: int| escape_spec(tokens[i]));
    if tokens.len() > 0 {
        let d = tokens.drop_first();
        lemma_unescape_all_escaped(d);
        assert(segs.drop_first() =~= Seq::new(d.len(), |i: int| escape_spec(d[i])));
        lemma_unescape_escape(tokens[0]);
        assert(seq![tokens[0]] + d == tokens);
    } else {
        assert(tokens == Seq::<Seq<char>>::empty());
    }
}

/// Parsing the text of a pointer gives back its tokens (RFC 6901 round trip).
pub proof fn lemma_parse_pointer_text(tokens: Seq<Seq<char>>)
    ensures
        parse_spec(pointer_text(tokens)) == Ok::<Seq<Seq<char>>, JsonPointerError>(tokens),
{
    let s = pointer_text(tokens);
    lemma_split_pointer_text(tokens);
    lemma_unescape_all_escaped(tokens);
    if tokens.len() > 0 {
        lemma_pointer_text_starts_with_slash(tokens);
        assert((seq![Seq::<char>::empty()] + Seq::new(
            tokens.len(),
            |i: int| escape_spec(tokens[i]),
        )).drop_first() =~= Seq::new(tokens.len(), |i: int| escape_spec(tokens[i])));
    }
}

proof fn lemma_pointer_text_starts_with_slash(tokens: Seq<Seq<char>>)
    requires
        tokens.len() > 0,
    ensures
        pointer_text(tokens).len() > 0,
        pointer_text(tokens)[0] == '/',
    decreases tokens.len(),
{
    let d = tokens.drop_last();
    let p = pointer_text(d);
    let w = p + seq!['/'] + escape_spec(tokens.last());
    assert(pointer_text(tokens) == w);
    if d.len() > 0 {
        lemma_pointer_text_starts_with_slash(d);
        assert(w[0] == p[0]);
    } else {
        assert(p == Seq::<char>::empty());
        assert(w[0] == '/');
    }
}


/// How many times `c` occurs in `s`.
pub open spec fn count_char(s: Seq<char>, c: char) -> nat
    decreases s.len(),
{
    if s.len() == 0 {
        0
    } else {
        count_char(s.drop_last(), c) + if s.last() == c {
            1nat
        } else {
            0nat
        }
    }
}

/// The pieces joined back with `/` between them.
spec fn join_segments(q: Seq<Seq<char>>) -> Seq<char>
    decreases q.len(),
{
    if q.len() <= 1 {
        if q.len() == 1 {
            q[0]
        } else {
            Seq::empty()
        }
    } else {
        join_segments(q.drop_last()) + seq!['/'] + q.last()
    }
}

proof fn lemma_split_facts(s: Seq<char>)
    ensures
        split_spec(s, '/').len() == count_char(s, '/') + 1,
        join_segments(split_spec(s, '/')) == s,
        forall|i: int, j: int|
            0 <= i < split_spec(s, '/').len() && 0 <= j < split_spec(s, '/')[i].len() ==> #[trigger] split_spec(
                s,
                '/',
            )[i][j] != '/',
        s.len() > 0 && s[0] == '/' ==> split_spec(s, '/')[0] == Seq::<char>::empty() && split_spec(s, '/').len()
            >= 2,
    decreases s.len(),
{
    if s.len() > 0 {
        let d = s.drop_last();
        lemma_split_facts(d);
        let r = split_spec(d, '/');
        let q = split_spec(s, '/');
        if s.last() == '/' {
            assert(q == r.push(Seq::<char>::empty()));
            assert(q.drop_last() =~= r);
            assert(join_segments(q) =~= d + seq!['/'] + Seq::<char>::empty());
            assert(s =~= d + seq!['/']);
            assert forall|i: int, j: int| 0 <= i < q.len() && 0 <= j < q[i].len() implies #[trigger] q[i][j]
                != '/' by {
                assert(i < r.len());
                assert(q[i] == r[i]);
            }
            if s.len() == 1 {
                assert(r == seq![Seq::<char>::empty()]);
            } else if s[0] == '/' {
                assert(d[0] == '/');
            }
        } else {
            let n = r.len() - 1;
            assert(q == r.update(n, r.last().push(s.last())));
            assert forall|i: int, j: int| 0 <= i < q.len() && 0 <= j < q[i].len() implies #[trigger] q[i][j]
                != '/' by {
                if i == n {
                    if j < r[n].len() {
                        assert(q[i][j] == r[n][j]);
                    } else {
                        assert(q[i][j] == s.last());
                    }
                } else {
                    assert(q[i] == r[i]);
                }
            }
            if r.len() == 1 {
                assert(join_segments(r) == r[0]);
                assert(join_segments(q) == q[0]);
                assert(q[0] =~= r[0].push(s.last()));
                assert(s =~= d.push(s.last()));
            } else {
                assert(q.drop_last() =~= r.drop_last());
                assert(join_segments(q) == join_segments(r.drop_last()) + seq!['/'] + r.last().push(s.last()));
                assert(join_segments(r) == join_segments(r.drop_last()) + seq!['/'] + r.last());
                assert(join_segments(q) =~= join_segments(r).push(s.last()));
                assert(s =~= d.push(s.last()));
            }
            if s[0] == '/' {
                assert(s.len() > 1);
                assert(d[0] == '/');
                assert(q[0] == r[0]);
            }
        }
    }
}

proof fn lemma_pointer_text_join(tokens: Seq<Seq<char>>)
    ensures
        pointer_text(tokens) == join_segments(
            seq![Seq::<char>::empty()] + Seq::new(tokens.len(), |i: int| escape_spec(tokens[i])),
        ),
    decreases tokens.len(),
{
    let q = seq![Seq::<char>::empty()] + Seq::new(tokens.len(), |i: int| escape_spec(tokens[i]));
    if tokens.len() == 0 {
        assert(q =~= seq![Seq::<char>::empty()]);
    } else {
        let d = tokens.drop_last();
        lemma_pointer_text_join(d);
        assert(q.drop_last() =~= seq![Seq::<char>::empty()] + Seq::new(d.len(), |i: int| escape_spec(d[i])));
        assert(q.last() == escape_spec(tokens.last()));
    }
}

/// Escaping a token read from a segment without `/` gives the segment back.
proof fn lemma_escape_unescape(x: Seq<char>, u: Seq<char>)
    requires
        unescape_spec(x) == Some(u),
        forall|j: int| 0 <= j < x.len() ==> #[trigger] x[j] != '/',
    ensures
        escape_spec(u) == x,
    decreases x.len(),
{
    if x.len() > 0 {
        if x[0] != '~' {
            let r = unescape_spec(x.drop_first())->Some_0;
            assert forall|j: int| 0 <= j < x.drop_first().len() implies #[trigger] x.drop_first()[j] != '/' by {
                assert(x.drop_first()[j] == x[j + 1]);
            }
            lemma_escape_unescape(x.drop_first(), r);
            assert(u == seq![x[0]] + r);
            assert(u[0] == x[0]);
            assert(u.drop_first() =~= r);
            assert(x =~= seq![x[0]] + x.drop_first());
        } else {
            let r = unescape_spec(x.skip(2))->Some_0;
            assert forall|j: int| 0 <= j < x.skip(2).len() implies #[trigger] x.skip(2)[j] != '/' by {
                assert(x.skip(2)[j] == x[j + 2]);
            }
            lemma_escape_unescape(x.skip(2), r);
            if x[1] == '0' {
                assert(u == seq!['~'] + r);
            } else {
                assert(u == seq!['/'] + r);
            }
            assert(u.drop_first() =~= r);
            assert(x =~= seq![x[0], x[1]] + x.skip(2));
        }
    }
}

proof fn lemma_unescape_all_facts(segs: Seq<Seq<char>>, t: Seq<Seq<char>>)
    requires
        unescape_all(segs) == Ok::<Seq<Seq<char>>, JsonPointerError>(t),
    ensures
        t.len() == segs.len(),
        forall|i: int| 0 <= i < t.len() ==> unescape_spec(#[trigger] segs[i]) == Some(t[i]),
    decreases segs.len(),
{
    if segs.len() > 0 {
        let rest = unescape_all(segs.drop_first())->Ok_0;
        lemma_unescape_all_facts(segs.drop_first(), rest);
        assert(t == seq![unescape_spec(segs[0])->Some_0] + rest);
        assert forall|i: int| 0 <= i < t.len() implies unescape_spec(#[trigger] segs[i]) == Some(t[i]) by {
            if i > 0 {
                assert(segs[i] == segs.drop_first()[i - 1]);
                assert(t[i] == rest[i - 1]);
            }
        }
    }
}

/// Writing a parsed pointer gives back the text it was parsed from, and it
/// has one token per `/` in that text.
pub proof fn lemma_pointer_text_of_parse(s: Seq<char>, tokens: Seq<Seq<char>>)
    requires
        parse_spec(s) == Ok::<Seq<Seq<char>>, JsonPointerError>(tokens),
    ensures
        pointer_text(tokens) == s,
        tokens.len() == count_char(s, '/'),
{
    if s.len() == 0 {
        assert(tokens == Seq::<Seq<char>>::empty());
    } else {
        let segs = split_spec(s, '/');
        lemma_split_facts(s);
        let rest = segs.drop_first();
        lemma_unescape_all_facts(rest, tokens);
        let q = seq![Seq::<char>::empty()] + Seq::new(tokens.len(), |i: int| escape_spec(tokens[i]));
        assert forall|i: int| 0 <= i < tokens.len() implies escape_spec(tokens[i]) == #[trigger] rest[i] by {
            assert(rest[i] == segs[i + 1]);
            assert forall|j: int| 0 <= j < rest[i].len() implies #[trigger] rest[i][j] != '/' by {
                assert(segs[i + 1][j] != '/');
            }
            lemma_escape_unescape(rest[i], tokens[i]);
        }
        assert(s[0] == '/');
        assert(q.len() == segs.len());
        assert forall|i: int| 0 <= i < q.len() implies q[i] == segs[i] by {
            if i > 0 {
                assert(q[i] == escape_spec(tokens[i - 1]));
                assert(rest[i - 1] == segs[i]);
            }
        }
        assert(q =~= segs);
        lemma_pointer_text_join(tokens);
    }
}

proof fn lemma_find_index_same_keys(
    pairs: Seq<(Seq<char>, Json)>,
    k: int,
    c: Json,
    key: Seq<char>,
)
    requires
        0 <= k < pairs.len(),
    ensures
        find_index(pairs.update(k, (pairs[k].0, c)), key) == find_index(pairs, key),
{
    let q = pairs.update(k, (pairs[k].0, c));
    lemma_find_index(pairs, key);
    match find_index(pairs, key) {
        Some(m) => {
            assert forall|j: int| 0 <= j < m implies #[trigger] q[j].0 != key by {
                assert(pairs[j].0 != key);
            }
            lemma_find_index_at(q, key, m);
        },
        None => {
            assert forall|j: int| 0 <= j < q.len() implies #[trigger] q[j].0 != key by {
                assert(pairs[j].0 != key);
            }
            lemma_find_index_at(q, key, q.len() as int);
        },
    }
}

/// A value can be written through a pointer exactly where reading through it
/// finds a value.
pub proof fn lemma_set_ok_iff_get_some(j: Json, tokens: Seq<Seq<char>>, replacement: Json)
    ensures
        path_set(j, tokens, replacement) is Ok <==> path_get(j, tokens) matches Ok(Some(_)),
    decreases tokens.len(),
{
    if tokens.len() > 0 {
        let t = tokens[0];
        match j {
            Json::Object(pairs) => {
                lemma_find_index(pairs, t);
                match find_index(pairs, t) {
                    Some(k) => lemma_set_ok_iff_get_some(
                        pairs[k].1,
                        tokens.drop_first(),
                        replacement,
                    ),
                    None => {},
                }
            },
            Json::Array(items) => {
                match array_index_spec(t) {
                    Ok(i) => {
                        if i < items.len() {
                            lemma_set_ok_iff_get_some(items[i], tokens.drop_first(), replacement);
                        }
                    },
                    Err(_) => {},
                }
            },
            _ => {},
        }
    }
}

/// Reading through a pointer after writing through it gives the written value.
pub proof fn lemma_get_after_set(j: Json, tokens: Seq<Seq<char>>, replacement: Json)
    requires
        path_set(j, tokens, replacement) is Ok,
    ensures
        path_get(path_set(j, tokens, replacement)->Ok_0, tokens) == Ok::<
            Option<Json>,
            JsonPointerError,
        >(Some(replacement)),
    decreases tokens.len(),
{
    if tokens.len() > 0 {
        let t = tokens[0];
        match j {
            Json::Object(pairs) => {
                lemma_find_index(pairs, t);
                let k = find_index(pairs, t)->Some_0;
                lemma_get_after_set(pairs[k].1, tokens.drop_first(), replacement);
                let c = path_set(pairs[k].1, tokens.drop_first(), replacement)->Ok_0;
                lemma_find_index_same_keys(pairs, k, c, t);
            },
            Json::Array(items) => {
                let i = array_index_spec(t)->Ok_0;
                lemma_array_index_range(t);
                assert(0 <= i < items.len());
                lemma_get_after_set(items[i], tokens.drop_first(), replacement);
                let c = path_set(items[i], tokens.drop_first(), replacement)->Ok_0;
                assert(items.update(i, c)[i] == c);
            },
            _ => {},
        }
    }
}

/// Writing through a pointer leaves every other object member where it was:
/// reading any path that does not start with the written one gives what it gave
/// before, when the first tokens differ.
pub proof fn lemma_set_keeps_other_members(
    pairs: Seq<(Seq<char>, Json)>,
    tokens: Seq<Seq<char>>,
    replacement: Json,
    other: Seq<char>,
)
    requires
        tokens.len() > 0,
        other != tokens[0],
        path_set(Json::Object(pairs), tokens, replacement) is Ok,
    ensures
        path_set(Json::Object(pairs), tokens, replacement)->Ok_0 matches Json::Object(q) && find_key(
            q,
            other,
        ) == find_key(pairs, other),
{
    let t = tokens[0];
    lemma_find_index(pairs, t);
    let k = find_index(pairs, t)->Some_0;
    let c = path_set(pairs[k].1, tokens.drop_first(), replacement)->Ok_0;
    let q = pairs.update(k, (pairs[k].0, c));
    lemma_find_index_same_keys(pairs, k, c, other);
    lemma_find_index(pairs, other);
    match find_index(pairs, other) {
        Some(m) => {
            assert(m != k);
            assert(q[m] == pairs[m]);
        },
        None => {},
    }
}

/// An RFC 6901 JSON Pointer: a sequence of reference tokens.
#[derive(Debug, Clone, PartialEq, Eq)]
pub struct JsonPointer(Vec<String>);

impl View for JsonPointer {
    type V = Seq<Seq<char>>;

    closed spec fn view(&self) -> Seq<Seq<char>> {
        token_models(self.0@)
    }
}

/// Copies each string of `v`.
pub fn clone_strings(v: &Vec<String>) -> (r: Vec<String>)
    ensures
        token_models(r@) == token_models(v@),
{
    let mut r: Vec<String> = Vec::new();
    let mut i: usize = 0;
    while i < v.len()
        invariant
            i <= v@.len(),
            r@.len() == i,
            forall|k: int| 0 <= k < i ==> #[trigger] r@[k]@ == v@[k]@,
        decreases v@.len() - i,
    {
        r.push(v[i].clone());
        i = i + 1;
    }
    proof {
        assert(token_models(r@) =~= token_models(v@));
    }
    r
}

/// The token `t` stands for, or `InvalidEscape`.
pub fn unescape_token(t: &Vec<char>) -> (r: Result<String, JsonPointerError>)
    ensures
        match r {
            Ok(s) => unescape_spec(t@) == Some(s@),
            Err(e) => unescape_spec(t@).is_none() && e == JsonPointerError::InvalidEscape,
        },
{
    let mut out: Vec<char> = Vec::new();
    let mut i: usize = 0;
    proof {
        assert(t@.skip(0) == t@);
        assert(out@ + t@ == t@);
    }
    while i < t.len()
        invariant
            i <= t@.len(),
            match unescape_spec(t@.skip(i as int)) {
                Some(r) => unescape_spec(t@) == Some(out@ + r),
                None => unescape_spec(t@).is_none(),
            },
        decreases t@.len() - i,
    {
        let ghost rest = t@.skip(i as int);
        if t[i] != '~' {
            proof {
                assert(rest.drop_first() == t@.skip(i + 1));
                match unescape_spec(t@.skip(i + 1)) {
                    Some(r) => {
                        assert(out@ + (seq![t@[i as int]] + r) == out@.push(t@[i as int]) + r);
                    },
                    None => {},
                }
            }
            out.push(t[i]);
            i = i + 1;
        } else if i + 1 < t.len() && (t[i + 1] == '0' || t[i + 1] == '1') {
            let c = if t[i + 1] == '0' { '~' } else { '/' };
            proof {
                assert(rest.skip(2) == t@.skip(i + 2));
                match unescape_spec(t@.skip(i + 2)) {
                    Some(r) => {
                        assert(out@ + (seq![c] + r) == out@.push(c) + r);
                    },
                    None => {},
                }
            }
            out.push(c);
            i = i + 2;
        } else {
            return Err(JsonPointerError::InvalidEscape);
        }
    }
    proof {
        assert(t@.skip(i as int).len() == 0);
        assert(out@ + Seq::<char>::empty() == out@);
    }
    Ok(string_from_chars(out.as_slice()))
}

/// The escaped text of token `t`.
pub fn escape_token(t: &String) -> (r: Vec<char>)
    ensures
        r@ == escape_spec(t@),
{
    let v = chars_of(t.as_str());
    let mut out: Vec<char> = Vec::new();
    let mut i: usize = 0;
    proof {
        assert(v@.skip(0) == v@);
        assert(out@ + escape_spec(v@) == escape_spec(v@));
    }
    while i < v.len()
        invariant
            i <= v@.len(),
            v@ == t@,
            escape_spec(t@) == out@ + escape_spec(v@.skip(i as int)),
        decreases v@.len() - i,
    {
        let c = v[i];
        proof {
            assert(v@.skip(i as int).drop_first() == v@.skip(i + 1));
            assert(v@.skip(i as int)[0] == c);
        }
        if c == '~' {
            out.push('~');
            out.push('0');
        } else if c == '/' {
            out.push('~');
            out.push('1');
        } else {
            out.push(c);
        }
        proof {
            assert(escape_spec(v@.skip(i as int)) == escape_char(c) + escape_spec(v@.skip(i + 1)));
        }
        i = i + 1;
    }
    proof {
        assert(v@.skip(i as int).len() == 0);
        assert(escape_spec(v@.skip(i as int)) == Seq::<char>::empty());
    }
    out
}

impl JsonPointer {
    /// The pointer to the whole document.
    pub fn root() -> (p: JsonPointer)
        ensures
            p@ == Seq::<Seq<char>>::empty(),
    {
        let p = JsonPointer(Vec::new());
        proof {
            assert(p@ =~= Seq::<Seq<char>>::empty());
        }
        p
    }

    /// Parses RFC 6901 text.
    pub fn parse(value: &str) -> (r: Result<JsonPointer, JsonPointerError>)
        ensures
            match r {
                Ok(p) => parse_spec(value@) == Ok::<Seq<Seq<char>>, JsonPointerError>(p@),
                Err(e) => parse_spec(value@) == Err::<Seq<Seq<char>>, JsonPointerError>(e),
            },
    {
        let chars = chars_of(value);
        if chars.len() == 0 {
            return Ok(JsonPointer::root());
        }
        if chars[0] != '/' {
            return Err(JsonPointerError::MustStartWithSlash);
        }
        let pieces = split_chars(&chars, '/');
        proof {
            lemma_split_nonempty(value@, '/');
            assert(value@[0] == '/');
        }
        let ghost segs = split_spec(value@, '/').drop_first();
        let mut tokens: Vec<String> = Vec::new();
        let mut k: usize = 1;
        proof {
            assert(segs.skip(0) == segs);
            assert(token_models(tokens@) + Seq::<Seq<char>>::empty() == token_models(tokens@));
        }
        while k < pieces.len()
            invariant
                1 <= k <= pieces@.len(),
                value@.len() > 0,
                value@[0] == '/',
                pieces@.len() == split_spec(chars@, '/').len(),
                forall|i: int| 0 <= i < pieces@.len() ==> #[trigger] pieces@[i]@ == split_spec(chars@, '/')[i],
                chars@ == value@,
                segs == split_spec(value@, '/').drop_first(),
                match unescape_all(segs.skip(k - 1)) {
                    Ok(rest) => unescape_all(segs) == Ok::<Seq<Seq<char>>, JsonPointerError>(
                        token_models(tokens@) + rest,
                    ),
                    Err(e) => unescape_all(segs) == Err::<Seq<Seq<char>>, JsonPointerError>(e),
                },
            decreases pieces@.len() - k,
        {
            let ghost rest = segs.skip(k - 1);
            proof {
                assert(rest[0] == pieces@[k as int]@);
                assert(rest.drop_first() == segs.skip(k as int));
            }
            match unescape_token(&pieces[k]) {
                Ok(tok) => {
                    let ghost tm = tok@;
                    proof {
                        match unescape_all(segs.skip(k as int)) {
                            Ok(r2) => {
                                assert(token_models(tokens@) + (seq![tm] + r2) == token_models(
                                    tokens@.push(tok),
                                ) + r2);
                            },
                            Err(_) => {},
                        }
                    }
                    tokens.push(tok);
                },
                Err(e) => {
                    proof {
                        assert(unescape_all(rest) == Err::<Seq<Seq<char>>, JsonPointerError>(
                            JsonPointerError::InvalidEscape,
                        ));
                    }
                    return Err(e);
                },
            }
            k = k + 1;
        }
        proof {
            assert(segs.skip(k - 1).len() == 0);
            assert(token_models(tokens@) + Seq::<Seq<char>>::empty() == token_models(tokens@));
        }
        Ok(JsonPointer(tokens))
    }

    /// The reference tokens, unescaped.
    pub fn tokens(&self) -> (r: &[String])
        ensures
            token_models(r@) == self@,
    {
        self.0.as_slice()
    }

    /// The RFC 6901 text of this pointer (its `Display`).
    pub fn to_string(&self) -> (s: String)
        ensures
            s@ == pointer_text(self@),
    {
        let mut out: Vec<char> = Vec::new();
        let mut i: usize = 0;
        let ghost tm = self@;
        proof {
            assert(tm.take(0) == Seq::<Seq<char>>::empty());
        }
        while i < self.0.len()
            invariant
                i <= self.0@.len(),
                tm == token_models(self.0@),
                out@ == pointer_text(tm.take(i as int)),
            decreases self.0@.len() - i,
        {
            let e = escape_token(&self.0[i]);
            proof {
                assert(tm.take(i + 1).drop_last() == tm.take(i as int));
                assert(tm.take(i + 1).last() == self.0@[i as int]@);
            }
            out.push('/');
            let ghost before = out@;
            let mut j: usize = 0;
            while j < e.len()
                invariant
                    j <= e@.len(),
                    out@ == before + e@.take(j as int),
                decreases e@.len() - j,
            {
                out.push(e[j]);
                proof {
                    assert(e@.take(j + 1) == e@.take(j as int).push(e@[j as int]));
                }
                j = j + 1;
            }
            proof {
                assert(e@.take(j as int) == e@);
            }
            i = i + 1;
        }
        proof {
            assert(tm.take(i as int) == tm);
        }
        string_from_chars(out.as_slice())
    }

    /// Resolves this pointer against `value` (see [`path_get`]).
    pub fn get<'a>(&self, value: &'a JsonValue) -> (r: Result<Option<&'a JsonValue>, JsonPointerError>)
        ensures
            match r {
                Ok(Some(v)) => path_get(value@, self@) == Ok::<Option<Json>, JsonPointerError>(
                    Some(v@),
                ),
                Ok(None) => path_get(value@, self@) == Ok::<Option<Json>, JsonPointerError>(None),
                Err(e) => path_get(value@, self@) == Err::<Option<Json>, JsonPointerError>(e),
            },
    {
        value.get_path(&self.0)
    }

    /// `root` with this pointer's target replaced (see [`path_set`]).
    pub fn set(&self, root: JsonValue, replacement: JsonValue) -> (r: Result<JsonValue, JsonPointerError>)
        ensures
            match r {
                Ok(v) => path_set(root@, self@, replacement@) == Ok::<Json, JsonPointerError>(v@),
                Err(e) => path_set(root@, self@, replacement@) == Err::<Json, JsonPointerError>(e),
            },
    {
        proof {
            assert(token_models(self.0@).skip(0) == token_models(self.0@));
        }
        root.set_path(&self.0, 0, replacement)
    }

    /// A copy of this pointer.
    pub fn duplicate(&self) -> (r: JsonPointer)
        ensures
            r@ == self@,
    {
        JsonPointer(clone_strings(&self.0))
    }

    /// Same tokens (the derived `==`).
    pub fn same_as(&self, other: &JsonPointer) -> (r: bool)
        ensures
            r == (self@ == other@),
    {
        if self.0.len() != other.0.len() {
            proof {
                assert(self@.len() != other@.len());
            }
            return false;
        }
        let mut i: usize = 0;
        while i < self.0.len()
            invariant
                i <= self.0@.len(),
                self.0@.len() == other.0@.len(),
                forall|k: int| 0 <= k < i ==> #[trigger] self.0@[k]@ == other.0@[k]@,
            decreases self.0@.len() - i,
        {
            if self.0[i] != other.0[i] {
                proof {
                    assert(self@[i as int] != other@[i as int]);
                }
                return false;
            }
            i = i + 1;
        }
        proof {
            assert(self@ =~= other@);
        }
        true
    }

    /// Sorts strictly before `other` (the derived `<`).
    pub fn less_than(&self, other: &JsonPointer) -> (r: bool)
        ensures
            r == tokens_lt(self@, other@),
    {
        let ghost a = self@;
        let ghost b = other@;
        let mut i: usize = 0;
        proof {
            assert(a.skip(0) == a);
            assert(b.skip(0) == b);
        }
        while i < self.0.len() && i < other.0.len() && self.0[i] == other.0[i]
            invariant
                a == token_models(self.0@),
                b == token_models(other.0@),
                i <= self.0@.len(),
                i <= other.0@.len(),
                tokens_lt(a, b) == tokens_lt(a.skip(i as int), b.skip(i as int)),
            decreases self.0@.len() - i,
        {
            proof {
                assert(a.skip(i as int).drop_first() == a.skip(i + 1));
                assert(b.skip(i as int).drop_first() == b.skip(i + 1));
            }
            i = i + 1;
        }
        proof {
            if i < self.0@.len() {
                assert(a.skip(i as int)[0] == a[i as int]);
            }
            if i < other.0@.len() {
                assert(b.skip(i as int)[0] == b[i as int]);
            }
        }
        if i == other.0.len() {
            false
        } else if i == self.0.len() {
            true
        } else {
            string_less(&self.0[i], &other.0[i])
        }
    }
}

} // verus!
