//! Supported document media types.

use vstd::prelude::*;

use crate::text::{
    ascii_lower_seq, chars_eq_str, chars_of, is_ws, ltrim, rtrim, split_spec, string_from_chars, subvec,
    to_ascii_lowercase, trim, trim_chars,
};

verus! {

/// A file type that is not one of the supported document types.
#[derive(Debug, Clone, PartialEq, Eq)]
pub enum MimeTypeError {
    Unsupported(String),
}

/// The display text refusing the file type `t`.
pub open spec fn unsupported_message(t: Seq<char>) -> Seq<char> {
    "unsupported file type `"@ + t
        + "`; supported types are: application/pdf, image/png, image/jpeg, image/gif, image/webp"@
}

impl MimeTypeError {
    pub open spec fn message_spec(&self) -> Seq<char> {
        match self {
            MimeTypeError::Unsupported(t) => unsupported_message(t@),
        }
    }

    /// The error's display text.
    pub fn message(&self) -> (s: String)
        ensures
            s@ == self.message_spec(),
    {
        match self {
            MimeTypeError::Unsupported(t) => {
                let mut v = chars_of("unsupported file type `");
                crate::text::append_str(&mut v, t.as_str());
                crate::text::append_str(
                    &mut v,
                    "`; supported types are: application/pdf, image/png, image/jpeg, image/gif, image/webp",
                );
                string_from_chars(v.as_slice())
            },
        }
    }
}

/// The text before the first `;` (all of it when there is none).
pub open spec fn before_semicolon(s: Seq<char>) -> Seq<char> {
    split_spec(s, ';')[0]
}

/// The lookup key: the part before `;`, trimmed, ASCII-lowercased, without
/// one leading `.`.
pub open spec fn mime_key(s: Seq<char>) -> Seq<char> {
    let l = ascii_lower_seq(trim(before_semicolon(s)));
    if l.len() > 0 && l[0] == '.' {
        l.drop_first()
    } else {
        l
    }
}

/// The MIME type a lookup key names, if supported.
pub open spec fn mime_for(k: Seq<char>) -> Option<Seq<char>> {
    if k == "pdf"@ || k == "application/pdf"@ {
        Some("application/pdf"@)
    } else if k == "png"@ || k == "image/png"@ {
        Some("image/png"@)
    } else if k == "jpg"@ || k == "jpeg"@ || k == "image/jpeg"@ || k == "image/jpg"@ {
        Some("image/jpeg"@)
    } else if k == "gif"@ || k == "image/gif"@ {
        Some("image/gif"@)
    } else if k == "webp"@ || k == "image/webp"@ {
        Some("image/webp"@)
    } else {
        None
    }
}

proof fn lemma_split_first(s: Seq<char>, sep: char, k: int)
    requires
        0 <= k <= s.len(),
        forall|j: int| 0 <= j < k ==> s[j] != sep,
    ensures
        split_spec(s.take(k), sep).len() == 1,
        split_spec(s.take(k), sep)[0] == s.take(k),
    decreases k,
{
    if k > 0 {
        lemma_split_first(s, sep, k - 1);
        assert(s.take(k).drop_last() == s.take(k - 1));
        assert(s.take(k).last() == s[k - 1]);
        assert(s.take(k - 1).push(s[k - 1]) == s.take(k));
    } else {
        assert(s.take(0) == Seq::<char>::empty());
    }
}

proof fn lemma_split_head(s: Seq<char>, sep: char, k: int, m: int)
    requires
        0 <= k < m <= s.len(),
        s[k] == sep,
        forall|j: int| 0 <= j < k ==> s[j] != sep,
    ensures
        split_spec(s.take(m), sep).len() >= 2,
        split_spec(s.take(m), sep)[0] == s.take(k),
    decreases m,
{
    assert(s.take(m).drop_last() == s.take(m - 1));
    assert(s.take(m).last() == s[m - 1]);
    if m == k + 1 {
        lemma_split_first(s, sep, k);
    } else {
        lemma_split_head(s, sep, k, m - 1);
    }
}

/// Text of lowercase letters and `/` is its own lookup key.
proof fn lemma_mime_key_plain(s: Seq<char>)
    requires
        s.len() > 0,
        forall|i: int| 0 <= i < s.len() ==> ('a' <= #[trigger] s[i] && s[i] <= 'z') || s[i] == '/',
    ensures
        mime_key(s) == s,
{
    lemma_split_first(s, ';', s.len() as int);
    assert(s.take(s.len() as int) == s);
    assert(before_semicolon(s) == s);
    assert(!is_ws(s[0]));
    assert(ltrim(s) == s);
    assert(!is_ws(s.last()));
    assert(rtrim(s) == s);
    assert(ascii_lower_seq(s) =~= s);
}

/// Every supported IANA media type is its own MIME type.
pub proof fn lemma_media_types_map_to_themselves()
    ensures
        mime_for(mime_key("application/pdf"@)) == Some("application/pdf"@),
        mime_for(mime_key("image/png"@)) == Some("image/png"@),
        mime_for(mime_key("image/jpeg"@)) == Some("image/jpeg"@),
        mime_for(mime_key("image/gif"@)) == Some("image/gif"@),
        mime_for(mime_key("image/webp"@)) == Some("image/webp"@),
{
    reveal_strlit("application/pdf");
    reveal_strlit("image/png");
    reveal_strlit("image/jpeg");
    reveal_strlit("image/gif");
    reveal_strlit("image/webp");
    reveal_strlit("pdf");
    reveal_strlit("png");
    reveal_strlit("jpg");
    reveal_strlit("jpeg");
    reveal_strlit("image/jpg");
    reveal_strlit("gif");
    reveal_strlit("webp");
    lemma_mime_key_plain("application/pdf"@);
    lemma_mime_key_plain("image/png"@);
    lemma_mime_key_plain("image/jpeg"@);
    lemma_mime_key_plain("image/gif"@);
    lemma_mime_key_plain("image/webp"@);
}

/// Normalizing is idempotent: the MIME type any file type normalizes to
/// normalizes to itself.
pub proof fn lemma_normalized_type_is_fixed(file_type: Seq<char>)
    ensures
        mime_for(mime_key(file_type)) matches Some(m) ==> mime_for(mime_key(m)) == Some(m),
{
    lemma_media_types_map_to_themselves();
}

/// Maps a supported file extension or IANA media type to its MIME type.
pub fn normalize_mime_type(file_type: &str) -> (r: Result<&'static str, MimeTypeError>)
    ensures
        match r {
            Ok(m) => mime_for(mime_key(file_type@)) == Some(m@),
            Err(MimeTypeError::Unsupported(t)) => mime_for(mime_key(file_type@)).is_none() && t@
                == trim(file_type@),
        },
{
    let v = chars_of(file_type);
    let mut k: usize = 0;
    while k < v.len() && v[k] != ';'
        invariant
            k <= v@.len(),
            v@ == file_type@,
            forall|j: int| 0 <= j < k ==> v@[j] != ';',
        decreases v@.len() - k,
    {
        k = k + 1;
    }
    let head = subvec(&v, 0, k);
    proof {
        lemma_split_first(v@, ';', k as int);
        assert(head@ == v@.take(k as int));
        assert(v@.take(v@.len() as int) == v@);
        if k < v@.len() {
            lemma_split_head(v@, ';', k as int, v@.len() as int);
        }
    }
    let t = trim_chars(&head);
    let l = to_ascii_lowercase(t.as_slice());
    let key = if l.len() > 0 && l[0] == '.' {
        subvec(&l, 1, l.len())
    } else {
        l
    };
    proof {
        reveal_strlit("pdf");
        reveal_strlit("application/pdf");
        reveal_strlit("png");
        reveal_strlit("image/png");
        reveal_strlit("jpg");
        reveal_strlit("jpeg");
        reveal_strlit("image/jpeg");
        reveal_strlit("image/jpg");
        reveal_strlit("gif");
        reveal_strlit("image/gif");
        reveal_strlit("webp");
        reveal_strlit("image/webp");
        if l@.len() > 0 && l@[0] == '.' {
            assert(key@ == l@.drop_first());
        }
    }
    let k = key.as_slice();
    if chars_eq_str(k, "pdf") || chars_eq_str(k, "application/pdf") {
        Ok("application/pdf")
    } else if chars_eq_str(k, "png") || chars_eq_str(k, "image/png") {
        Ok("image/png")
    } else if chars_eq_str(k, "jpg") || chars_eq_str(k, "jpeg") || chars_eq_str(k, "image/jpeg")
        || chars_eq_str(k, "image/jpg") {
        Ok("image/jpeg")
    } else if chars_eq_str(k, "gif") || chars_eq_str(k, "image/gif") {
        Ok("image/gif")
    } else if chars_eq_str(k, "webp") || chars_eq_str(k, "image/webp") {
        Ok("image/webp")
    } else {
        let all = trim_chars(&v);
        Err(MimeTypeError::Unsupported(string_from_chars(all.as_slice())))
    }
}

} // verus!
