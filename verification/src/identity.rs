//! Contract identity: slug, positive version, and SHA-256 content hash.

use vstd::prelude::*;

use crate::text::{chars_of, split_chars, split_spec, string_from_chars};

verus! {

/// The name the digest computed by `sha2::Sha256` gives to `data`.
pub uninterp spec fn sha256_digest(data: Seq<u8>) -> Seq<u8>;

/// Trusted: `sha2::Sha256::digest`, a 32-byte SHA-256 digest.
#[verifier::external_body]
pub(crate) fn sha256(data: &[u8]) -> (r: [u8; 32])
    ensures
        r@ == sha256_digest(data@),
{
    <sha2::Sha256 as sha2::Digest>::digest(data).into()
}

#[derive(Debug, Clone, Copy, PartialEq, Eq, Structural)]
pub enum IdentityError {
    EmptySlug,
    InvalidSlug,
    NonPositiveVersion,
    InvalidHash,
}

impl IdentityError {
    pub open spec fn message_spec(self) -> Seq<char> {
        match self {
            IdentityError::EmptySlug => "contract slug must not be empty"@,
            IdentityError::InvalidSlug => "contract slug must be lowercase kebab-case"@,
            IdentityError::NonPositiveVersion => "contract version must be positive"@,
            IdentityError::InvalidHash => "content hash must be 64 hexadecimal characters"@,
        }
    }

    /// The error's display text.
    pub fn message(self) -> (s: &'static str)
        ensures
            s@ == self.message_spec(),
    {
        match self {
            IdentityError::EmptySlug => "contract slug must not be empty",
            IdentityError::InvalidSlug => "contract slug must be lowercase kebab-case",
            IdentityError::NonPositiveVersion => "contract version must be positive",
            IdentityError::InvalidHash => "content hash must be 64 hexadecimal characters",
        }
    }
}

/// A lowercase ASCII letter or an ASCII digit.
pub open spec fn slug_char(c: char) -> bool {
    ('a' <= c && c <= 'z') || ('0' <= c && c <= '9')
}

/// Lowercase kebab-case: `-`-separated parts, none empty, each of lowercase
/// letters and digits.
pub open spec fn slug_valid(s: Seq<char>) -> bool {
    let parts = split_spec(s, '-');
    forall|i: int| 0 <= i < parts.len() ==> (#[trigger] parts[i]).len() > 0 && forall|j: int|
        0 <= j < parts[i].len() ==> slug_char(#[trigger] parts[i][j])
}

/// A contract's lowercase kebab-case name.
#[derive(Debug, PartialEq, Eq, PartialOrd, Ord, Hash)]
pub struct ContractSlug(String);

impl Clone for ContractSlug {
    fn clone(&self) -> (r: ContractSlug)
        ensures
            r@ == self@,
    {
        proof {
            use_type_invariant(self);
        }
        ContractSlug(self.0.clone())
    }
}

impl View for ContractSlug {
    type V = Seq<char>;

    closed spec fn view(&self) -> Seq<char> {
        self.0@
    }
}

impl ContractSlug {
    #[verifier::type_invariant]
    spec fn valid(&self) -> bool {
        self.0@.len() > 0 && slug_valid(self.0@)
    }

    /// Accepts a non-empty lowercase kebab-case name.
    pub fn new(value: String) -> (r: Result<ContractSlug, IdentityError>)
        ensures
            match r {
                Ok(s) => s@ == value@ && value@.len() > 0 && slug_valid(value@),
                Err(e) => if value@.len() == 0 {
                    e == IdentityError::EmptySlug
                } else {
                    e == IdentityError::InvalidSlug && !slug_valid(value@)
                },
            },
    {
        let v = chars_of(value.as_str());
        if v.len() == 0 {
            return Err(IdentityError::EmptySlug);
        }
        let parts = split_chars(&v, '-');
        let ghost ps = split_spec(value@, '-');
        let mut i: usize = 0;
        while i < parts.len()
            invariant
                i <= parts@.len(),
                v@ == value@,
                value@.len() > 0,
                ps == split_spec(value@, '-'),
                parts@.len() == ps.len(),
                forall|k: int| 0 <= k < parts@.len() ==> #[trigger] parts@[k]@ == ps[k],
                forall|k: int| 0 <= k < i ==> (#[trigger] ps[k]).len() > 0 && forall|j: int|
                    0 <= j < ps[k].len() ==> slug_char(#[trigger] ps[k][j]),
            decreases parts@.len() - i,
        {
            let part = &parts[i];
            if part.len() == 0 {
                proof {
                    assert(ps[i as int].len() == 0);
                }
                return Err(IdentityError::InvalidSlug);
            }
            let mut j: usize = 0;
            while j < part.len()
                invariant
                    i < ps.len(),
                    value@.len() > 0,
                    ps == split_spec(value@, '-'),
                    j <= part@.len(),
                    part@ == ps[i as int],
                    forall|m: int| 0 <= m < j ==> slug_char(#[trigger] ps[i as int][m]),
                decreases part@.len() - j,
            {
                let c = part[j];
                if !(('a' <= c && c <= 'z') || ('0' <= c && c <= '9')) {
                    proof {
                        assert(!slug_char(ps[i as int][j as int]));
                    }
                    return Err(IdentityError::InvalidSlug);
                }
                j = j + 1;
            }
            i = i + 1;
        }
        Ok(ContractSlug(value))
    }

    pub fn as_str(&self) -> (s: &str)
        ensures
            s@ == self@,
    {
        self.0.as_str()
    }

    /// The slug is never empty and always kebab-case.
    pub fn valid_view(&self)
        ensures
            self@.len() > 0,
            slug_valid(self@),
    {
        proof {
            use_type_invariant(self);
        }
    }
}

/// A version number greater than zero.
#[derive(Debug, Clone, Copy, PartialEq, Eq, Structural, PartialOrd, Ord, Hash)]
pub struct PositiveVersion(u32);

impl View for PositiveVersion {
    type V = u32;

    closed spec fn view(&self) -> u32 {
        self.0
    }
}

impl PositiveVersion {
    #[verifier::type_invariant]
    spec fn positive(&self) -> bool {
        self.0 > 0
    }

    pub fn new(value: u32) -> (r: Result<PositiveVersion, IdentityError>)
        ensures
            match r {
                Ok(v) => value > 0 && v@ == value,
                Err(e) => value == 0 && e == IdentityError::NonPositiveVersion,
            },
    {
        if value > 0 {
            Ok(PositiveVersion(value))
        } else {
            Err(IdentityError::NonPositiveVersion)
        }
    }

    pub fn get(self) -> (v: u32)
        ensures
            v == self@,
            v > 0,
    {
        proof {
            use_type_invariant(&self);
        }
        self.0
    }
}

/// The lowercase hexadecimal digit of `n` in `0..16`.
pub open spec fn hex_char(n: u8) -> char {
    if n < 10 {
        (n + 48) as char
    } else {
        (n + 87) as char
    }
}

/// Two lowercase hexadecimal digits per byte (`{:02x}`).
pub open spec fn hex_text(bytes: Seq<u8>) -> Seq<char>
    decreases bytes.len(),
{
    if bytes.len() == 0 {
        Seq::empty()
    } else {
        hex_text(bytes.drop_last()) + seq![hex_char(bytes.last() / 16), hex_char(bytes.last() % 16)]
    }
}

/// An ASCII hexadecimal digit, either case.
pub open spec fn is_hex(c: char) -> bool {
    ('0' <= c && c <= '9') || ('a' <= c && c <= 'f') || ('A' <= c && c <= 'F')
}

/// The value of a hexadecimal digit.
pub open spec fn hex_value(c: char) -> int {
    if '0' <= c && c <= '9' {
        c as int - 48
    } else if 'a' <= c && c <= 'f' {
        c as int - 87
    } else {
        c as int - 55
    }
}

/// The bytes that 64 hexadecimal digits spell, two digits per byte.
pub open spec fn hex_bytes(s: Seq<char>) -> Seq<u8> {
    Seq::new(32, |i: int| (hex_value(s[2 * i]) * 16 + hex_value(s[2 * i + 1])) as u8)
}

/// A SHA-256 digest.
#[derive(Debug, Clone, Copy, PartialEq, Eq, PartialOrd, Ord, Hash)]
pub struct Sha256ContentHash([u8; 32]);

impl View for Sha256ContentHash {
    type V = Seq<u8>;

    closed spec fn view(&self) -> Seq<u8> {
        self.0@
    }
}

fn nibble_char(n: u8) -> (c: char)
    requires
        n < 16,
    ensures
        c == hex_char(n),
{
    if n < 10 {
        crate::text::char_from_ascii_code((n + 48) as u32)
    } else {
        crate::text::char_from_ascii_code((n + 87) as u32)
    }
}

fn hex_nibble(c: char) -> (n: u8)
    requires
        is_hex(c),
    ensures
        n as int == hex_value(c),
        n < 16,
{
    let v = c as u32;
    if '0' <= c && c <= '9' {
        (v - 48) as u8
    } else if 'a' <= c && c <= 'f' {
        (v - 87) as u8
    } else {
        (v - 55) as u8
    }
}

/// Two lowercase hexadecimal digits per byte of `bytes`.
pub fn hex_string(bytes: &[u8]) -> (s: String)
    ensures
        s@ == hex_text(bytes@),
{
    let mut out: Vec<char> = Vec::new();
    let mut i: usize = 0;
    while i < bytes.len()
        invariant
            i <= bytes@.len(),
            out@ == hex_text(bytes@.take(i as int)),
        decreases bytes@.len() - i,
    {
        let b = bytes[i];
        proof {
            assert(bytes@.take(i + 1).drop_last() == bytes@.take(i as int));
            assert(bytes@.take(i + 1).last() == b);
        }
        out.push(nibble_char(b / 16));
        out.push(nibble_char(b % 16));
        i = i + 1;
    }
    proof {
        assert(bytes@.take(i as int) == bytes@);
    }
    string_from_chars(out.as_slice())
}

impl Sha256ContentHash {
    pub fn from_bytes(bytes: [u8; 32]) -> (h: Sha256ContentHash)
        ensures
            h@ == bytes@,
    {
        Sha256ContentHash(bytes)
    }

    /// The SHA-256 digest of `content`.
    pub fn from_content(content: &[u8]) -> (h: Sha256ContentHash)
        ensures
            h@ == sha256_digest(content@),
    {
        Sha256ContentHash(sha256(content))
    }

    pub fn as_bytes(&self) -> (b: &[u8; 32])
        ensures
            b@ == self@,
    {
        &self.0
    }

    /// 64 lowercase hexadecimal digits.
    /// Two lowercase hexadecimal digits per byte (`{:02x}`), which read
    /// back as this hash.
    pub fn as_hex(&self) -> (s: String)
        ensures
            s@ == hex_text(self@),
            s@.len() == 64,
            forall|i: int|
                #![trigger self@[i]]
                0 <= i < 32 ==> s@[2 * i] == hex_char(self@[i] / 16) && s@[2 * i + 1] == hex_char(
                    self@[i] % 16,
                ),
            forall|k: int| 0 <= k < 64 ==> ('0' <= #[trigger] s@[k] <= '9' || 'a' <= s@[k] <= 'f'),
            hex_bytes(s@) == self@,
    {
        proof {
            lemma_hex_text_props(self@);
            lemma_hex_round_trip(self@);
            lemma_hex_text_lowercase(self@);
        }
        hex_string(&self.0)
    }

    /// Parses 64 hexadecimal digits (either case).
    pub fn from_hex(value: &str) -> (r: Result<Sha256ContentHash, IdentityError>)
        ensures
            match r {
                Ok(h) => value@.len() == 64 && (forall|i: int| 0 <= i < 64 ==> is_hex(#[trigger] value@[i]))
                    && h@ == hex_bytes(value@),
                Err(e) => e == IdentityError::InvalidHash && !(value@.len() == 64 && forall|i: int|
                    0 <= i < 64 ==> is_hex(#[trigger] value@[i])),
            },
    {
        let v = chars_of(value);
        if v.len() != 64 {
            return Err(IdentityError::InvalidHash);
        }
        let mut i: usize = 0;
        while i < 64
            invariant
                i <= 64,
                v@ == value@,
                v@.len() == 64,
                forall|k: int| 0 <= k < i ==> is_hex(#[trigger] v@[k]),
            decreases 64 - i,
        {
            let c = v[i];
            if !(('0' <= c && c <= '9') || ('a' <= c && c <= 'f') || ('A' <= c && c <= 'F')) {
                proof {
                    assert(!is_hex(v@[i as int]));
                }
                return Err(IdentityError::InvalidHash);
            }
            i = i + 1;
        }
        let mut bytes: [u8; 32] = [0; 32];
        let mut k: usize = 0;
        while k < 32
            invariant
                k <= 32,
                v@ == value@,
                v@.len() == 64,
                forall|m: int| 0 <= m < 64 ==> is_hex(#[trigger] v@[m]),
                bytes@.len() == 32,
                forall|m: int| 0 <= m < k ==> #[trigger] bytes@[m] == hex_bytes(v@)[m],
            decreases 32 - k,
        {
            let hi = hex_nibble(v[2 * k]);
            let lo = hex_nibble(v[2 * k + 1]);
            bytes[k] = hi * 16 + lo;
            k = k + 1;
        }
        proof {
            assert(bytes@ =~= hex_bytes(value@));
        }
        Ok(Sha256ContentHash(bytes))
    }
}

impl core::str::FromStr for Sha256ContentHash {
    type Err = IdentityError;

    /// Reads 64 hexadecimal digits, as `from_hex` does.
    fn from_str(value: &str) -> (r: Result<Sha256ContentHash, IdentityError>)
        ensures
            match r {
                Ok(h) => value@.len() == 64 && (forall|i: int| 0 <= i < 64 ==> is_hex(#[trigger] value@[i]))
                    && h@ == hex_bytes(value@),
                Err(e) => e == IdentityError::InvalidHash && !(value@.len() == 64 && forall|i: int|
                    0 <= i < 64 ==> is_hex(#[trigger] value@[i])),
            },
    {
        Sha256ContentHash::from_hex(value)
    }
}

/// The hexadecimal text of bytes has two digits per byte: the high nibble's
/// digit, then the low nibble's.
pub proof fn lemma_hex_text_props(b: Seq<u8>)
    ensures
        hex_text(b).len() == 2 * b.len(),
        forall|i: int|
            #![trigger b[i]]
            0 <= i < b.len() ==> hex_text(b)[2 * i] == hex_char(b[i] / 16) && hex_text(b)[2 * i + 1]
                == hex_char(b[i] % 16),
    decreases b.len(),
{
    if b.len() > 0 {
        let d = b.drop_last();
        lemma_hex_text_props(d);
        assert(hex_text(b) == hex_text(d) + seq![hex_char(b.last() / 16), hex_char(b.last() % 16)]);
        assert forall|i: int|
            #![trigger b[i]]
            0 <= i < b.len() implies hex_text(b)[2 * i] == hex_char(b[i] / 16) && hex_text(b)[2 * i + 1]
                == hex_char(b[i] % 16) by {
            if i < b.len() - 1 {
                assert(d[i] == b[i]);
                assert(hex_text(b)[2 * i] == hex_text(d)[2 * i]);
                assert(hex_text(b)[2 * i + 1] == hex_text(d)[2 * i + 1]);
            }
        }
    }
}

/// The hexadecimal text of bytes uses only `0`-`9` and lowercase `a`-`f`.
pub proof fn lemma_hex_text_lowercase(b: Seq<u8>)
    ensures
        forall|k: int| 0 <= k < hex_text(b).len() ==> ('0' <= #[trigger] hex_text(b)[k] <= '9' || 'a' <= hex_text(b)[k] <= 'f'),
{
    lemma_hex_text_props(b);
    assert forall|k: int| 0 <= k < hex_text(b).len() implies ('0' <= #[trigger] hex_text(b)[k] <= '9' || 'a'
        <= hex_text(b)[k] <= 'f') by {
        let i = k / 2;
        assert(0 <= i < b.len());
        let n: u8 = if k % 2 == 0 { b[i] / 16 } else { b[i] % 16 };
        if k % 2 == 0 {
            assert(k == 2 * i);
            assert(hex_text(b)[k] == hex_char(b[i] / 16));
        } else {
            assert(k == 2 * i + 1);
            assert(hex_text(b)[k] == hex_char(b[i] % 16));
        }
        assert(n < 16);
        assert(hex_text(b)[k] == hex_char(n));
    }
}

/// Reading back the hexadecimal text of a hash gives the same hash.
pub proof fn lemma_hex_round_trip(bytes: Seq<u8>)
    requires
        bytes.len() == 32,
    ensures
        hex_text(bytes).len() == 64,
        forall|i: int| 0 <= i < 64 ==> is_hex(#[trigger] hex_text(bytes)[i]),
        hex_bytes(hex_text(bytes)) == bytes,
{
    lemma_hex_text_props(bytes);
    let t = hex_text(bytes);
    assert forall|i: int| 0 <= i < 64 implies is_hex(#[trigger] t[i]) by {
        let k = i / 2;
        if i % 2 == 0 {
            assert(t[2 * k] == hex_char(bytes[k] / 16));
        } else {
            assert(i == 2 * k + 1);
            assert(t[2 * k + 1] == hex_char(bytes[k] % 16));
        }
    }
    assert forall|k: int| 0 <= k < 32 implies #[trigger] hex_bytes(t)[k] == bytes[k] by {
        assert(t[2 * k] == hex_char(bytes[k] / 16));
        assert(t[2 * k + 1] == hex_char(bytes[k] % 16));
    }
    assert(hex_bytes(t) =~= bytes);
}

/// The immutable identity `(slug, version, content_hash)`. Slug and version
/// are labels; the content hash is the canonical semantic SHA-256.
#[derive(Debug, Clone, PartialEq, Eq, Hash)]
pub struct ContractIdentity {
    slug: ContractSlug,
    version: PositiveVersion,
    content_hash: Sha256ContentHash,
}

impl ContractIdentity {
    pub closed spec fn slug_spec(&self) -> Seq<char> {
        self.slug@
    }

    pub closed spec fn version_spec(&self) -> u32 {
        self.version@
    }

    pub closed spec fn hash_spec(&self) -> Seq<u8> {
        self.content_hash@
    }

    pub fn new(slug: ContractSlug, version: PositiveVersion, content_hash: Sha256ContentHash) -> (c: ContractIdentity)
        ensures
            c.slug_spec() == slug@,
            c.version_spec() == version@,
            c.hash_spec() == content_hash@,
    {
        ContractIdentity { slug, version, content_hash }
    }

    pub fn slug(&self) -> (s: &ContractSlug)
        ensures
            s@ == self.slug_spec(),
    {
        &self.slug
    }

    pub fn version(&self) -> (v: PositiveVersion)
        ensures
            v@ == self.version_spec(),
    {
        self.version
    }

    pub fn content_hash(&self) -> (h: Sha256ContentHash)
        ensures
            h@ == self.hash_spec(),
    {
        self.content_hash
    }
}

} // verus!
