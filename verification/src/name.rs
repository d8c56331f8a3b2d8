//! Lump names: eight bytes, NUL-padded, read as text up to the first NUL.

use vstd::prelude::*;
use vstd::slice::slice_subrange;
use vstd::string::StringSliceAdditionalSpecFns;
use vstd::utf8::*;
use crate::error::WadError;

verus! {

/// The width of the name field of a directory record.
pub const NAME_LEN: usize = 8;

/// How many bytes of `raw` come before its first NUL: all of them where it
/// holds none.
pub open spec fn text_len(raw: Seq<u8>) -> nat
    decreases raw.len(),
{
    if raw.len() == 0 || raw[0] == 0 {
        0
    } else {
        1 + text_len(raw.drop_first())
    }
}

/// The bytes of `raw` that are read as text.
pub open spec fn name_bytes(raw: Seq<u8>) -> Seq<u8> {
    raw.take(text_len(raw) as int)
}

/// Every byte after the first NUL is NUL too.
pub open spec fn is_padded(raw: Seq<u8>) -> bool {
    forall|i: int| text_len(raw) <= i < raw.len() ==> raw[i] == 0
}

/// `raw` with everything from its first NUL on replaced by NUL.
pub open spec fn padded(raw: Seq<u8>) -> Seq<u8> {
    Seq::new(
        raw.len(),
        |i: int|
            if i < text_len(raw) {
                raw[i]
            } else {
                0u8
            },
    )
}

/// The text of a name field is well-formed UTF-8.
pub open spec fn is_text(raw: Seq<u8>) -> bool {
    valid_utf8(name_bytes(raw))
}

/// `text_len` is the one index that has no NUL before it and either a NUL
/// at it or the end of the bytes.
pub proof fn lemma_text_len(raw: Seq<u8>)
    ensures
        text_len(raw) <= raw.len(),
        forall|i: int| 0 <= i < text_len(raw) ==> raw[i] != 0,
        text_len(raw) < raw.len() ==> raw[text_len(raw) as int] == 0,
    decreases raw.len(),
{
    if raw.len() > 0 && raw[0] != 0 {
        let rest = raw.drop_first();
        lemma_text_len(rest);
        assert forall|i: int| 0 <= i < text_len(raw) implies raw[i] != 0 by {
            if i > 0 {
                assert(raw[i] == rest[i - 1]);
            }
        }
    }
}

/// An index with no NUL before it, and a NUL at it or the end of the bytes,
/// is `text_len`.
pub proof fn lemma_text_len_is(raw: Seq<u8>, n: int)
    requires
        0 <= n <= raw.len(),
        forall|i: int| 0 <= i < n ==> raw[i] != 0,
        n < raw.len() ==> raw[n] == 0,
    ensures
        text_len(raw) == n,
{
    lemma_text_len(raw);
}

/// Writing a name back into a field gives the field it was read from, but
/// for what followed the first NUL: the text is kept byte for byte, the
/// rest is NUL, and a field that was padded with NUL comes back whole.
pub proof fn lemma_padded_round_trip(raw: Seq<u8>)
    ensures
        padded(raw).len() == raw.len(),
        text_len(padded(raw)) == text_len(raw),
        name_bytes(padded(raw)) == name_bytes(raw),
        forall|i: int| 0 <= i < text_len(raw) ==> padded(raw)[i] == raw[i],
        forall|i: int| text_len(raw) <= i < raw.len() ==> padded(raw)[i] == 0,
        is_padded(padded(raw)),
        is_padded(raw) ==> padded(raw) == raw,
{
    lemma_text_len(raw);
    lemma_text_len_is(padded(raw), text_len(raw) as int);
}

/// `core::str::from_utf8`: the bytes as a string slice, where they are
/// well-formed UTF-8, and nothing where they are not. The slice borrows the
/// bytes it was given, so its encoding is those bytes.
#[verifier::external_body]
fn str_of(bytes: &[u8]) -> (r: Option<&str>)
    ensures
        r is Some <==> valid_utf8(bytes@),
        r matches Some(s) ==> s.spec_bytes() == bytes@,
{
    core::str::from_utf8(bytes).ok()
}

/// Whether `bytes` begins with `prefix`.
pub fn has_prefix(bytes: &[u8], prefix: &[u8]) -> (r: bool)
    ensures
        r == prefix@.is_prefix_of(bytes@),
{
    if prefix.len() > bytes.len() {
        return false;
    }
    let mut i: usize = 0;
    while i < prefix.len()
        invariant
            0 <= i <= prefix@.len() <= bytes@.len(),
            forall|k: int| 0 <= k < i ==> prefix@[k] == bytes@[k],
        decreases prefix@.len() - i,
    {
        if prefix[i] != bytes[i] {
            return false;
        }
        i = i + 1;
    }
    true
}

/// The name of a lump. Two names are equal exactly when their texts are.
#[derive(Clone, Copy, Debug, PartialEq, Eq)]
pub struct LumpName {
    buf: [u8; 8],
}

impl View for LumpName {
    type V = Seq<u8>;

    /// The bytes of the name's text, without the padding.
    open spec fn view(&self) -> Seq<u8> {
        name_bytes(self.field())
    }
}

impl LumpName {
    /// The eight bytes of the name as a directory record stores them.
    pub closed spec fn field(&self) -> Seq<u8> {
        self.buf@
    }

    /// The name as a sequence of characters.
    pub open spec fn text(&self) -> Seq<char> {
        decode_utf8(self@)
    }

    #[verifier::type_invariant]
    spec fn canonical(&self) -> bool {
        is_padded(self.buf@) && is_text(self.buf@)
    }

    /// Reads a name field. The name holds the field's text; what follows
    /// the first NUL of the field is dropped.
    pub fn new(raw: &[u8; 8]) -> (r: Result<LumpName, WadError>)
        ensures
            is_text(raw@) ==> r is Ok && r->Ok_0.field() == padded(raw@),
            !is_text(raw@) ==> r == Err::<LumpName, WadError>(WadError::NonTextName),
    {
        let mut buf: [u8; 8] = [0u8; 8];
        let mut n: usize = 0;
        while n < 8 && raw[n] != 0
            invariant
                0 <= n <= 8,
                forall|i: int| 0 <= i < n ==> raw@[i] != 0 && buf@[i] == raw@[i],
                forall|i: int| n <= i < 8 ==> buf@[i] == 0,
            decreases 8 - n,
        {
            buf[n] = raw[n];
            n = n + 1;
        }
        proof {
            lemma_text_len_is(raw@, n as int);
            lemma_text_len_is(buf@, n as int);
            assert(name_bytes(buf@) =~= name_bytes(raw@));
        }
        let text: &[u8] = slice_subrange(raw.as_slice(), 0, n);
        match str_of(text) {
            Some(_) => Ok(LumpName { buf }),
            None => Err(WadError::NonTextName),
        }
    }

    /// The name that reads `text`, where there is one: a name holds at
    /// most eight bytes of text and no NUL.
    pub fn from_text(text: &str) -> (r: Option<LumpName>)
        ensures
            r is Some <==> text.spec_bytes().len() <= 8 && !text.spec_bytes().contains(0u8),
            r matches Some(name) ==> name@ == text.spec_bytes() && name.text() == text@,
    {
        let bytes: &[u8] = text.as_bytes();
        if bytes.len() > NAME_LEN {
            return None;
        }
        let mut buf: [u8; 8] = [0u8; 8];
        let mut n: usize = 0;
        while n < bytes.len()
            invariant
                0 <= n <= bytes@.len() <= 8,
                bytes@ == text.spec_bytes(),
                forall|i: int| 0 <= i < n ==> bytes@[i] != 0 && buf@[i] == bytes@[i],
                forall|i: int| n <= i < 8 ==> buf@[i] == 0,
            decreases bytes@.len() - n,
        {
            if bytes[n] == 0 {
                return None;
            }
            buf[n] = bytes[n];
            n = n + 1;
        }
        proof {
            lemma_text_len_is(buf@, n as int);
            assert(name_bytes(buf@) =~= bytes@);
            encode_utf8_valid_utf8(text@);
            encode_utf8_decode_utf8(text@);
        }
        Some(LumpName { buf })
    }

    /// The length of the name's text in bytes.
    pub fn len(&self) -> (n: usize)
        ensures
            n == self@.len(),
            n <= 8,
            n == text_len(self.field()),
    {
        let mut n: usize = 0;
        while n < 8 && self.buf[n] != 0
            invariant
                0 <= n <= 8,
                forall|i: int| 0 <= i < n ==> self.buf@[i] != 0,
            decreases 8 - n,
        {
            n = n + 1;
        }
        proof {
            lemma_text_len_is(self.buf@, n as int);
        }
        n
    }

    /// The eight bytes of the name, as a directory record stores them.
    pub fn to_bytes(&self) -> (raw: [u8; 8])
        ensures
            raw@ == self.field(),
            is_padded(raw@),
            is_text(raw@),
    {
        proof {
            use_type_invariant(self);
        }
        self.buf
    }

    /// The bytes of the name's text.
    pub fn as_bytes(&self) -> (text: &[u8])
        ensures
            text@ == self@,
            valid_utf8(text@),
    {
        proof {
            use_type_invariant(self);
        }
        let n: usize = self.len();
        slice_subrange(self.buf.as_slice(), 0, n)
    }

    /// The name as a string slice.
    pub fn as_str(&self) -> (s: &str)
        ensures
            s@ == self.text(),
            s.spec_bytes() == self@,
    {
        // The text of a name is well-formed, so the second arm is never taken.
        match str_of(self.as_bytes()) {
            Some(s) => {
                proof {
                    encode_utf8_decode_utf8(s@);
                }
                s
            },
            None => "",
        }
    }

    /// Whether the name's text is `other`. The comparison is by bytes, so
    /// it tells upper case from lower.
    pub fn eq_str(&self, other: &str) -> (r: bool)
        ensures
            r == (self.text() == other@),
            r == (self@ == other.spec_bytes()),
    {
        let mine: &[u8] = self.as_bytes();
        let theirs: &[u8] = other.as_bytes();
        proof {
            encode_utf8_decode_utf8(other@);
            decode_utf8_encode_utf8(self@);
        }
        if mine.len() != theirs.len() {
            return false;
        }
        has_prefix(mine, theirs)
    }

    /// Whether the name's text begins with `prefix`, byte for byte.
    pub fn starts_with(&self, prefix: &str) -> (r: bool)
        ensures
            r == prefix.spec_bytes().is_prefix_of(self@),
    {
        has_prefix(self.as_bytes(), prefix.as_bytes())
    }
}

} // verus!
