//! Null-terminated strings: a borrowed view, an owning wrapper, and a helper
//! that builds a terminated buffer from native text.

use vstd::prelude::*;
use vstd::string::StringSliceAdditionalSpecFns;
use vstd::utf8::*;

verus! {

/// Index of the first zero byte at or after `i`, or the length if there is none.
pub open spec fn first_zero_from(b: Seq<u8>, i: int) -> int
    decreases b.len() - i,
{
    if i < 0 || i >= b.len() {
        b.len() as int
    } else if b[i] == 0 {
        i
    } else {
        first_zero_from(b, i + 1)
    }
}

/// The buffer holds a terminating zero byte.
pub open spec fn is_terminated(b: Seq<u8>) -> bool {
    exists|i: int| 0 <= i < b.len() && b[i] == 0
}

/// Number of bytes before the terminator.
pub open spec fn text_len(b: Seq<u8>) -> int {
    first_zero_from(b, 0)
}

/// The bytes before the terminator.
pub open spec fn text_bytes(b: Seq<u8>) -> Seq<u8> {
    b.take(text_len(b))
}

/// The native text a terminated buffer holds, when those bytes are UTF-8.
pub open spec fn text_of(b: Seq<u8>) -> Seq<char> {
    decode_utf8(text_bytes(b))
}

proof fn lemma_first_zero_from(b: Seq<u8>, i: int)
    requires
        0 <= i <= b.len(),
    ensures
        i <= first_zero_from(b, i) <= b.len(),
        first_zero_from(b, i) < b.len() ==> b[first_zero_from(b, i)] == 0,
        forall|j: int| i <= j < first_zero_from(b, i) ==> b[j] != 0,
    decreases b.len() - i,
{
    if i < b.len() && b[i] != 0 {
        lemma_first_zero_from(b, i + 1);
    }
}

/// In a terminated buffer, the scan stops at the first zero byte: it lies
/// inside the buffer and no byte before it is zero.
pub proof fn lemma_text_end(b: Seq<u8>)
    requires
        is_terminated(b),
    ensures
        0 <= text_len(b) < b.len(),
        b[text_len(b)] == 0,
        forall|j: int| 0 <= j < text_len(b) ==> b[j] != 0,
        forall|j: int| 0 <= j < text_len(b) ==> #[trigger] text_bytes(b)[j] == b[j],
        text_bytes(b).len() == text_len(b),
{
    lemma_first_zero_from(b, 0);
    let k = choose|k: int| 0 <= k < b.len() && b[k] == 0;
    assert(k >= text_len(b));
}

/// A borrowed view of a null-terminated byte buffer owned elsewhere.
#[derive(Clone, Copy)]
pub struct Str<'a> {
    buf: &'a [u8],
}

impl<'a> Str<'a> {
    #[verifier::type_invariant]
    spec fn terminated(&self) -> bool {
        is_terminated(self.buf@)
    }
}

impl<'a> View for Str<'a> {
    type V = Seq<u8>;

    closed spec fn view(&self) -> Seq<u8> {
        self.buf@
    }
}

impl<'a> Str<'a> {
    /// Views a buffer that holds a terminating zero byte; nothing is copied.
    pub fn from_ptr(buf: &'a [u8]) -> (r: Str<'a>)
        requires
            is_terminated(buf@),
        ensures
            r@ == buf@,
    {
        Str { buf }
    }

    /// The buffer this view reads, terminator and all.
    pub fn as_ptr(&self) -> (r: &'a [u8])
        ensures
            r@ == self@,
    {
        self.buf
    }

    /// Scans for the terminator and returns the number of bytes before it.
    pub fn len(&self) -> (n: usize)
        ensures
            n == text_len(self@),
    {
        proof {
            use_type_invariant(self);
        }
        let ghost b = self@;
        let mut i: usize = 0;
        while i < self.buf.len()
            invariant
                b == self.buf@,
                is_terminated(b),
                0 <= i <= b.len(),
                first_zero_from(b, i as int) == text_len(b),
                forall|j: int| 0 <= j < i ==> b[j] != 0,
            decreases b.len() - i,
        {
            if self.buf[i] == 0 {
                return i;
            }
            i = i + 1;
        }
        proof {
            let k = choose|k: int| 0 <= k < b.len() && b[k] == 0;
            assert(b[k] != 0);
        }
        i
    }

    /// The bytes before the terminator, borrowed from the same buffer.
    pub fn to_bytes(&self) -> (r: &'a [u8])
        ensures
            r@ == text_bytes(self@),
    {
        proof {
            use_type_invariant(self);
            lemma_text_end(self@);
        }
        let n = self.len();
        &self.buf[0..n]
    }

    /// Decodes the bytes before the terminator as UTF-8 text. The bytes must
    /// be valid UTF-8: a buffer that is not breaks the contract of whoever
    /// produced it.
    pub fn as_str(&self) -> (r: &'a str)
        requires
            valid_utf8(text_bytes(self@)),
        ensures
            r@ == text_of(self@),
    {
        let bytes = self.to_bytes();
        match utf8_text(bytes) {
            Some(s) => {
                proof {
                    encode_utf8_decode_utf8(s@);
                }
                s
            },
            None => {
                proof {
                    assert(false);
                }
                ""
            },
        }
    }

    /// The decoded text, copied into a native string.
    pub fn to_string(&self) -> (r: std::string::String)
        requires
            valid_utf8(text_bytes(self@)),
        ensures
            r@ == text_of(self@),
    {
        copy_text(self.as_str())
    }
}

/// Relies on std::str::from_utf8: it succeeds exactly on valid UTF-8, and the
/// text it returns is encoded by those very bytes.
#[verifier::external_body]
fn utf8_text<'a>(b: &'a [u8]) -> (r: Option<&'a str>)
    ensures
        r.is_some() == valid_utf8(b@),
        r matches Some(s) ==> s.spec_bytes() == b@,
{
    std::str::from_utf8(b).ok()
}

/// Relies on str::to_string: the copy holds the same characters.
#[verifier::external_body]
fn copy_text(s: &str) -> (r: std::string::String)
    ensures
        r@ == s@,
{
    s.to_string()
}

/// Builds the terminated buffer for a literal: the UTF-8 bytes of `s`
/// followed by one zero byte.
pub fn llvm_str(s: &str) -> (r: Vec<u8>)
    ensures
        r@ == s.spec_bytes().push(0),
{
    let bytes = s.as_bytes();
    let mut r: Vec<u8> = Vec::new();
    let mut i: usize = 0;
    while i < bytes.len()
        invariant
            bytes@ == s.spec_bytes(),
            0 <= i <= bytes@.len(),
            r@ == bytes@.take(i as int),
        decreases bytes@.len() - i,
    {
        r.push(bytes[i]);
        i = i + 1;
        assert(r@ == bytes@.take(i as int));
    }
    assert(r@ == bytes@);
    r.push(0);
    r
}

/// An owned null-terminated buffer. It is released exactly once, when the
/// wrapper goes out of scope; it can be moved but not duplicated.
pub struct String {
    buf: Vec<u8>,
}

impl String {
    #[verifier::type_invariant]
    spec fn terminated(&self) -> bool {
        is_terminated(self.buf@)
    }
}

impl View for String {
    type V = Seq<u8>;

    closed spec fn view(&self) -> Seq<u8> {
        self.buf@
    }
}

impl String {
    /// Takes ownership of a buffer that holds a terminating zero byte.
    pub fn from_mut(buf: Vec<u8>) -> (r: String)
        requires
            is_terminated(buf@),
        ensures
            r@ == buf@,
    {
        String { buf }
    }

    /// A borrowed view of the same bytes; nothing is copied.
    pub fn as_ref(&self) -> (r: Str<'_>)
        ensures
            r@ == self@,
    {
        proof {
            use_type_invariant(self);
        }
        Str { buf: self.buf.as_slice() }
    }

    /// Decodes the bytes before the terminator, as the view does.
    pub fn as_str(&self) -> (r: &str)
        requires
            valid_utf8(text_bytes(self@)),
        ensures
            r@ == text_of(self@),
    {
        let v = self.as_ref();
        v.as_str()
    }

    /// The decoded text, copied into a native string.
    pub fn to_string(&self) -> (r: std::string::String)
        requires
            valid_utf8(text_bytes(self@)),
        ensures
            r@ == text_of(self@),
    {
        let v = self.as_ref();
        v.to_string()
    }
}

/// Decoding a terminated buffer yields exactly the text encoded by the bytes
/// before its first zero byte.
pub proof fn lemma_decode_before_terminator(b: Seq<u8>)
    requires
        is_terminated(b),
        valid_utf8(text_bytes(b)),
    ensures
        exists|k: int|
            0 <= k < b.len() && b[k] == 0 && (forall|j: int| 0 <= j < k ==> b[j] != 0)
                && encode_utf8(text_of(b)) == b.take(k),
{
    lemma_text_end(b);
    decode_utf8_encode_utf8(text_bytes(b));
    assert(0 <= text_len(b) < b.len() && b[text_len(b)] == 0 && (forall|j: int|
        0 <= j < text_len(b) ==> b[j] != 0) && encode_utf8(text_of(b)) == b.take(text_len(b)));
}

/// Text whose UTF-8 encoding holds no zero byte comes back unchanged when it
/// is made into a terminated buffer and decoded.
pub proof fn lemma_literal_round_trip(t: Seq<char>)
    requires
        forall|i: int| 0 <= i < encode_utf8(t).len() ==> #[trigger] encode_utf8(t)[i] != 0,
    ensures
        is_terminated(encode_utf8(t).push(0)),
        text_bytes(encode_utf8(t).push(0)) == encode_utf8(t),
        valid_utf8(text_bytes(encode_utf8(t).push(0))),
        text_of(encode_utf8(t).push(0)) == t,
{
    let e = encode_utf8(t);
    let b = e.push(0);
    assert(b[e.len() as int] == 0);
    lemma_text_end(b);
    if text_len(b) < e.len() {
        assert(e[text_len(b)] == b[text_len(b)]);
    }
    assert(text_bytes(b) =~= e);
    encode_utf8_valid_utf8(t);
    encode_utf8_decode_utf8(t);
}

/// The view an owning wrapper lends reads the same bytes, and so decodes to
/// the same text, as a view made directly over that buffer.
pub proof fn lemma_owned_view_agrees(w: &String, direct: Str)
    requires
        direct@ == w@,
    ensures
        text_bytes(direct@) == text_bytes(w@),
        text_of(direct@) == text_of(w@),
{
}

} // verus!
