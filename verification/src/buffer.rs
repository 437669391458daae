//! Borrowed byte strings as they appear in packets.
use vstd::prelude::*;
use vstd::std_specs::convert::FromSpecImpl;
use vstd::string::StringSliceAdditionalSpecFns;
use vstd::utf8::valid_utf8;

verus! {

/// A run of bytes borrowed from a buffer.
#[derive(Debug, Clone, Copy)]
pub struct Slice<'buf> {
    inner: &'buf [u8],
}

impl<'buf> Slice<'buf> {
    /// The bytes.
    pub closed spec fn view(&self) -> Seq<u8> {
        self.inner@
    }

    /// The slice over exactly these bytes.
    pub closed spec fn of(bytes: &'buf [u8]) -> Slice<'buf> {
        Slice { inner: bytes }
    }

    pub fn from_bytes(value: &'buf [u8]) -> (r: Self)
        ensures
            r == Slice::of(value),
            r@ == value@,
    {
        Slice { inner: value }
    }

    /// The slice over the UTF-8 bytes of `text`.
    pub closed spec fn of_str(text: &'buf str) -> Slice<'buf> {
        choose|s: Slice<'buf>| s@ == text.spec_bytes()
    }

    pub fn from_str(value: &'buf str) -> (r: Self)
        ensures
            r == Slice::of_str(value),
            r@ == value.spec_bytes(),
    {
        let r = Slice { inner: value.as_bytes() };
        proof {
            assert(r@ == value.spec_bytes());
            Slice::lemma_ext(r, Slice::of_str(value));
        }
        r
    }

    pub fn as_bytes(&self) -> (r: &'buf [u8])
        ensures
            r@ == self@,
    {
        self.inner
    }

    pub fn len(&self) -> (r: usize)
        ensures
            r == self@.len(),
    {
        self.inner.len()
    }

    /// Whether the bytes are exactly `other`.
    pub fn eq_bytes(&self, other: &[u8]) -> (r: bool)
        ensures
            r == (self@ == other@),
    {
        bytes_equal(self.inner, other)
    }

    /// Two slices over the same bytes are the same value.
    pub proof fn lemma_ext(a: Slice<'buf>, b: Slice<'buf>)
        requires
            a@ == b@,
        ensures
            a == b,
    {
        assert(a.inner@ =~= b.inner@);
        assert(a.inner =~= b.inner);
    }
}

impl<'buf> From<&'buf [u8]> for Slice<'buf> {
    fn from(value: &'buf [u8]) -> (r: Self) {
        Slice::from_bytes(value)
    }
}

impl<'buf> FromSpecImpl<&'buf [u8]> for Slice<'buf> {
    open spec fn obeys_from_spec() -> bool {
        true
    }

    open spec fn from_spec(value: &'buf [u8]) -> Self {
        Slice::of(value)
    }
}

impl<'buf> From<&'buf str> for Slice<'buf> {
    fn from(value: &'buf str) -> (r: Self) {
        Slice::from_str(value)
    }
}

impl<'buf> FromSpecImpl<&'buf str> for Slice<'buf> {
    open spec fn obeys_from_spec() -> bool {
        true
    }

    open spec fn from_spec(value: &'buf str) -> Self {
        Slice::of_str(value)
    }
}

/// Compares two byte strings.
pub fn bytes_equal(a: &[u8], b: &[u8]) -> (r: bool)
    ensures
        r == (a@ == b@),
{
    if a.len() != b.len() {
        return false;
    }
    let mut i: usize = 0;
    while i < a.len()
        invariant
            a@.len() == b@.len(),
            i <= a@.len(),
            forall|j: int| 0 <= j < i ==> a@[j] == b@[j],
        decreases a@.len() - i,
    {
        if a[i] != b[i] {
            return false;
        }
        i += 1;
    }
    assert(a@ =~= b@);
    true
}

/// Copies the `len` bytes at `from` down to `to`, lowest first, so that the
/// two runs may overlap. The rest of the buffer stays as it is.
pub fn slide_down(buf: &mut [u8], from: usize, to: usize, len: usize)
    requires
        to <= from,
        from + len <= old(buf)@.len(),
    ensures
        final(buf)@.len() == old(buf)@.len(),
        forall|t: int|
            0 <= t < final(buf)@.len() ==> #[trigger] final(buf)@[t] == if to <= t < to + len {
                old(buf)@[from + t - to]
            } else {
                old(buf)@[t]
            },
{
    let total = buf.len();
    let mut j: usize = 0;
    while j < len
        invariant
            j <= len,
            to <= from,
            total == buf@.len(),
            total == old(buf)@.len(),
            from + len <= total,
            forall|t: int|
                0 <= t < buf@.len() ==> #[trigger] buf@[t] == if to <= t < to + j {
                    old(buf)@[from + t - to]
                } else {
                    old(buf)@[t]
                },
        decreases len - j,
    {
        let byte = buf[from + j];
        buf[to + j] = byte;
        j += 1;
    }
}

/// A length-prefixed text field: its bytes, meant to be UTF-8.
#[derive(Debug, Clone, Copy)]
pub struct String<'buf> {
    inner: Slice<'buf>,
}

impl<'buf> String<'buf> {
    /// The bytes of the text.
    pub closed spec fn view(&self) -> Seq<u8> {
        self.inner@
    }

    /// The text over exactly this slice.
    pub closed spec fn of(slice: Slice<'buf>) -> String<'buf> {
        String { inner: slice }
    }

    /// Whether the bytes are well-formed UTF-8.
    pub open spec fn is_utf8(&self) -> bool {
        valid_utf8(self@)
    }

    pub fn from_slice(value: Slice<'buf>) -> (r: Self)
        ensures
            r == String::of(value),
            r@ == value@,
    {
        String { inner: value }
    }

    /// The text over the UTF-8 bytes of `text`.
    pub closed spec fn of_str(text: &'buf str) -> String<'buf> {
        String { inner: Slice::of_str(text) }
    }

    pub fn from_str(value: &'buf str) -> (r: Self)
        ensures
            r == String::of_str(value),
            r@ == value.spec_bytes(),
            r.is_utf8(),
    {
        proof {
            vstd::utf8::encode_utf8_valid_utf8(value@);
        }
        String { inner: Slice::from_str(value) }
    }

    pub fn as_bytes(&self) -> (r: &'buf [u8])
        ensures
            r@ == self@,
    {
        self.inner.as_bytes()
    }

    pub fn len(&self) -> (r: usize)
        ensures
            r == self@.len(),
    {
        self.inner.len()
    }

    /// Whether the text is exactly `other`.
    pub fn eq_str(&self, other: &str) -> (r: bool)
        ensures
            r == (self@ == other.spec_bytes()),
    {
        bytes_equal(self.inner.as_bytes(), other.as_bytes())
    }

    /// Two texts over the same bytes are the same value.
    pub proof fn lemma_ext(a: String<'buf>, b: String<'buf>)
        requires
            a@ == b@,
        ensures
            a == b,
    {
        Slice::lemma_ext(a.inner, b.inner);
    }
}

impl<'buf> From<&'buf str> for String<'buf> {
    fn from(value: &'buf str) -> (r: Self) {
        String::from_str(value)
    }
}

impl<'buf> FromSpecImpl<&'buf str> for String<'buf> {
    open spec fn obeys_from_spec() -> bool {
        true
    }

    open spec fn from_spec(value: &'buf str) -> Self {
        String::of_str(value)
    }
}

impl<'buf> From<Slice<'buf>> for String<'buf> {
    fn from(value: Slice<'buf>) -> (r: Self) {
        String::from_slice(value)
    }
}

impl<'buf> FromSpecImpl<Slice<'buf>> for String<'buf> {
    open spec fn obeys_from_spec() -> bool {
        true
    }

    open spec fn from_spec(value: Slice<'buf>) -> Self {
        String::of(value)
    }
}

} // verus!
