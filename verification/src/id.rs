//! Content-addressed ids: 32 raw bytes, shown as lowercase hexadecimal.
use vstd::prelude::*;

verus! {

/// The lowercase hexadecimal digit of `n`, for `n < 16`.
pub open spec fn hex_digit(n: int) -> char {
    if n < 10 {
        (48 + n) as char
    } else {
        (87 + n) as char
    }
}

/// The lowercase hexadecimal text of `bytes`: two digits per byte, the high
/// half first.
pub open spec fn hex_lower(bytes: Seq<u8>) -> Seq<char>
    decreases bytes.len(),
{
    if bytes.len() == 0 {
        seq![]
    } else {
        seq![hex_digit(bytes[0] as int / 16), hex_digit(bytes[0] as int % 16)] + hex_lower(bytes.drop_first())
    }
}

/// Calls `data_encoding::HEXLOWER.encode`, which writes each byte as two
/// lowercase hexadecimal digits (symbols `0123456789abcdef`), high half first,
/// with no padding or separators.
#[verifier::external_body]
fn encode_hex_lower(bytes: &[u8]) -> (r: String)
    requires
        bytes@.len() <= 1024,
    ensures
        r@ == hex_lower(bytes@),
{
    data_encoding::HEXLOWER.encode(bytes)
}

/// A raw id: 32 bytes, such as a SHA3-256 hash.
#[derive(Clone, Copy, Debug, PartialEq, Eq, Hash)]
pub struct RawId {
    pub bytes: [u8; 32],
}

impl RawId {
    /// The id as 64 lowercase hexadecimal digits.
    pub fn as_string(&self) -> (r: String)
        ensures
            r@ == hex_lower(self.bytes@),
    {
        encode_hex_lower(vstd::array::array_as_slice(&self.bytes))
    }

    /// The id as 64 lowercase hexadecimal digits.
    pub fn as_arcstr(&self) -> (r: String)
        ensures
            r@ == hex_lower(self.bytes@),
    {
        self.as_string()
    }

    /// The id whose first eight bytes are `value` in little-endian order and
    /// whose other bytes are zero.
    pub fn from_u64(value: u64) -> (r: RawId)
        ensures
            forall|i: int|
                0 <= i < 8 ==> #[trigger] r.bytes@[i] == (value >> ((8 * i) as u64)) & 0xff,
            forall|i: int| 8 <= i < 32 ==> #[trigger] r.bytes@[i] == 0,
    {
        let mut bytes = [0u8; 32];
        let mut i: usize = 0;
        while i < 8
            invariant
                0 <= i <= 8,
                bytes@.len() == 32,
                forall|j: int|
                    0 <= j < i ==> #[trigger] bytes@[j] == (value >> ((8 * j) as u64)) & 0xff,
                forall|j: int| i <= j < 32 ==> #[trigger] bytes@[j] == 0,
            decreases 8 - i,
        {
            let shift: u64 = (8 * i) as u64;
            let b: u64 = (value >> shift) & 0xff;
            assert(b < 256) by (bit_vector)
                requires
                    b == (value >> shift) & 0xff,
            ;
            bytes[i] = b as u8;
            i = i + 1;
        }
        RawId { bytes }
    }
}

/// A shared id.
#[derive(Clone, Copy, Debug, PartialEq, Eq, Hash)]
pub struct Id {
    pub id: RawId,
}

impl Id {
    /// The id as 64 lowercase hexadecimal digits.
    pub fn as_string(&self) -> (r: String)
        ensures
            r@ == hex_lower(self.id.bytes@),
    {
        self.id.as_string()
    }

    /// The id as 64 lowercase hexadecimal digits.
    pub fn as_arcstr(&self) -> (r: String)
        ensures
            r@ == hex_lower(self.id.bytes@),
    {
        self.id.as_string()
    }
}


proof fn lemma_hex_digit_injective(n: int, m: int)
    requires
        0 <= n < 16,
        0 <= m < 16,
        hex_digit(n) == hex_digit(m),
    ensures
        n == m,
{
    assert(hex_digit(n) as int == if n < 10 { 48 + n } else { 87 + n });
    assert(hex_digit(m) as int == if m < 10 { 48 + m } else { 87 + m });
}

proof fn lemma_hex_lower_len(a: Seq<u8>)
    ensures
        hex_lower(a).len() == 2 * a.len(),
    decreases a.len(),
{
    if a.len() > 0 {
        lemma_hex_lower_len(a.drop_first());
    }
}

/// The hexadecimal text of an id tells its bytes: two byte strings have the
/// same text exactly when they are the same.
pub proof fn law_hex_lower_injective(a: Seq<u8>, b: Seq<u8>)
    ensures
        hex_lower(a) == hex_lower(b) <==> a == b,
    decreases a.len(),
{
    lemma_hex_lower_len(a);
    lemma_hex_lower_len(b);
    if hex_lower(a) == hex_lower(b) {
        if a.len() == 0 {
            assert(a =~= b);
        } else {
            let ha = hex_lower(a);
            let hb = hex_lower(b);
            assert(ha[0] == hex_digit(a[0] as int / 16) && ha[1] == hex_digit(a[0] as int % 16));
            assert(hb[0] == hex_digit(b[0] as int / 16) && hb[1] == hex_digit(b[0] as int % 16));
            lemma_hex_digit_injective(a[0] as int / 16, b[0] as int / 16);
            lemma_hex_digit_injective(a[0] as int % 16, b[0] as int % 16);
            assert(a[0] == b[0]);
            assert(ha.subrange(2, ha.len() as int) =~= hex_lower(a.drop_first()));
            assert(hb.subrange(2, hb.len() as int) =~= hex_lower(b.drop_first()));
            law_hex_lower_injective(a.drop_first(), b.drop_first());
            assert forall|k: int| 0 <= k < a.len() implies a[k] == b[k] by {
                if k > 0 {
                    assert(a[k] == a.drop_first()[k - 1]);
                    assert(b[k] == b.drop_first()[k - 1]);
                }
            }
            assert(a =~= b);
        }
    }
}

} // verus!
