use vstd::prelude::*;

verus! {

/// Number of bytes in an account identifier.
pub const ADDRESS_LEN: usize = 20;

/// A 20-byte account identifier (token, pair or pool contract).
#[derive(Debug, Clone, Copy, Hash)]
pub struct Address {
    pub bytes: [u8; 20],
}

impl View for Address {
    type V = Seq<u8>;

    open spec fn view(&self) -> Seq<u8> {
        self.bytes@
    }
}

impl PartialEq for Address {
    fn eq(&self, other: &Address) -> (r: bool)
        ensures
            r == (self@ == other@),
    {
        let mut i: usize = 0;
        while i < ADDRESS_LEN
            invariant
                0 <= i <= 20,
                self@.len() == 20,
                other@.len() == 20,
                self@.subrange(0, i as int) == other@.subrange(0, i as int),
            decreases 20 - i,
        {
            if self.bytes[i] != other.bytes[i] {
                assert(self@[i as int] != other@[i as int]);
                return false;
            }
            assert(self@.subrange(0, i + 1) =~= self@.subrange(0, i as int).push(self@[i as int]));
            assert(other@.subrange(0, i + 1) =~= other@.subrange(0, i as int).push(other@[i as int]));
            i = i + 1;
        }
        assert(self@ =~= self@.subrange(0, 20));
        assert(other@ =~= other@.subrange(0, 20));
        true
    }
}

impl vstd::std_specs::cmp::PartialEqSpecImpl for Address {
    open spec fn obeys_eq_spec() -> bool {
        true
    }

    open spec fn eq_spec(&self, other: &Address) -> bool {
        self@ == other@
    }
}

impl Eq for Address {
}

/// The lower-case ASCII hex digit for a value below sixteen.
pub open spec fn hex_digit(n: u8) -> u8
    recommends
        n < 16,
{
    if n < 10 {
        (48 + n) as u8
    } else {
        (87 + n) as u8
    }
}

/// The `i`-th hex digit of a byte string, most significant nibble first.
pub open spec fn nibble_digit(bytes: Seq<u8>, i: int) -> u8 {
    if i % 2 == 0 {
        hex_digit(bytes[i / 2] / 16)
    } else {
        hex_digit(bytes[i / 2] % 16)
    }
}

/// Canonical text of an address: `0x` followed by two lower-case hex digits per byte.
pub open spec fn canonical_text(bytes: Seq<u8>) -> Seq<u8> {
    seq![48u8, 120u8] + Seq::new((2 * bytes.len()) as nat, |i: int| nibble_digit(bytes, i))
}

fn hex_digit_exec(n: u8) -> (r: u8)
    requires
        n < 16,
    ensures
        r == hex_digit(n),
{
    if n < 10 {
        48 + n
    } else {
        87 + n
    }
}

impl Address {
    /// The canonical lower-case hex text of this address, as ASCII bytes.
    pub fn canonical_text(&self) -> (r: Vec<u8>)
        ensures
            r@ == canonical_text(self@),
    {
        let mut out: Vec<u8> = Vec::with_capacity(42);
        out.push(48u8);
        out.push(120u8);
        let mut i: usize = 0;
        while i < ADDRESS_LEN
            invariant
                0 <= i <= 20,
                self@.len() == 20,
                out@ =~= seq![48u8, 120u8] + Seq::new((2 * i) as nat, |k: int| nibble_digit(self@, k)),
            decreases 20 - i,
        {
            let b = self.bytes[i];
            let hi = hex_digit_exec(b / 16);
            let lo = hex_digit_exec(b % 16);
            out.push(hi);
            out.push(lo);
            assert(nibble_digit(self@, 2 * i as int) == hi) by {
                assert((2 * i as int) / 2 == i as int);
                assert((2 * i as int) % 2 == 0);
            }
            assert(nibble_digit(self@, 2 * i as int + 1) == lo) by {
                assert((2 * i as int + 1) / 2 == i as int);
                assert((2 * i as int + 1) % 2 == 1);
            }
            i = i + 1;
            assert(out@ =~= seq![48u8, 120u8] + Seq::new((2 * i) as nat, |k: int| nibble_digit(self@, k)));
        }
        out
    }
}

/// The value of an ASCII hex digit of either case.
pub open spec fn hex_value(c: u8) -> Option<u8> {
    if 48 <= c <= 57 {
        Some((c - 48) as u8)
    } else if 97 <= c <= 102 {
        Some((c - 87) as u8)
    } else if 65 <= c <= 70 {
        Some((c - 55) as u8)
    } else {
        None
    }
}

/// The digits of an address text: the text without a leading `0x`, if it has one.
pub open spec fn address_digits(text: Seq<u8>) -> Seq<u8> {
    if text.len() >= 2 && text[0] == 48 && text[1] == 120 {
        text.subrange(2, text.len() as int)
    } else {
        text
    }
}

/// Exactly forty hex digits.
pub open spec fn is_address_digits(d: Seq<u8>) -> bool {
    d.len() == 40 && forall|i: int| 0 <= i < 40 ==> (#[trigger] hex_value(d[i])) is Some
}

/// The byte that hex digits `2i` and `2i+1` of `d` spell.
pub open spec fn digit_pair(d: Seq<u8>, i: int) -> int {
    16 * (hex_value(d[2 * i])->Some_0 as int) + (hex_value(d[2 * i + 1])->Some_0 as int)
}

fn hex_value_exec(c: u8) -> (r: Option<u8>)
    ensures
        r == hex_value(c),
{
    if 48 <= c && c <= 57 {
        Some(c - 48)
    } else if 97 <= c && c <= 102 {
        Some(c - 87)
    } else if 65 <= c && c <= 70 {
        Some(c - 55)
    } else {
        None
    }
}

/// Parses an address from its text: an optional `0x` prefix followed by exactly
/// forty hex digits of either case; anything else is rejected.
pub fn parse_address(text: &[u8]) -> (r: Option<Address>)
    ensures
        r is Some <==> is_address_digits(address_digits(text@)),
        r matches Some(a) ==> forall|i: int| 0 <= i < 20 ==> a@[i] == digit_pair(address_digits(text@), i),
{
    let n = text.len();
    let start: usize = if n >= 2 && text[0] == 48 && text[1] == 120 {
        2
    } else {
        0
    };
    let ghost d = address_digits(text@);
    assert(d =~= text@.subrange(start as int, n as int));
    if n - start != 40 {
        return None;
    }
    let mut out = [0u8; 20];
    let mut i: usize = 0;
    while i < 20
        invariant
            0 <= i <= 20,
            n == text@.len(),
            n - start == 40,
            d == text@.subrange(start as int, n as int),
            out@.len() == 20,
            forall|j: int| 0 <= j < 2 * i ==> (#[trigger] hex_value(d[j])) is Some,
            forall|j: int| 0 <= j < i ==> out@[j] == digit_pair(d, j),
        decreases 20 - i,
    {
        let hi = hex_value_exec(text[start + 2 * i]);
        let lo = hex_value_exec(text[start + 2 * i + 1]);
        assert(d[2 * i as int] == text@[start + 2 * i]);
        assert(d[2 * i as int + 1] == text@[start + 2 * i + 1]);
        match (hi, lo) {
            (Some(h), Some(l)) => {
                out[i] = h * 16 + l;
                i = i + 1;
            },
            _ => {
                assert(!is_address_digits(d)) by {
                    if hi is None {
                        assert(hex_value(d[2 * i as int]) is None);
                    } else {
                        assert(hex_value(d[2 * i as int + 1]) is None);
                    }
                }
                return None;
            },
        }
    }
    Some(Address { bytes: out })
}

/// The canonical text of an address parses back to that address.
pub proof fn lemma_canonical_text_parses(a: Address)
    ensures
        is_address_digits(address_digits(canonical_text(a@))),
        forall|i: int| 0 <= i < 20 ==> a@[i] == digit_pair(address_digits(canonical_text(a@)), i),
{
    let t = canonical_text(a@);
    let d = address_digits(t);
    assert(t[0] == 48 && t[1] == 120);
    assert(d =~= Seq::new(40, |i: int| nibble_digit(a@, i)));
    assert forall|i: int| 0 <= i < 40 implies (#[trigger] hex_value(d[i])) is Some by {
        let b = a@[i / 2];
        assert(b / 16 < 16 && b % 16 < 16);
    }
    assert forall|i: int| 0 <= i < 20 implies a@[i] == digit_pair(d, i) by {
        let b = a@[i];
        assert((2 * i) / 2 == i && (2 * i) % 2 == 0);
        assert((2 * i + 1) / 2 == i && (2 * i + 1) % 2 == 1);
        assert(hex_value(hex_digit(b / 16)) == Some(b / 16));
        assert(hex_value(hex_digit(b % 16)) == Some(b % 16));
        assert(16 * (b / 16) + b % 16 == b);
    }
}

} // verus!
