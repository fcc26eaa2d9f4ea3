//! Plain value types shared by the rest of the crate.

use vstd::prelude::*;
use vstd::string::StringExecFns;

verus! {

/// Number of bytes in a virtual-machine address.
pub const ADDRESS_LEN: usize = 20;

/// The lower-case hexadecimal digit of a number below sixteen.
pub open spec fn hex_digit(n: nat) -> char
    recommends
        n < 16,
{
    if n < 10 {
        ((n + 48) as u8) as char
    } else {
        ((n + 87) as u8) as char
    }
}

/// The lower-case hexadecimal text of a byte string: two digits per byte,
/// the high half first.
pub open spec fn hex(bytes: Seq<u8>) -> Seq<char>
    decreases bytes.len(),
{
    if bytes.len() == 0 {
        Seq::empty()
    } else {
        hex(bytes.drop_last()) + seq![
            hex_digit(bytes.last() as nat / 16),
            hex_digit(bytes.last() as nat % 16),
        ]
    }
}

fn hex_digit_text(n: u8) -> (text: &'static str)
    requires
        n < 16,
    ensures
        text@ == seq![hex_digit(n as nat)],
{
    proof {
        reveal_strlit("0");
        reveal_strlit("1");
        reveal_strlit("2");
        reveal_strlit("3");
        reveal_strlit("4");
        reveal_strlit("5");
        reveal_strlit("6");
        reveal_strlit("7");
        reveal_strlit("8");
        reveal_strlit("9");
        reveal_strlit("a");
        reveal_strlit("b");
        reveal_strlit("c");
        reveal_strlit("d");
        reveal_strlit("e");
        reveal_strlit("f");
    }
    let text = if n == 0 {
        "0"
    } else if n == 1 {
        "1"
    } else if n == 2 {
        "2"
    } else if n == 3 {
        "3"
    } else if n == 4 {
        "4"
    } else if n == 5 {
        "5"
    } else if n == 6 {
        "6"
    } else if n == 7 {
        "7"
    } else if n == 8 {
        "8"
    } else if n == 9 {
        "9"
    } else if n == 10 {
        "a"
    } else if n == 11 {
        "b"
    } else if n == 12 {
        "c"
    } else if n == 13 {
        "d"
    } else if n == 14 {
        "e"
    } else {
        "f"
    };
    assert(text@ =~= seq![hex_digit(n as nat)]);
    text
}

/// A 20-byte virtual-machine address.
#[derive(Clone, Copy, Debug, PartialEq, Eq, Hash)]
pub struct Address {
    raw: [u8; 20],
}

impl View for Address {
    type V = Seq<u8>;

    closed spec fn view(&self) -> Seq<u8> {
        self.raw@
    }
}

impl Address {
    /// Every address is exactly 20 bytes long.
    pub proof fn lemma_len(self)
        ensures
            self@.len() == ADDRESS_LEN,
    {
    }

    /// Two addresses with the same bytes are the same address.
    pub proof fn lemma_ext_equal(self, other: Address)
        requires
            self@ == other@,
        ensures
            self == other,
    {
        assert(self.raw =~= other.raw);
    }

    /// The address made of the given bytes.
    pub fn from_array(array: [u8; 20]) -> (address: Address)
        ensures
            address@ == array@,
    {
        Address { raw: array }
    }

    /// The bytes of the address.
    pub fn as_bytes(&self) -> (bytes: &[u8])
        ensures
            bytes@ == self@,
            bytes@.len() == ADDRESS_LEN,
    {
        self.raw.as_slice()
    }

    /// Whether two addresses hold the same bytes.
    pub fn same_as(&self, other: &Address) -> (same: bool)
        ensures
            same == (self@ == other@),
    {
        let mut i: usize = 0;
        while i < 20
            invariant
                i <= 20,
                forall|k: int| 0 <= k < i ==> self.raw@[k] == other.raw@[k],
            decreases 20 - i,
        {
            if self.raw[i] != other.raw[i] {
                return false;
            }
            i = i + 1;
        }
        assert(self.raw@ =~= other.raw@);
        true
    }

    /// The address as 40 lower-case hexadecimal digits.
    pub fn encode(&self) -> (text: String)
        ensures
            text@ == hex(self@),
    {
        let mut text = String::new();
        let mut i: usize = 0;
        proof {
            assert(self.raw@.subrange(0, 0) =~= Seq::<u8>::empty());
        }
        while i < 20
            invariant
                i <= 20,
                text@ == hex(self.raw@.subrange(0, i as int)),
            decreases 20 - i,
        {
            let b = self.raw[i];
            proof {
                let next = self.raw@.subrange(0, i + 1);
                assert(next.drop_last() =~= self.raw@.subrange(0, i as int));
                assert(next.last() == b);
            }
            text.append(hex_digit_text(b / 16));
            text.append(hex_digit_text(b % 16));
            proof {
                let next = self.raw@.subrange(0, i + 1);
                assert(text@ =~= hex(next));
            }
            i = i + 1;
        }
        proof {
            assert(self.raw@.subrange(0, 20) =~= self.raw@);
        }
        text
    }
}

} // verus!
