//! Identifiers of layers and widgets.

use vstd::prelude::*;
use vstd::string::*;

verus! {

/// An opaque identifier: a 64-bit value, most often the hash of a name.
///
/// Two identifiers are the same iff their values are equal.
#[derive(Clone, Copy, Debug, Hash, PartialEq, Eq, Structural)]
pub struct Id(u64);

impl View for Id {
    type V = u64;

    closed spec fn view(&self) -> u64 {
        self.0
    }
}

/// Hashes `source` with `epaint::util::hash`, a hasher with fixed seeds.
///
/// Nothing is claimed of the value: the hash function documents no output
/// that would hold across builds.
#[verifier::external_body]
fn hash_of_str(source: &str) -> u64 {
    epaint::util::hash(source)
}

/// The upper-case hexadecimal digit for `nibble`, which is below 16.
pub open spec fn hex_digit(nibble: int) -> char {
    if nibble == 0 {
        '0'
    } else if nibble == 1 {
        '1'
    } else if nibble == 2 {
        '2'
    } else if nibble == 3 {
        '3'
    } else if nibble == 4 {
        '4'
    } else if nibble == 5 {
        '5'
    } else if nibble == 6 {
        '6'
    } else if nibble == 7 {
        '7'
    } else if nibble == 8 {
        '8'
    } else if nibble == 9 {
        '9'
    } else if nibble == 10 {
        'A'
    } else if nibble == 11 {
        'B'
    } else if nibble == 12 {
        'C'
    } else if nibble == 13 {
        'D'
    } else if nibble == 14 {
        'E'
    } else {
        'F'
    }
}

/// The lowest 16 bits of `value` as four upper-case hexadecimal digits, the
/// most significant first.
pub open spec fn short_hex(value: u64) -> Seq<char> {
    let low = value as int % 65536;
    seq![
        hex_digit(low / 4096),
        hex_digit((low / 256) % 16),
        hex_digit((low / 16) % 16),
        hex_digit(low % 16),
    ]
}

fn hex_digit_str(nibble: u64) -> (digit: &'static str)
    requires
        nibble < 16,
    ensures
        digit@ == seq![hex_digit(nibble as int)],
{
    proof {
        reveal_strlit("0");
        reveal_strlit("1");
        reveal_strlit("2");
        reveal_strlit("3");
        reveal_strlit("4");
        reveal_strlit("5");
        reveal_strlit("6");
        reveal_strlit("7");
        reveal_strlit("8");
        reveal_strlit("9");
        reveal_strlit("A");
        reveal_strlit("B");
        reveal_strlit("C");
        reveal_strlit("D");
        reveal_strlit("E");
        reveal_strlit("F");
    }
    if nibble == 0 {
        "0"
    } else if nibble == 1 {
        "1"
    } else if nibble == 2 {
        "2"
    } else if nibble == 3 {
        "3"
    } else if nibble == 4 {
        "4"
    } else if nibble == 5 {
        "5"
    } else if nibble == 6 {
        "6"
    } else if nibble == 7 {
        "7"
    } else if nibble == 8 {
        "8"
    } else if nibble == 9 {
        "9"
    } else if nibble == 10 {
        "A"
    } else if nibble == 11 {
        "B"
    } else if nibble == 12 {
        "C"
    } else if nibble == 13 {
        "D"
    } else if nibble == 14 {
        "E"
    } else {
        "F"
    }
}

impl Id {
    /// Two identifiers are the same iff their values are equal.
    pub broadcast proof fn lemma_same_value_same_id(a: Id, b: Id)
        ensures
            (#[trigger] a@ == #[trigger] b@) <==> a == b,
    {
    }

    /// The identifier with the given value.
    pub fn from_hash(value: u64) -> (id: Id)
        ensures
            id@ == value,
    {
        Id(value)
    }

    /// The identifier of a name: the hash of `source`.
    ///
    /// Which value a name gets is the hasher's business, and may differ from
    /// one build of the program to another.
    pub fn new(source: &str) -> Id {
        Id::from_hash(hash_of_str(source))
    }

    /// The value behind the identifier.
    pub fn value(&self) -> (value: u64)
        ensures
            value == self@,
    {
        self.0
    }

    /// A short readable summary: the lowest 16 bits as four hexadecimal
    /// digits.
    pub fn short_debug_format(&self) -> (text: String)
        ensures
            text@ == short_hex(self@),
    {
        let low: u64 = self.0 % 65536;
        let first = hex_digit_str(low / 4096);
        let second = hex_digit_str((low / 256) % 16);
        let third = hex_digit_str((low / 16) % 16);
        let fourth = hex_digit_str(low % 16);
        let mut text = String::from_str(first);
        text.append(second);
        text.append(third);
        text.append(fourth);
        text
    }
}

} // verus!
