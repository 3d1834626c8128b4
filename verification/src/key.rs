//! Identifier validation: the RFC 4122 hyphenated UUID text form.
//!
//! A key is the 36-character hyphenated form, eight hexadecimal digits,
//! then three groups of four, then twelve, separated by `'-'`. Input may
//! use either letter case; the canonical stored form is lowercase.

use vstd::prelude::*;

verus! {

/// `c` is a hexadecimal digit of either case.
pub open spec fn is_hex_digit(c: char) -> bool {
    ('0' <= c && c <= '9') || ('a' <= c && c <= 'f') || ('A' <= c && c <= 'F')
}

/// `c` is a lowercase hexadecimal digit.
pub open spec fn is_lower_hex_digit(c: char) -> bool {
    ('0' <= c && c <= '9') || ('a' <= c && c <= 'f')
}

/// The four positions that hold `'-'` in the hyphenated form.
pub open spec fn is_uuid_hyphen_index(i: int) -> bool {
    i == 8 || i == 13 || i == 18 || i == 23
}

/// `s` is the hyphenated UUID text form, letters of either case.
pub open spec fn is_uuid_text(s: Seq<char>) -> bool {
    &&& s.len() == 36
    &&& forall|i: int|
        0 <= i < 36 && is_uuid_hyphen_index(i) ==> #[trigger] s[i] == '-'
    &&& forall|i: int|
        0 <= i < 36 && !is_uuid_hyphen_index(i) ==> is_hex_digit(#[trigger] s[i])
}

/// `s` is the canonical (lowercase) hyphenated UUID text form.
pub open spec fn is_canonical_uuid(s: Seq<char>) -> bool {
    &&& s.len() == 36
    &&& forall|i: int|
        0 <= i < 36 && is_uuid_hyphen_index(i) ==> #[trigger] s[i] == '-'
    &&& forall|i: int|
        0 <= i < 36 && !is_uuid_hyphen_index(i) ==> is_lower_hex_digit(#[trigger] s[i])
}

/// Lowercases the six uppercase hexadecimal letters; leaves all else alone.
pub open spec fn to_lower_hex(c: char) -> char {
    if c == 'A' {
        'a'
    } else if c == 'B' {
        'b'
    } else if c == 'C' {
        'c'
    } else if c == 'D' {
        'd'
    } else if c == 'E' {
        'e'
    } else if c == 'F' {
        'f'
    } else {
        c
    }
}

/// The canonical form of a UUID text: every character lowercased.
pub open spec fn canonical_of(s: Seq<char>) -> Seq<char> {
    s.map(|i: int, c: char| to_lower_hex(c))
}

/// Exec table from a character of the UUID alphabet to the lowercase
/// one-character string.
fn lower_hex_str(c: char) -> (r: &'static str)
    requires
        is_hex_digit(c),
    ensures
        r@ =~= seq![to_lower_hex(c)],
{
    proof {
        reveal_strlit("0");
        reveal_strlit("1");
        reveal_strlit("2");
        reveal_strlit("3");
        reveal_strlit("4");
        reveal_strlit("5");
        reveal_strlit("6");
        reveal_strlit("7");
        reveal_strlit("8");
        reveal_strlit("9");
        reveal_strlit("a");
        reveal_strlit("b");
        reveal_strlit("c");
        reveal_strlit("d");
        reveal_strlit("e");
        reveal_strlit("f");
    }
    if c == '0' {
        "0"
    } else if c == '1' {
        "1"
    } else if c == '2' {
        "2"
    } else if c == '3' {
        "3"
    } else if c == '4' {
        "4"
    } else if c == '5' {
        "5"
    } else if c == '6' {
        "6"
    } else if c == '7' {
        "7"
    } else if c == '8' {
        "8"
    } else if c == '9' {
        "9"
    } else if c == 'a' || c == 'A' {
        "a"
    } else if c == 'b' || c == 'B' {
        "b"
    } else if c == 'c' || c == 'C' {
        "c"
    } else if c == 'd' || c == 'D' {
        "d"
    } else if c == 'e' || c == 'E' {
        "e"
    } else {
        "f"
    }
}

/// A validated key: the canonical lowercase hyphenated UUID text form.
pub struct UuidKey {
    key: String,
}

impl View for UuidKey {
    type V = Seq<char>;

    closed spec fn view(&self) -> Seq<char> {
        self.key@
    }
}

impl UuidKey {
    /// The key holds the canonical form.
    pub open spec fn wf(&self) -> bool {
        is_canonical_uuid(self@)
    }

    /// Parses the hyphenated UUID text form, accepting hexadecimal letters
    /// of either case; succeeds exactly on well-formed input and returns
    /// the lowercase canonical key.
    pub fn parse(s: &str) -> (r: Option<UuidKey>)
        ensures
            r is Some <==> is_uuid_text(s@),
            r is Some ==> r->0@ == canonical_of(s@) && r->0.wf(),
    {
        let n: usize = s.unicode_len();
        if n != 36 {
            return None;
        }
        let mut out = String::new();
        let mut i: usize = 0;
        proof {
            assert(out@ =~= canonical_of(s@).take(0));
        }
        while i < 36
            invariant
                i <= 36,
                s@.len() == 36,
                out@ =~= canonical_of(s@).take(i as int),
                forall|j: int|
                    0 <= j < i && is_uuid_hyphen_index(j) ==> #[trigger] s@[j] == '-',
                forall|j: int|
                    0 <= j < i && !is_uuid_hyphen_index(j) ==> is_hex_digit(#[trigger] s@[j]),
            decreases 36 - i,
        {
            let c = s.get_char(i);
            if i == 8 || i == 13 || i == 18 || i == 23 {
                if c != '-' {
                    proof {
                        assert(!is_uuid_text(s@));
                    }
                    return None;
                }
                proof {
                    reveal_strlit("-");
                }
                out.append("-");
            } else {
                let hex = ('0' <= c && c <= '9') || ('a' <= c && c <= 'f') || ('A' <= c && c
                    <= 'F');
                if !hex {
                    proof {
                        assert(!is_hex_digit(s@[i as int]));
                        assert(!is_uuid_text(s@));
                    }
                    return None;
                }
                out.append(lower_hex_str(c));
            }
            proof {
                let cs = canonical_of(s@);
                assert(cs[i as int] == to_lower_hex(s@[i as int]));
                assert(cs.take(i + 1) =~= cs.take(i as int).push(cs[i as int]));
                assert(out@ =~= cs.take(i + 1));
            }
            i += 1;
        }
        proof {
            assert(is_uuid_text(s@));
            let cs = canonical_of(s@);
            assert(cs.take(36) =~= cs);
            assert(out@ =~= cs);
            assert(is_canonical_uuid(cs)) by {
                assert(forall|j: int|
                    0 <= j < 36 && is_uuid_hyphen_index(j) ==> #[trigger] cs[j] == '-');
                assert(forall|j: int|
                    0 <= j < 36 && !is_uuid_hyphen_index(j) ==> is_lower_hex_digit(
                        #[trigger] cs[j],
                    ));
            }
        }
        Some(UuidKey { key: out })
    }

    /// The key as a string slice.
    pub fn as_str(&self) -> (r: &str)
        ensures
            r@ == self@,
    {
        self.key.as_str()
    }

    /// An owned copy of the key text.
    pub fn key_string(&self) -> (r: String)
        ensures
            r@ == self@,
    {
        self.key.clone()
    }
}

} // verus!
