//! Parsing and formatting of GUID strings.
//!
//! A GUID is held as its sixteen bytes; the string forms differ only in
//! braces and hyphens around the thirty-two hex digits.

use vstd::prelude::*;

use crate::hash::{hex_char, hex_upper};
use crate::text::chars_of;

verus! {

/// A hexadecimal digit, either case.
pub open spec fn is_hex_digit(c: char) -> bool {
    ('0' <= c <= '9') || ('a' <= c <= 'f') || ('A' <= c <= 'F')
}

/// The value of a hexadecimal digit.
pub open spec fn hex_val(c: char) -> int {
    if '0' <= c <= '9' {
        c as int - '0' as int
    } else if 'a' <= c <= 'f' {
        c as int - 'a' as int + 10
    } else {
        c as int - 'A' as int + 10
    }
}

/// The upper-case twin of a hexadecimal digit.
pub open spec fn upper_hex_char(c: char) -> char {
    hex_char(hex_val(c))
}

/// Whether some character of the sequence is `c`.
pub open spec fn has_char(s: Seq<char>, c: char) -> bool {
    exists|i: int| 0 <= i < s.len() && s[i] == c
}

/// A run of hexadecimal digits.
pub open spec fn all_hex(s: Seq<char>) -> bool {
    forall|i: int| 0 <= i < s.len() ==> is_hex_digit(#[trigger] s[i])
}

/// The strict braced shape `{8-4-4-4-12}`.
pub open spec fn braced_shape(s: Seq<char>) -> bool {
    &&& s.len() == 38
    &&& s[0] == '{'
    &&& s[37] == '}'
    &&& s[9] == '-'
    &&& s[14] == '-'
    &&& s[19] == '-'
    &&& s[24] == '-'
    &&& all_hex(s.subrange(1, 9))
    &&& all_hex(s.subrange(10, 14))
    &&& all_hex(s.subrange(15, 19))
    &&& all_hex(s.subrange(20, 24))
    &&& all_hex(s.subrange(25, 37))
}

/// The thirty-two digits of the braced form, in order.
pub open spec fn braced_digits(s: Seq<char>) -> Seq<char> {
    s.subrange(1, 9) + s.subrange(10, 14) + s.subrange(15, 19) + s.subrange(20, 24) + s.subrange(
        25,
        37,
    )
}

/// The canonical (upper-case) digits a GUID string denotes, when it has one
/// of the two accepted shapes: thirty-two bare digits — no leading brace,
/// no hyphen — or the strict braced form.
pub open spec fn spec_guid_digits_of(s: Seq<char>) -> Option<Seq<char>> {
    if s.len() < 32 {
        None
    } else if s[0] != '{' && !has_char(s, '-') {
        if all_hex(s.subrange(0, 32)) {
            Some(s.subrange(0, 32).map_values(|c: char| upper_hex_char(c)))
        } else {
            None
        }
    } else if braced_shape(s) {
        Some(braced_digits(s).map_values(|c: char| upper_hex_char(c)))
    } else {
        None
    }
}

/// A globally unique identifier, stored as its sixteen bytes.
pub struct Guid {
    bytes: Vec<u8>,
}

impl Guid {
    /// A parsed GUID always holds sixteen bytes.
    pub closed spec fn wf(self) -> bool {
        self.bytes@.len() == 16
    }

    /// The thirty-two upper-case hex digits of this GUID.
    pub closed spec fn spec_digits(self) -> Seq<char> {
        hex_upper(self.bytes@)
    }

    /// Reads a GUID from a string.  Thirty-two bare hex digits are
    /// accepted, as is the strict braced form; everything else — too short,
    /// a stray character, hyphens without the full shape — is refused.
    pub fn from_str(guid_str: &str) -> (r: Option<Guid>)
        ensures
            (r is Some) == (spec_guid_digits_of(guid_str@) is Some),
            r matches Some(g) ==> g.wf() && Some(g.spec_digits()) == spec_guid_digits_of(
                guid_str@,
            ),
    {
        let v = chars_of(guid_str);
        if v.len() < 32 {
            return None;
        }
        let mut has_dash = false;
        let mut i: usize = 0;
        while i < v.len()
            invariant
                i <= v@.len(),
                v@ == guid_str@,
                has_dash == has_char(v@.subrange(0, i as int), '-'),
            decreases v@.len() - i,
        {
            let ghost pre = v@.subrange(0, i as int);
            if v[i] == '-' {
                has_dash = true;
            }
            i += 1;
            proof {
                let cur = v@.subrange(0, i as int);
                assert(pre =~= cur.subrange(0, i - 1));
                if has_char(pre, '-') {
                    let j = choose|j: int| 0 <= j < pre.len() && pre[j] == '-';
                    assert(cur[j] == '-');
                }
                if v@[i - 1] == '-' {
                    assert(cur[i - 1] == '-');
                }
                if has_char(cur, '-') && !has_char(pre, '-') && v@[i - 1] != '-' {
                    let j = choose|j: int| 0 <= j < cur.len() && cur[j] == '-';
                    assert(pre[j] == '-');
                }
            }
        }
        proof {
            assert(v@.subrange(0, v@.len() as int) =~= v@);
        }
        if v[0] != '{' && !has_dash {
            // bare digits: the first thirty-two characters
            let mut bytes: Vec<u8> = Vec::new();
            let mut k: usize = 0;
            while k < 16
                invariant
                    v@ == guid_str@,
                    v@.len() >= 32,
                    v@[0] != '{',
                    !has_char(v@, '-'),
                    k <= 16,
                    bytes@.len() == k,
                    all_hex(v@.subrange(0, 2 * k as int)),
                    hex_upper(bytes@) =~= v@.subrange(0, 2 * k as int).map_values(
                        |c: char| upper_hex_char(c),
                    ),
                decreases 16 - k,
            {
                let hi = match hex_digit_val(v[2 * k]) {
                    Some(h) => h,
                    None => {
                        proof {
                            assert(v@.subrange(0, 32)[2 * k as int] == v@[2 * k as int]);
                            assert(!all_hex(v@.subrange(0, 32)));
                        }
                        return None;
                    },
                };
                let lo = match hex_digit_val(v[2 * k + 1]) {
                    Some(l) => l,
                    None => {
                        proof {
                            assert(v@.subrange(0, 32)[2 * k + 1] == v@[2 * k + 1]);
                            assert(!all_hex(v@.subrange(0, 32)));
                        }
                        return None;
                    },
                };
                push_byte(&mut bytes, hi, lo, Ghost(v@[2 * k as int]), Ghost(v@[2 * k + 1]));
                k += 1;
                proof {
                    assert(all_hex(v@.subrange(0, 2 * k as int)));
                    assert(hex_upper(bytes@) =~= v@.subrange(0, 2 * k as int).map_values(
                        |c: char| upper_hex_char(c),
                    ));
                }
            }
            proof {
                assert(v@.subrange(0, 32) =~= v@.subrange(0, 32).subrange(0, 32));
            }
            return Some(Guid { bytes });
        }
        // the strict braced form
        if v.len() != 38 {
            return None;
        }
        if !(v[0] == '{' && v[37] == '}' && v[9] == '-' && v[14] == '-' && v[19] == '-' && v[24]
            == '-') {
            return None;
        }
        let mut digits: Vec<char> = Vec::new();
        let mut k: usize = 1;
        while k < 9
            invariant
                v@ == guid_str@,
                v@.len() == 38,
                1 <= k <= 9,
                digits@ == v@.subrange(1, k as int),
            decreases 9 - k,
        {
            digits.push(v[k]);
            k += 1;
            proof {
                assert(digits@ =~= v@.subrange(1, k as int));
            }
        }
        let mut k: usize = 10;
        while k < 14
            invariant
                v@ == guid_str@,
                v@.len() == 38,
                10 <= k <= 14,
                digits@ == v@.subrange(1, 9) + v@.subrange(10, k as int),
            decreases 14 - k,
        {
            digits.push(v[k]);
            k += 1;
            proof {
                assert(digits@ =~= v@.subrange(1, 9) + v@.subrange(10, k as int));
            }
        }
        let mut k: usize = 15;
        while k < 19
            invariant
                v@ == guid_str@,
                v@.len() == 38,
                15 <= k <= 19,
                digits@ == v@.subrange(1, 9) + v@.subrange(10, 14) + v@.subrange(15, k as int),
            decreases 19 - k,
        {
            digits.push(v[k]);
            k += 1;
            proof {
                assert(digits@ =~= v@.subrange(1, 9) + v@.subrange(10, 14) + v@.subrange(
                    15,
                    k as int,
                ));
            }
        }
        let mut k: usize = 20;
        while k < 24
            invariant
                v@ == guid_str@,
                v@.len() == 38,
                20 <= k <= 24,
                digits@ == v@.subrange(1, 9) + v@.subrange(10, 14) + v@.subrange(15, 19)
                    + v@.subrange(20, k as int),
            decreases 24 - k,
        {
            digits.push(v[k]);
            k += 1;
            proof {
                assert(digits@ =~= v@.subrange(1, 9) + v@.subrange(10, 14) + v@.subrange(15, 19)
                    + v@.subrange(20, k as int));
            }
        }
        let mut k: usize = 25;
        while k < 37
            invariant
                v@ == guid_str@,
                v@.len() == 38,
                25 <= k <= 37,
                digits@ == v@.subrange(1, 9) + v@.subrange(10, 14) + v@.subrange(15, 19)
                    + v@.subrange(20, 24) + v@.subrange(25, k as int),
            decreases 37 - k,
        {
            digits.push(v[k]);
            k += 1;
            proof {
                assert(digits@ =~= v@.subrange(1, 9) + v@.subrange(10, 14) + v@.subrange(15, 19)
                    + v@.subrange(20, 24) + v@.subrange(25, k as int));
            }
        }
        proof {
            assert(digits@ =~= braced_digits(v@));
        }
        let mut bytes: Vec<u8> = Vec::new();
        let mut k: usize = 0;
        while k < 16
            invariant
                digits@ == braced_digits(guid_str@),
                digits@.len() == 32,
                guid_str@.len() == 38,
                guid_str@[0] == '{',
                guid_str@[37] == '}',
                guid_str@[9] == '-',
                guid_str@[14] == '-',
                guid_str@[19] == '-',
                guid_str@[24] == '-',
                k <= 16,
                bytes@.len() == k,
                all_hex(digits@.subrange(0, 2 * k as int)),
                hex_upper(bytes@) =~= digits@.subrange(0, 2 * k as int).map_values(
                    |c: char| upper_hex_char(c),
                ),
            decreases 16 - k,
        {
            let hi = match hex_digit_val(digits[2 * k]) {
                Some(h) => h,
                None => {
                    proof {
                        assert(!is_hex_digit(digits@[2 * k as int]));
                        assert(!all_hex(digits@));
                        if braced_shape(guid_str@) {
                            lemma_braced_digits_hex(guid_str@);
                        }
                    }
                    return None;
                },
            };
            let lo = match hex_digit_val(digits[2 * k + 1]) {
                Some(l) => l,
                None => {
                    proof {
                        assert(!is_hex_digit(digits@[2 * k + 1]));
                        assert(!all_hex(digits@));
                        if braced_shape(guid_str@) {
                            lemma_braced_digits_hex(guid_str@);
                        }
                    }
                    return None;
                },
            };
            push_byte(&mut bytes, hi, lo, Ghost(digits@[2 * k as int]), Ghost(digits@[2 * k + 1]));
            k += 1;
            proof {
                assert(all_hex(digits@.subrange(0, 2 * k as int)));
                assert(hex_upper(bytes@) =~= digits@.subrange(0, 2 * k as int).map_values(
                    |c: char| upper_hex_char(c),
                ));
            }
        }
        proof {
            assert(digits@.subrange(0, 32) =~= digits@);
            assert(all_hex(digits@));
            lemma_braced_shape_from_digits(guid_str@);
        }
        Some(Guid { bytes })
    }

    /// Formats the GUID.  `N` gives the bare digits, `D` the hyphenated
    /// form, `B` (or an empty specifier) braces around it, and `P`
    /// parentheses; any other specifier is refused.  Digits come out upper
    /// case.
    pub fn format(&self, specifier: &str) -> (r: Option<String>)
        requires
            self.wf(),
        ensures
            specifier@ == "N"@ ==> (r matches Some(s) && s@ == self.spec_digits()),
            specifier@ == "D"@ ==> (r matches Some(s) && s@ == spec_hyphenated(
                self.spec_digits(),
            )),
            (specifier@ == "B"@ || specifier@ == ""@) ==> (r matches Some(s) && s@ == seq!['{']
                + spec_hyphenated(self.spec_digits()) + seq!['}']),
            specifier@ == "P"@ ==> (r matches Some(s) && s@ == seq!['('] + spec_hyphenated(
                self.spec_digits(),
            ) + seq![')']),
            !(specifier@ == "N"@ || specifier@ == "D"@ || specifier@ == "B"@ || specifier@ == ""@
                || specifier@ == "P"@) ==> r is None,
    {
        proof {
            vstd::prelude::reveal_strlit("N");
            vstd::prelude::reveal_strlit("D");
            vstd::prelude::reveal_strlit("B");
            vstd::prelude::reveal_strlit("P");
            vstd::prelude::reveal_strlit("");
        }
        let digits = crate::hash::hex_upper_of(&self.bytes);
        let sv = chars_of(specifier);
        if sv.len() > 1 {
            proof {
                assert(specifier@.len() > 1);
            }
            return None;
        }
        if sv.len() == 0 {
            proof {
                assert(specifier@ =~= ""@);
            }
            return Some(self.braced(&digits, '{', '}'));
        }
        let c = sv[0];
        proof {
            assert(specifier@ =~= seq![c]);
            if c == 'N' {
                assert(specifier@ =~= "N"@);
            }
            if c == 'D' {
                assert(specifier@ =~= "D"@);
            }
            if c == 'B' {
                assert(specifier@ =~= "B"@);
            }
            if c == 'P' {
                assert(specifier@ =~= "P"@);
            }
        }
        if c == 'N' {
            Some(digits)
        } else if c == 'D' {
            Some(self.hyphenated(&digits))
        } else if c == 'B' {
            Some(self.braced(&digits, '{', '}'))
        } else if c == 'P' {
            Some(self.braced(&digits, '(', ')'))
        } else {
            proof {
                assert(specifier@ != "N"@ && specifier@ != "D"@ && specifier@ != "B"@
                    && specifier@ != "P"@ && specifier@ != ""@);
            }
            None
        }
    }

    /// The hyphenated form of the thirty-two digits.
    fn hyphenated(&self, digits: &String) -> (r: String)
        requires
            self.wf(),
            digits@ == self.spec_digits(),
        ensures
            r@ == spec_hyphenated(self.spec_digits()),
    {
        let v = chars_of(digits.as_str());
        proof {
            crate::hash::lemma_hex_upper_len(self.bytes@);
        }
        let mut out: Vec<char> = Vec::new();
        let mut i: usize = 0;
        while i < 32
            invariant
                v@ == self.spec_digits(),
                v@.len() == 32,
                i <= 32,
                out@ == spec_hyphenated_prefix(v@, i as int),
            decreases 32 - i,
        {
            if i == 8 || i == 12 || i == 16 || i == 20 {
                out.push('-');
            }
            out.push(v[i]);
            i += 1;
            proof {
                assert(out@ =~= spec_hyphenated_prefix(v@, i as int));
            }
        }
        proof {
            assert(out@ =~= spec_hyphenated(self.spec_digits()));
        }
        crate::text::string_of(&out)
    }

    /// The hyphenated form wrapped in the given pair of characters.
    fn braced(&self, digits: &String, open_c: char, close_c: char) -> (r: String)
        requires
            self.wf(),
            digits@ == self.spec_digits(),
        ensures
            r@ == seq![open_c] + spec_hyphenated(self.spec_digits()) + seq![close_c],
    {
        let mid = self.hyphenated(digits);
        let mut out: Vec<char> = Vec::new();
        out.push(open_c);
        let midv = chars_of(mid.as_str());
        let mut i: usize = 0;
        while i < midv.len()
            invariant
                midv@ == spec_hyphenated(self.spec_digits()),
                i <= midv@.len(),
                out@ == seq![open_c] + midv@.subrange(0, i as int),
            decreases midv@.len() - i,
        {
            out.push(midv[i]);
            i += 1;
            proof {
                assert(out@ =~= seq![open_c] + midv@.subrange(0, i as int));
            }
        }
        out.push(close_c);
        proof {
            assert(midv@.subrange(0, midv@.len() as int) =~= midv@);
            assert(out@ =~= seq![open_c] + spec_hyphenated(self.spec_digits()) + seq![close_c]);
        }
        crate::text::string_of(&out)
    }
}

/// The hyphenated rendering: `8-4-4-4-12`.
pub open spec fn spec_hyphenated(d: Seq<char>) -> Seq<char> {
    d.subrange(0, 8) + seq!['-'] + d.subrange(8, 12) + seq!['-'] + d.subrange(12, 16) + seq!['-']
        + d.subrange(16, 20) + seq!['-'] + d.subrange(20, 32)
}

/// The first `i` digits rendered with the hyphens that precede them.
spec fn spec_hyphenated_prefix(d: Seq<char>, i: int) -> Seq<char> {
    if i <= 8 {
        d.subrange(0, i)
    } else if i <= 12 {
        d.subrange(0, 8) + seq!['-'] + d.subrange(8, i)
    } else if i <= 16 {
        d.subrange(0, 8) + seq!['-'] + d.subrange(8, 12) + seq!['-'] + d.subrange(12, i)
    } else if i <= 20 {
        d.subrange(0, 8) + seq!['-'] + d.subrange(8, 12) + seq!['-'] + d.subrange(12, 16)
            + seq!['-'] + d.subrange(16, i)
    } else {
        d.subrange(0, 8) + seq!['-'] + d.subrange(8, 12) + seq!['-'] + d.subrange(12, 16)
            + seq!['-'] + d.subrange(16, 20) + seq!['-'] + d.subrange(20, i)
    }
}

/// The value of a hex digit, or nothing for any other character.
fn hex_digit_val(c: char) -> (r: Option<u8>)
    ensures
        (r is Some) == is_hex_digit(c),
        r matches Some(v) ==> v < 16 && v == hex_val(c),
{
    if '0' <= c && c <= '9' {
        Some((c as u32 - '0' as u32) as u8)
    } else if 'a' <= c && c <= 'f' {
        Some((c as u32 - 'a' as u32 + 10) as u8)
    } else if 'A' <= c && c <= 'F' {
        Some((c as u32 - 'A' as u32 + 10) as u8)
    } else {
        None
    }
}

/// Appends the byte of a hex digit pair, keeping the digit rendering in
/// step with the bytes read so far.
fn push_byte(bytes: &mut Vec<u8>, hi: u8, lo: u8, hic: Ghost<char>, loc: Ghost<char>)
    requires
        hi < 16,
        lo < 16,
        is_hex_digit(hic@),
        is_hex_digit(loc@),
        hi == hex_val(hic@),
        lo == hex_val(loc@),
    ensures
        final(bytes)@ == old(bytes)@.push((16 * hi + lo) as u8),
        hex_upper(final(bytes)@) == hex_upper(old(bytes)@) + seq![
            upper_hex_char(hic@),
            upper_hex_char(loc@),
        ],
{
    let b: u8 = 16 * hi + lo;
    bytes.push(b);
    proof {
        assert(bytes@.drop_last() =~= old(bytes)@);
        assert(b as int / 16 == hi as int && b as int % 16 == lo as int) by (nonlinear_arith)
            requires
                hi < 16,
                lo < 16,
                b == 16 * hi + lo,
        ;
        assert(hex_upper(bytes@) =~= hex_upper(old(bytes)@) + seq![
            upper_hex_char(hic@),
            upper_hex_char(loc@),
        ]);
    }
}

/// The digits of a well-shaped braced GUID are all hexadecimal.
proof fn lemma_braced_digits_hex(s: Seq<char>)
    requires
        braced_shape(s),
    ensures
        all_hex(braced_digits(s)),
{
    let d = braced_digits(s);
    assert forall|i: int| 0 <= i < d.len() implies is_hex_digit(#[trigger] d[i]) by {
        if i < 8 {
            assert(d[i] == s.subrange(1, 9)[i]);
        } else if i < 12 {
            assert(d[i] == s.subrange(10, 14)[i - 8]);
        } else if i < 16 {
            assert(d[i] == s.subrange(15, 19)[i - 12]);
        } else if i < 20 {
            assert(d[i] == s.subrange(20, 24)[i - 16]);
        } else {
            assert(d[i] == s.subrange(25, 37)[i - 20]);
        }
    }
}

/// A string whose braced digits are all hexadecimal, and which passed the
/// punctuation checks, has the braced shape.
proof fn lemma_braced_shape_from_digits(s: Seq<char>)
    requires
        s.len() == 38,
        s[0] == '{',
        s[37] == '}',
        s[9] == '-',
        s[14] == '-',
        s[19] == '-',
        s[24] == '-',
        all_hex(braced_digits(s)),
    ensures
        braced_shape(s),
{
    let d = braced_digits(s);
    assert forall|i: int| 0 <= i < 8 implies is_hex_digit(#[trigger] s.subrange(1, 9)[i]) by {
        assert(d[i] == s.subrange(1, 9)[i]);
    }
    assert forall|i: int| 0 <= i < 4 implies is_hex_digit(#[trigger] s.subrange(10, 14)[i]) by {
        assert(d[i + 8] == s.subrange(10, 14)[i]);
    }
    assert forall|i: int| 0 <= i < 4 implies is_hex_digit(#[trigger] s.subrange(15, 19)[i]) by {
        assert(d[i + 12] == s.subrange(15, 19)[i]);
    }
    assert forall|i: int| 0 <= i < 4 implies is_hex_digit(#[trigger] s.subrange(20, 24)[i]) by {
        assert(d[i + 16] == s.subrange(20, 24)[i]);
    }
    assert forall|i: int| 0 <= i < 12 implies is_hex_digit(#[trigger] s.subrange(25, 37)[i]) by {
        assert(d[i + 20] == s.subrange(25, 37)[i]);
    }
}

} // verus!
