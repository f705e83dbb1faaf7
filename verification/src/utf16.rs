//! UTF-16 decoding for the store's fixed-width text values.
//!
//! The store's text values are sequences of 16-bit code units,
//! conventionally NUL-terminated but not reliably so.  The lossy decoder
//! truncates at the first zero code unit and decodes the prefix,
//! replacing every unpaired surrogate with U+FFFD so that no input can
//! abort a traversal.  The strict decoder refuses unpaired surrogates
//! instead; multi-string values use it.

use vstd::prelude::*;

use crate::text::char_from_u32;
use crate::text::chars_to_string;

verus! {

pub open spec fn is_high_surrogate(u: u16) -> bool {
    0xD800 <= u < 0xDC00
}

pub open spec fn is_low_surrogate(u: u16) -> bool {
    0xDC00 <= u < 0xE000
}

/// The scalar value encoded by a surrogate pair.
pub open spec fn combined_scalar(h: u16, l: u16) -> int {
    0x10000 + (h - 0xD800) * 0x400 + (l - 0xDC00)
}

pub open spec fn replacement_char() -> char {
    '\u{FFFD}'
}

/// UTF-16 decoding with replacement: surrogate pairs combine, every
/// unpaired surrogate becomes U+FFFD, every other unit is its own
/// character.
pub open spec fn spec_decode_utf16(s: Seq<u16>) -> Seq<char>
    decreases s.len(),
{
    if s.len() == 0 {
        Seq::empty()
    } else if is_high_surrogate(s[0]) && s.len() >= 2 && is_low_surrogate(s[1]) {
        seq![combined_scalar(s[0], s[1]) as char] + spec_decode_utf16(s.skip(2))
    } else if is_high_surrogate(s[0]) || is_low_surrogate(s[0]) {
        seq![replacement_char()] + spec_decode_utf16(s.skip(1))
    } else {
        seq![s[0] as char] + spec_decode_utf16(s.skip(1))
    }
}

/// Whether the sequence is well-formed UTF-16: every surrogate is part
/// of a high/low pair.
pub open spec fn spec_utf16_valid(s: Seq<u16>) -> bool
    decreases s.len(),
{
    if s.len() == 0 {
        true
    } else if is_high_surrogate(s[0]) && s.len() >= 2 && is_low_surrogate(s[1]) {
        spec_utf16_valid(s.skip(2))
    } else if is_high_surrogate(s[0]) || is_low_surrogate(s[0]) {
        false
    } else {
        spec_utf16_valid(s.skip(1))
    }
}

/// The prefix of the sequence before its first zero code unit, or the
/// whole sequence if it has none.
pub open spec fn take_until_nul(s: Seq<u16>) -> Seq<u16>
    decreases s.len(),
{
    if s.len() == 0 {
        Seq::empty()
    } else if s[0] == 0 {
        Seq::empty()
    } else {
        seq![s[0]] + take_until_nul(s.drop_first())
    }
}

/// What the lossy fixed-width decoder returns: the decoding of the
/// prefix before the first zero code unit.
pub open spec fn spec_decode_utf16_lossy(s: Seq<u16>) -> Seq<char> {
    spec_decode_utf16(take_until_nul(s))
}

/// `take_until_nul` is the prefix up to the first zero, index form.
pub proof fn lemma_take_until_nul_is_take(s: Seq<u16>, i: int)
    requires
        0 <= i <= s.len(),
        forall|j: int| 0 <= j < i ==> s[j] != 0,
        i == s.len() || s[i] == 0,
    ensures
        take_until_nul(s) == s.take(i),
    decreases s.len(),
{
    if s.len() == 0 {
        assert(take_until_nul(s) =~= s.take(i));
    } else if i == 0 {
        assert(take_until_nul(s) =~= s.take(i));
    } else {
        assert(s[0] != 0);
        let rest = s.drop_first();
        assert(forall|j: int| 0 <= j < i - 1 ==> rest[j] != 0);
        assert(i - 1 == rest.len() || rest[i - 1] == 0);
        lemma_take_until_nul_is_take(rest, i - 1);
        assert(take_until_nul(s) == seq![s[0]] + rest.take(i - 1));
        assert(seq![s[0]] + rest.take(i - 1) =~= s.take(i));
    }
}

/// Decoding depends on the code units alone: equal buffers decode
/// equally.  The lossy decoder keeps no state between calls.
pub proof fn lemma_decode_lossy_deterministic(a: Seq<u16>, b: Seq<u16>)
    requires
        a == b,
    ensures
        spec_decode_utf16_lossy(a) == spec_decode_utf16_lossy(b),
{
}

/// The truncation law: with a first zero at index `i`, the lossy decoder
/// decodes exactly the prefix before `i`; with no zero at all, it
/// decodes the whole buffer.
pub proof fn lemma_truncation_at_first_nul(s: Seq<u16>, i: int)
    requires
        0 <= i < s.len(),
        s[i] == 0,
        forall|j: int| 0 <= j < i ==> s[j] != 0,
    ensures
        spec_decode_utf16_lossy(s) == spec_decode_utf16(s.take(i)),
{
    lemma_take_until_nul_is_take(s, i);
}

/// The truncation law, second half: a buffer without zero code units is
/// decoded in full.
pub proof fn lemma_no_nul_decodes_whole(s: Seq<u16>)
    requires
        forall|j: int| 0 <= j < s.len() ==> s[j] != 0,
    ensures
        spec_decode_utf16_lossy(s) == spec_decode_utf16(s),
{
    lemma_take_until_nul_is_take(s, s.len() as int);
    assert(s.take(s.len() as int) =~= s);
}

/// UTF-16 decoding with replacement, over a whole buffer.
pub fn decode_utf16(units: &[u16]) -> (r: String)
    ensures
        r@ == spec_decode_utf16(units@),
{
    let n = units.len();
    let mut out: Vec<char> = Vec::new();
    let mut i: usize = 0;
    proof {
        assert(units@.skip(0) =~= units@);
    }
    while i < n
        invariant
            i <= n,
            n == units@.len(),
            spec_decode_utf16(units@) == out@ + spec_decode_utf16(units@.skip(i as int)),
        decreases n - i,
    {
        let ghost tail = units@.skip(i as int);
        let u = units[i];
        proof {
            assert(tail[0] == units@[i as int]);
        }
        if 0xD800 <= u && u < 0xDC00 && i + 1 < n && 0xDC00 <= units[i + 1] && units[i + 1]
            < 0xE000 {
            let h = u as u32;
            let l = units[i + 1] as u32;
            let cp: u32 = 0x10000 + (h - 0xD800) * 0x400 + (l - 0xDC00);
            proof {
                assert(tail.len() >= 2 && tail[1] == units@[i + 1]);
                assert(cp == combined_scalar(tail[0], tail[1]));
                assert(0x10000 <= cp <= 0x10FFFF);
            }
            let c = char_from_u32(cp);
            out.push(c);
            proof {
                assert(tail.skip(2) =~= units@.skip(i + 2));
                assert(spec_decode_utf16(tail) == seq![combined_scalar(tail[0], tail[1]) as char]
                    + spec_decode_utf16(tail.skip(2)));
                assert(spec_decode_utf16(units@) =~= out@ + spec_decode_utf16(units@.skip(i + 2)));
            }
            i += 2;
        } else if 0xD800 <= u && u < 0xE000 {
            out.push('\u{FFFD}');
            proof {
                assert(tail.skip(1) =~= units@.skip(i + 1));
                assert(spec_decode_utf16(tail) == seq![replacement_char()] + spec_decode_utf16(
                    tail.skip(1),
                ));
                assert(spec_decode_utf16(units@) =~= out@ + spec_decode_utf16(units@.skip(i + 1)));
            }
            i += 1;
        } else {
            let c = char_from_u32(u as u32);
            out.push(c);
            proof {
                assert(tail.skip(1) =~= units@.skip(i + 1));
                assert(c == tail[0] as char);
                assert(spec_decode_utf16(tail) == seq![tail[0] as char] + spec_decode_utf16(
                    tail.skip(1),
                ));
                assert(spec_decode_utf16(units@) =~= out@ + spec_decode_utf16(units@.skip(i + 1)));
            }
            i += 1;
        }
    }
    proof {
        assert(units@.skip(n as int) =~= Seq::<u16>::empty());
        assert(out@ =~= spec_decode_utf16(units@));
    }
    chars_to_string(&out)
}

/// Strict UTF-16 decoding: `None` exactly on ill-formed input.
pub fn decode_utf16_strict(units: &[u16]) -> (r: Option<String>)
    ensures
        spec_utf16_valid(units@) ==> (r matches Some(s) && s@ == spec_decode_utf16(units@)),
        !spec_utf16_valid(units@) ==> r is None,
{
    let n = units.len();
    let mut out: Vec<char> = Vec::new();
    let mut i: usize = 0;
    proof {
        assert(units@.skip(0) =~= units@);
    }
    while i < n
        invariant
            i <= n,
            n == units@.len(),
            spec_utf16_valid(units@) == spec_utf16_valid(units@.skip(i as int)),
            spec_utf16_valid(units@) ==> spec_decode_utf16(units@) == out@ + spec_decode_utf16(
                units@.skip(i as int),
            ),
        decreases n - i,
    {
        let ghost tail = units@.skip(i as int);
        let u = units[i];
        proof {
            assert(tail[0] == units@[i as int]);
        }
        if 0xD800 <= u && u < 0xDC00 && i + 1 < n && 0xDC00 <= units[i + 1] && units[i + 1]
            < 0xE000 {
            let h = u as u32;
            let l = units[i + 1] as u32;
            let cp: u32 = 0x10000 + (h - 0xD800) * 0x400 + (l - 0xDC00);
            proof {
                assert(tail.len() >= 2 && tail[1] == units@[i + 1]);
                assert(cp == combined_scalar(tail[0], tail[1]));
                assert(0x10000 <= cp <= 0x10FFFF);
            }
            let c = char_from_u32(cp);
            out.push(c);
            proof {
                assert(tail.skip(2) =~= units@.skip(i + 2));
                assert(spec_utf16_valid(tail) == spec_utf16_valid(tail.skip(2)));
                if spec_utf16_valid(units@) {
                    assert(spec_decode_utf16(tail) == seq![
                        combined_scalar(tail[0], tail[1]) as char,
                    ] + spec_decode_utf16(tail.skip(2)));
                    assert(spec_decode_utf16(units@) =~= out@ + spec_decode_utf16(
                        units@.skip(i + 2),
                    ));
                }
            }
            i += 2;
        } else if 0xD800 <= u && u < 0xE000 {
            proof {
                assert(!spec_utf16_valid(tail));
            }
            return Option::None;
        } else {
            let c = char_from_u32(u as u32);
            out.push(c);
            proof {
                assert(tail.skip(1) =~= units@.skip(i + 1));
                assert(c == tail[0] as char);
                assert(spec_utf16_valid(tail) == spec_utf16_valid(tail.skip(1)));
                if spec_utf16_valid(units@) {
                    assert(spec_decode_utf16(tail) == seq![tail[0] as char] + spec_decode_utf16(
                        tail.skip(1),
                    ));
                    assert(spec_decode_utf16(units@) =~= out@ + spec_decode_utf16(
                        units@.skip(i + 1),
                    ));
                }
            }
            i += 1;
        }
    }
    proof {
        assert(units@.skip(n as int) =~= Seq::<u16>::empty());
        if spec_utf16_valid(units@) {
            assert(out@ =~= spec_decode_utf16(units@));
        }
    }
    Option::Some(chars_to_string(&out))
}

/// The lossy fixed-width decoder: truncate at the first zero code unit,
/// then decode with replacement.  Total; it never fails and never
/// panics, whatever the buffer holds.
pub fn decode_utf16_lossy(units: &[u16]) -> (r: String)
    ensures
        r@ == spec_decode_utf16_lossy(units@),
{
    let n = units.len();
    let mut i: usize = 0;
    while i < n && units[i] != 0
        invariant
            i <= n,
            n == units@.len(),
            forall|j: int| 0 <= j < i ==> units@[j] != 0,
        decreases n - i,
    {
        i += 1;
    }
    let end = i;
    proof {
        lemma_take_until_nul_is_take(units@, end as int);
    }
    let mut prefix: Vec<u16> = Vec::new();
    let mut k: usize = 0;
    while k < end
        invariant
            k <= end <= n,
            n == units@.len(),
            prefix@ == units@.take(k as int),
        decreases end - k,
    {
        prefix.push(units[k]);
        proof {
            assert(units@.take(k + 1) =~= units@.take(k as int).push(units@[k as int]));
        }
        k += 1;
    }
    proof {
        assert(prefix@ == units@.take(end as int));
        assert(take_until_nul(units@) == units@.take(end as int));
    }
    decode_utf16(prefix.as_slice())
}

} // verus!
