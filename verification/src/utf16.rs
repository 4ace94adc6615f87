//! UTF-16.

use vstd::prelude::*;

verus! {

/// The UTF-16 code units of one character: one, or a pair of surrogates.
pub open spec fn char_units(c: char) -> Seq<u16> {
    let v = c as int;
    if v < 0x1_0000 {
        seq![v as u16]
    } else {
        seq![(0xD800 + (v - 0x1_0000) / 0x400) as u16, (0xDC00 + (v - 0x1_0000) % 0x400) as u16]
    }
}

/// The UTF-16 code units of a text.
pub open spec fn encode_utf16(s: Seq<char>) -> Seq<u16>
    decreases s.len(),
{
    if s.len() == 0 {
        Seq::empty()
    } else {
        char_units(s[0]) + encode_utf16(s.drop_first())
    }
}

pub open spec fn high_surrogate(u: u16) -> bool {
    0xD800 <= u < 0xDC00
}

pub open spec fn low_surrogate(u: u16) -> bool {
    0xDC00 <= u < 0xE000
}

/// The text of UTF-16 code units, with U+FFFD for each surrogate that is not part of
/// a pair.
pub open spec fn decode_utf16_lossy(u: Seq<u16>) -> Seq<char>
    decreases u.len(),
{
    if u.len() == 0 {
        Seq::empty()
    } else if u.len() > 1 && high_surrogate(u[0]) && low_surrogate(u[1]) {
        seq![(0x1_0000 + (u[0] - 0xD800) * 0x400 + (u[1] - 0xDC00)) as char] + decode_utf16_lossy(
            u.skip(2),
        )
    } else if high_surrogate(u[0]) || low_surrogate(u[0]) {
        seq!['\u{FFFD}'] + decode_utf16_lossy(u.drop_first())
    } else {
        seq![u[0] as char] + decode_utf16_lossy(u.drop_first())
    }
}

/// `String::from_utf16_lossy` decodes UTF-16, with U+FFFD in place of invalid data,
/// which is each unpaired surrogate.
pub assume_specification[ String::from_utf16_lossy ](v: &[u16]) -> (s: String)
    ensures
        s@ == decode_utf16_lossy(v@),
;

/// Appends the UTF-16 code units of one character.
fn push_char(units: &mut Vec<u16>, c: char)
    ensures
        final(units)@ == old(units)@ + char_units(c),
{
    let v: u32 = c as u32;
    if v < 0x1_0000 {
        units.push(v as u16);
    } else {
        units.push((0xD800 + (v - 0x1_0000) / 0x400) as u16);
        units.push((0xDC00 + (v - 0x1_0000) % 0x400) as u16);
    }
    assert(units@ =~= old(units)@ + char_units(c));
}

/// The UTF-16 code units of a text.
pub fn utf16_units(s: &str) -> (units: Vec<u16>)
    ensures
        units@ == encode_utf16(s@),
{
    let mut units: Vec<u16> = Vec::new();
    assert(s@.skip(0) =~= s@);
    for c in it: s.chars()
        invariant
            it.seq() == s@,
            units@ + encode_utf16(s@.skip(it.index())) =~= encode_utf16(s@),
    {
        assert(s@.skip(it.index()).drop_first() =~= s@.skip(it.index() + 1));
        push_char(&mut units, c);
    }
    assert(s@.skip(s@.len() as int) =~= Seq::<char>::empty());
    units
}

/// One unit stands for itself and is no surrogate; two units are a pair of surrogates
/// that stands for the character.
proof fn lemma_char_units(c: char)
    ensures
        ({
            let u = char_units(c);
            if u.len() == 1 {
                !high_surrogate(u[0]) && !low_surrogate(u[0]) && u[0] as char == c && (u[0] == 0
                    ==> c == '\0')
            } else {
                &&& u.len() == 2
                &&& high_surrogate(u[0])
                &&& low_surrogate(u[1])
                &&& (0x1_0000 + (u[0] - 0xD800) * 0x400 + (u[1] - 0xDC00)) as char == c
            }
        }),
{
    let v = c as int;
    assert(v < 0xD800 || 0xE000 <= v <= 0x10_FFFF);
    if v >= 0x1_0000 {
        let w = v - 0x1_0000;
        assert(w == (w / 0x400) * 0x400 + w % 0x400);
    }
}

/// Decoding the UTF-16 code units of a text gives the text back.
pub proof fn law_utf16_round_trip(s: Seq<char>)
    ensures
        decode_utf16_lossy(encode_utf16(s)) == s,
    decreases s.len(),
{
    if s.len() > 0 {
        let rest = s.drop_first();
        law_utf16_round_trip(rest);
        let u = encode_utf16(s);
        let c = s[0];
        lemma_char_units(c);
        if char_units(c).len() == 1 {
            assert(u.drop_first() =~= encode_utf16(rest));
        } else {
            assert(u.skip(2) =~= encode_utf16(rest));
        }
        assert(seq![c] + rest =~= s);
    }
}

/// Only the character U+0000 has the code unit 0.
pub proof fn lemma_zero_units(s: Seq<char>)
    requires
        !s.contains('\0'),
    ensures
        !encode_utf16(s).contains(0u16),
    decreases s.len(),
{
    if s.len() > 0 {
        let rest = s.drop_first();
        assert(!rest.contains('\0')) by {
            if rest.contains('\0') {
                let i = rest.index_of('\0');
                assert(s[i + 1] == '\0');
            }
        }
        lemma_zero_units(rest);
        let u = encode_utf16(s);
        assert(s[0] != '\0') by {
            assert(s.contains(s[0]));
        }
        assert forall|i: int| 0 <= i < u.len() implies u[i] != 0 by {
            let k = char_units(s[0]).len();
            if i >= k {
                assert(u[i] == encode_utf16(rest)[i - k]);
                assert(encode_utf16(rest).contains(encode_utf16(rest)[i - k]));
            } else {
                assert(u[i] == char_units(s[0])[i]);
                lemma_char_units(s[0]);
            }
        }
    }
}

/// What stands in front of the first U+0000.
pub open spec fn until_zero(s: Seq<char>) -> Seq<char>
    decreases s.len(),
{
    if s.len() == 0 || s[0] == '\0' {
        Seq::empty()
    } else {
        seq![s[0]] + until_zero(s.drop_first())
    }
}

/// The code units of a text begin with those of the part in front of the first U+0000, and
/// go on with a zero if there is one.
pub proof fn lemma_until_zero(s: Seq<char>)
    ensures
        !until_zero(s).contains('\0'),
        !s.contains('\0') ==> until_zero(s) == s,
        ({
            let u = encode_utf16(s);
            let v = encode_utf16(until_zero(s));
            &&& v.len() <= u.len()
            &&& u.take(v.len() as int) == v
            &&& v.len() < u.len() ==> u[v.len() as int] == 0
        }),
    decreases s.len(),
{
    let u = encode_utf16(s);
    if s.len() == 0 || s[0] == '\0' {
        assert(u.take(0) =~= encode_utf16(Seq::empty()));
        if s.len() > 0 {
            assert(s.contains(s[0]));
            assert(u[0] == char_units(s[0])[0]);
        }
    } else {
        let rest = s.drop_first();
        lemma_until_zero(rest);
        let p = until_zero(s);
        let v = encode_utf16(p);
        let k = char_units(s[0]).len();
        assert(p.drop_first() =~= until_zero(rest));
        assert(!p.contains('\0')) by {
            if p.contains('\0') {
                let i = p.index_of('\0');
                assert(until_zero(rest)[i - 1] == '\0');
            }
        }
        if !s.contains('\0') {
            assert(!rest.contains('\0')) by {
                if rest.contains('\0') {
                    let i = rest.index_of('\0');
                    assert(s[i + 1] == '\0');
                }
            }
            assert(p =~= s);
        }
        assert(v == char_units(s[0]) + encode_utf16(until_zero(rest)));
        assert(u.take(v.len() as int) =~= v) by {
            assert forall|i: int| k <= i < v.len() implies u[i] == v[i] by {
                let w = encode_utf16(rest);
                assert(w.take(v.len() - k)[i - k] == w[i - k]);
            }
        }
    }
}

/// A character below U+10000 is one code unit, its number. Any other is two, a high and a
/// low surrogate, which count the 1024s and the units above U+10000. The code units of a
/// text are those of its characters, one after the other.
pub proof fn law_utf16_of_a_text(s: Seq<char>, c: char)
    ensures
        encode_utf16(Seq::empty()) == Seq::<u16>::empty(),
        encode_utf16(seq![c] + s) == encode_utf16(seq![c]) + encode_utf16(s),
        ({
            let u = encode_utf16(seq![c]);
            let v = c as int;
            if v < 0x1_0000 {
                u.len() == 1 && u[0] == v
            } else {
                &&& u.len() == 2
                &&& 0xD800 <= u[0] < 0xDC00
                &&& 0xDC00 <= u[1] < 0xE000
                &&& v == 0x1_0000 + 0x400 * (u[0] - 0xD800) + (u[1] - 0xDC00)
            }
        }),
{
    let one = seq![c];
    assert((one + s).drop_first() =~= s);
    assert(one.drop_first() =~= Seq::<char>::empty());
    assert(encode_utf16(one.drop_first()) =~= Seq::<u16>::empty());
    assert(encode_utf16(one) =~= char_units(c));
    assert(encode_utf16(one + s) =~= encode_utf16(one) + encode_utf16(s));
    let v = c as int;
    assert(v < 0xD800 || 0xE000 <= v <= 0x10_FFFF);
    if v >= 0x1_0000 {
        let w = v - 0x1_0000;
        assert(w == (w / 0x400) * 0x400 + w % 0x400);
    }
}

/// A code unit that is no surrogate stands for the character with its number, and a high
/// surrogate with a low one behind it for one character. A surrogate without its other half
/// is replaced by U+FFFD.
pub proof fn law_text_of_utf16(u: u16, v: u16, rest: Seq<u16>)
    ensures
        decode_utf16_lossy(Seq::empty()) == Seq::<char>::empty(),
        u < 0xD800 || 0xE000 <= u ==> decode_utf16_lossy(seq![u] + rest) == seq![u as char]
            + decode_utf16_lossy(rest),
        0xD800 <= u < 0xDC00 && 0xDC00 <= v < 0xE000 ==> decode_utf16_lossy(seq![u, v] + rest)
            == seq![(0x1_0000 + 0x400 * (u - 0xD800) + (v - 0xDC00)) as char] + decode_utf16_lossy(
            rest,
        ),
        0xDC00 <= u < 0xE000 ==> decode_utf16_lossy(seq![u] + rest) == seq!['\u{FFFD}']
            + decode_utf16_lossy(rest),
        0xD800 <= u < 0xDC00 && (rest.len() > 0 ==> rest[0] < 0xDC00 || 0xE000 <= rest[0])
            ==> decode_utf16_lossy(seq![u] + rest) == seq!['\u{FFFD}'] + decode_utf16_lossy(rest),
{
    assert((seq![u] + rest).drop_first() =~= rest);
    assert((seq![u, v] + rest).skip(2) =~= rest);
}

} // verus!
