use vstd::prelude::*;
use crate::color::Rgba;

verus! {

/// Is `b` an ASCII whitespace byte: space, tab, line feed, vertical tab,
/// form feed or carriage return?
pub open spec fn is_space(b: u8) -> bool {
    b == 32 || b == 9 || b == 10 || b == 11 || b == 12 || b == 13
}

/// Do `a`, `b` form a two-byte UTF-8 whitespace character: U+0085 (next
/// line) or U+00A0 (no-break space)?
pub open spec fn is_space2(a: u8, b: u8) -> bool {
    a == 0xC2 && (b == 0x85 || b == 0xA0)
}

/// Do `a`, `b`, `c` form a three-byte UTF-8 whitespace character: U+1680,
/// U+2000 through U+200A, U+2028, U+2029, U+202F, U+205F or U+3000?
pub open spec fn is_space3(a: u8, b: u8, c: u8) -> bool {
    (a == 0xE1 && b == 0x9A && c == 0x80) || (a == 0xE2 && b == 0x80 && (0x80 <= c <= 0x8A || c
        == 0xA8 || c == 0xA9 || c == 0xAF)) || (a == 0xE2 && b == 0x81 && c == 0x9F) || (a
        == 0xE3 && b == 0x80 && c == 0x80)
}

/// The byte length of the whitespace character at the start of `s`, or 0
/// when `s` does not start with whitespace.
pub open spec fn lead_space(s: Seq<u8>) -> nat {
    if s.len() >= 1 && is_space(s[0]) {
        1
    } else if s.len() >= 2 && is_space2(s[0], s[1]) {
        2
    } else if s.len() >= 3 && is_space3(s[0], s[1], s[2]) {
        3
    } else {
        0
    }
}

/// The byte length of the whitespace character at the end of `s`, or 0
/// when `s` does not end with whitespace.
pub open spec fn trail_space(s: Seq<u8>) -> nat {
    if s.len() >= 1 && is_space(s.last()) {
        1
    } else if s.len() >= 2 && is_space2(s[s.len() - 2], s.last()) {
        2
    } else if s.len() >= 3 && is_space3(s[s.len() - 3], s[s.len() - 2], s.last()) {
        3
    } else {
        0
    }
}

/// `s` without its leading and trailing whitespace, as `str::trim` strips
/// it: every Unicode whitespace character, read over UTF-8 bytes.
pub open spec fn trim_spec(s: Seq<u8>) -> Seq<u8>
    decreases s.len(),
{
    if lead_space(s) > 0 {
        trim_spec(s.skip(lead_space(s) as int))
    } else if trail_space(s) > 0 {
        trim_spec(s.take(s.len() - trail_space(s)))
    } else {
        s
    }
}

/// Is `b` an ASCII whitespace byte?
pub fn space_byte(b: u8) -> (r: bool)
    ensures
        r == is_space(b),
{
    b == 32 || b == 9 || b == 10 || b == 11 || b == 12 || b == 13
}

/// The byte length of the whitespace character that starts the range
/// `lo..hi` of `s`, or 0 when the range does not start with whitespace.
fn lead_space_at(s: &Vec<u8>, lo: usize, hi: usize) -> (k: usize)
    requires
        0 <= lo <= hi <= s@.len(),
    ensures
        k == lead_space(s@.subrange(lo as int, hi as int)),
{
    let ghost sub = s@.subrange(lo as int, hi as int);
    if hi - lo >= 1 && space_byte(s[lo]) {
        1
    } else if hi - lo >= 2 && s[lo] == 0xC2 && (s[lo + 1] == 0x85 || s[lo + 1] == 0xA0) {
        proof {
            assert(sub[0] == s@[lo as int] && sub[1] == s@[lo as int + 1]);
        }
        2
    } else if hi - lo >= 3 && (s[lo] == 0xE1 || s[lo] == 0xE2 || s[lo] == 0xE3) {
        let (a, b, c) = (s[lo], s[lo + 1], s[lo + 2]);
        proof {
            assert(sub[0] == a && sub[1] == b && sub[2] == c);
        }
        if (a == 0xE1 && b == 0x9A && c == 0x80) || (a == 0xE2 && b == 0x80 && (0x80 <= c && c
            <= 0x8A || c == 0xA8 || c == 0xA9 || c == 0xAF)) || (a == 0xE2 && b == 0x81 && c
            == 0x9F) || (a == 0xE3 && b == 0x80 && c == 0x80) {
            3
        } else {
            0
        }
    } else {
        0
    }
}

/// The byte length of the whitespace character that ends the range
/// `lo..hi` of `s`, or 0 when the range does not end with whitespace.
fn trail_space_at(s: &Vec<u8>, lo: usize, hi: usize) -> (k: usize)
    requires
        0 <= lo <= hi <= s@.len(),
    ensures
        k == trail_space(s@.subrange(lo as int, hi as int)),
{
    let ghost sub = s@.subrange(lo as int, hi as int);
    if hi - lo >= 1 && space_byte(s[hi - 1]) {
        1
    } else if hi - lo >= 2 && s[hi - 2] == 0xC2 && (s[hi - 1] == 0x85 || s[hi - 1] == 0xA0) {
        proof {
            assert(sub[sub.len() - 2] == s@[hi as int - 2] && sub.last() == s@[hi as int - 1]);
        }
        2
    } else if hi - lo >= 3 && (s[hi - 3] == 0xE1 || s[hi - 3] == 0xE2 || s[hi - 3] == 0xE3) {
        let (a, b, c) = (s[hi - 3], s[hi - 2], s[hi - 1]);
        proof {
            assert(sub[sub.len() - 3] == a && sub[sub.len() - 2] == b && sub.last() == c);
        }
        if (a == 0xE1 && b == 0x9A && c == 0x80) || (a == 0xE2 && b == 0x80 && (0x80 <= c && c
            <= 0x8A || c == 0xA8 || c == 0xA9 || c == 0xAF)) || (a == 0xE2 && b == 0x81 && c
            == 0x9F) || (a == 0xE3 && b == 0x80 && c == 0x80) {
            3
        } else {
            0
        }
    } else {
        0
    }
}

/// Copies `s` without its leading and trailing whitespace, every Unicode
/// whitespace character included, read over UTF-8 bytes.
pub fn trim_bytes(s: &Vec<u8>) -> (t: Vec<u8>)
    ensures
        t@ == trim_spec(s@),
{
    let mut lo: usize = 0;
    let mut hi: usize = s.len();
    proof {
        assert(s@.subrange(0, s@.len() as int) =~= s@);
    }
    loop
        invariant_except_break
            0 <= lo <= hi <= s@.len(),
            trim_spec(s@) == trim_spec(s@.subrange(lo as int, hi as int)),
        ensures
            0 <= lo <= hi <= s@.len(),
            trim_spec(s@) == s@.subrange(lo as int, hi as int),
        decreases hi - lo,
    {
        let ghost sub = s@.subrange(lo as int, hi as int);
        let k = lead_space_at(s, lo, hi);
        if k > 0 {
            proof {
                assert(sub.skip(k as int) =~= s@.subrange(lo as int + k, hi as int));
            }
            lo += k;
        } else {
            let k2 = trail_space_at(s, lo, hi);
            if k2 > 0 {
                proof {
                    assert(sub.take(sub.len() - k2) =~= s@.subrange(
                        lo as int,
                        hi as int - k2,
                    ));
                }
                hi -= k2;
            } else {
                proof {
                    assert(trim_spec(sub) == sub);
                }
                break ;
            }
        }
    }
    vstd::slice::slice_to_vec(vstd::slice::slice_subrange(s.as_slice(), lo, hi))
}

/// Is every byte of `s` an ASCII digit?
pub open spec fn all_digits(s: Seq<u8>) -> bool {
    forall|i: int| 0 <= i < s.len() ==> 48 <= #[trigger] s[i] <= 57
}

/// The numeric value of a run of ASCII digits, most significant first.
pub open spec fn dec_value(s: Seq<u8>) -> int
    decreases s.len(),
{
    if s.len() == 0 {
        0
    } else {
        10 * dec_value(s.drop_last()) + (s.last() - 48)
    }
}

/// What `u8::from_str` makes of `s`: an optional leading plus sign, then at
/// least one decimal digit, with a value of at most 255. A minus sign, any
/// other byte, a missing digit run or a larger value is rejected.
pub open spec fn parse_u8_spec(s: Seq<u8>) -> Option<u8> {
    let t = if s.len() > 0 && s[0] == 43 {
        s.drop_first()
    } else {
        s
    };
    if t.len() > 0 && all_digits(t) && dec_value(t) <= 255 {
        Some(dec_value(t) as u8)
    } else {
        None
    }
}

/// The value of a digit run stays nonnegative.
proof fn lemma_dec_value_nonneg(s: Seq<u8>)
    requires
        all_digits(s),
    ensures
        dec_value(s) >= 0,
    decreases s.len(),
{
    if s.len() > 0 {
        assert(all_digits(s.drop_last())) by {
            assert(forall|i: int|
                0 <= i < s.len() - 1 ==> 48 <= #[trigger] s.drop_last()[i] <= 57);
        }
        lemma_dec_value_nonneg(s.drop_last());
    }
}

/// Reads a byte value as `u8::from_str` does.
pub fn parse_u8_bytes(s: &Vec<u8>) -> (r: Option<u8>)
    ensures
        r == parse_u8_spec(s@),
{
    let ghost t = if s@.len() > 0 && s@[0] == 43 {
        s@.drop_first()
    } else {
        s@
    };
    let start: usize = if s.len() > 0 && s[0] == 43 {
        1
    } else {
        0
    };
    proof {
        assert(t =~= s@.skip(start as int));
    }
    if s.len() == start {
        return None;
    }
    let mut acc: u32 = 0;
    let mut too_big = false;
    let mut i: usize = start;
    while i < s.len()
        invariant
            t == s@.skip(start as int),
            t == (if s@.len() > 0 && s@[0] == 43 {
                s@.drop_first()
            } else {
                s@
            }),
            start <= i <= s@.len(),
            s@.len() > start,
            start == (if s@.len() > 0 && s@[0] == 43 {
                1int
            } else {
                0int
            }),
            t.len() == s@.len() - start,
            all_digits(t.take(i - start)),
            !too_big ==> acc == dec_value(t.take(i - start)) && acc <= 255,
            too_big ==> dec_value(t.take(i - start)) > 255,
        decreases s@.len() - i,
    {
        let ghost j = i - start;
        let b = s[i];
        proof {
            assert(t[j] == s@[i as int]);
        }
        if b < 48 || b > 57 {
            proof {
                assert(!all_digits(t));
            }
            return None;
        }
        proof {
            assert(t.take(j + 1).drop_last() =~= t.take(j));
            assert(t.take(j + 1).last() == t[j]);
            assert(dec_value(t.take(j + 1)) == 10 * dec_value(t.take(j)) + (b - 48));
            assert(all_digits(t.take(j + 1)));
            if too_big {
                lemma_dec_value_nonneg(t.take(j));
            }
        }
        if !too_big {
            let a2 = acc * 10 + (b - 48) as u32;
            if a2 > 255 {
                too_big = true;
            } else {
                acc = a2;
            }
        }
        i += 1;
    }
    proof {
        assert(t.take(s@.len() - start) =~= t);
    }
    if too_big {
        None
    } else {
        Some(acc as u8)
    }
}

/// The position of the first comma in `s`, or the length of `s` if it has
/// none.
pub open spec fn first_comma(s: Seq<u8>) -> nat
    decreases s.len(),
{
    if s.len() == 0 {
        0
    } else if s[0] == 44 {
        0
    } else {
        1 + first_comma(s.drop_first())
    }
}

/// The first comma is where the first comma stands.
proof fn lemma_first_comma_at(s: Seq<u8>, m: int)
    requires
        0 <= m <= s.len(),
        forall|k: int| 0 <= k < m ==> s[k] != 44,
        m < s.len() ==> s[m] == 44,
        m == s.len() ==> forall|k: int| 0 <= k < s.len() ==> s[k] != 44,
    ensures
        first_comma(s) == m,
    decreases s.len(),
{
    if s.len() == 0 {
    } else if s[0] == 44 {
        assert(m == 0);
    } else {
        let t = s.drop_first();
        lemma_first_comma_at(t, m - 1);
    }
}

/// The comma-separated fields of `s`, in order; a field may be empty, and a
/// string with no comma at all is a single field.
pub open spec fn split_fields(s: Seq<u8>) -> Seq<Seq<u8>>
    decreases s.len(),
{
    let i = first_comma(s);
    if i >= s.len() {
        seq![s]
    } else {
        seq![s.take(i as int)] + split_fields(s.skip(i as int + 1))
    }
}

/// Splits `s` at every comma.
pub fn split_bytes(s: &Vec<u8>) -> (r: Vec<Vec<u8>>)
    ensures
        r@.map_values(|f: Vec<u8>| f@) == split_fields(s@),
{
    let mut r: Vec<Vec<u8>> = Vec::new();
    let mut p: usize = 0;
    proof {
        assert(r@.map_values(|f: Vec<u8>| f@) =~= Seq::<Seq<u8>>::empty());
        assert(s@.skip(0) =~= s@);
    }
    loop
        invariant_except_break
            0 <= p <= s@.len(),
            r@.map_values(|f: Vec<u8>| f@) + split_fields(s@.skip(p as int)) == split_fields(
                s@,
            ),
        ensures
            r@.map_values(|f: Vec<u8>| f@) == split_fields(s@),
        decreases s@.len() - p + 1,
    {
        let ghost r0 = r@;
        let ghost rest = s@.skip(p as int);
        let mut j: usize = p;
        while j < s.len() && s[j] != 44
            invariant
                p <= j <= s@.len(),
                forall|k: int| p <= k < j ==> s@[k] != 44,
            decreases s@.len() - j,
        {
            j += 1;
        }
        proof {
            assert forall|k: int| 0 <= k < j - p implies rest[k] != 44 by {
                assert(rest[k] == s@[p + k]);
            }
            if j < s@.len() {
                assert(rest[j - p] == 44);
            } else {
                assert(forall|k: int| 0 <= k < rest.len() ==> rest[k] != 44);
            }
            lemma_first_comma_at(rest, j - p);
        }
        let field = vstd::slice::slice_to_vec(vstd::slice::slice_subrange(s.as_slice(), p, j));
        r.push(field);
        proof {
            assert(r@.map_values(|f: Vec<u8>| f@) =~= r0.map_values(|f: Vec<u8>| f@).push(
                field@,
            ));
            assert(field@ == s@.subrange(p as int, j as int));
            assert(rest.take(j - p) =~= s@.subrange(p as int, j as int));
        }
        if j < s.len() {
            proof {
                assert(rest.skip(j - p + 1) =~= s@.skip(j as int + 1));
                assert(split_fields(rest) == seq![rest.take(j - p)] + split_fields(
                    rest.skip(j - p + 1),
                ));
                assert(r@.map_values(|f: Vec<u8>| f@) + split_fields(s@.skip(j as int + 1))
                    =~= r0.map_values(|f: Vec<u8>| f@) + split_fields(rest));
            }
            p = j + 1;
        } else {
            proof {
                assert(split_fields(rest) == seq![rest]);
                assert(rest.take(j - p) =~= rest);
                assert(r@.map_values(|f: Vec<u8>| f@) =~= r0.map_values(|f: Vec<u8>| f@)
                    + split_fields(rest));
            }
            break ;
        }
    }
    r
}

/// What an operator's reply means as a color: the reply is split at
/// commas, and it stands for a color exactly when that gives four fields
/// and every field, trimmed, reads as a byte value, in the order red,
/// green, blue, alpha. A reply with any other number of fields, or with
/// any field that fails to read, stands for no color.
pub open spec fn parse_rgba_spec(s: Seq<u8>) -> Option<Rgba> {
    let fields = split_fields(s);
    if fields.len() == 4 {
        let pr = parse_u8_spec(trim_spec(fields[0]));
        let pg = parse_u8_spec(trim_spec(fields[1]));
        let pb = parse_u8_spec(trim_spec(fields[2]));
        let pa = parse_u8_spec(trim_spec(fields[3]));
        if pr is Some && pg is Some && pb is Some && pa is Some {
            Some(
                Rgba { r: pr.unwrap(), g: pg.unwrap(), b: pb.unwrap(), a: pa.unwrap() },
            )
        } else {
            None
        }
    } else {
        None
    }
}

/// Reads an operator's reply as a replacement color.
pub fn parse_rgba(line: &Vec<u8>) -> (r: Option<Rgba>)
    ensures
        r == parse_rgba_spec(line@),
{
    let fields = split_bytes(line);
    let ghost fv = fields@.map_values(|f: Vec<u8>| f@);
    proof {
        assert(fv.len() == fields@.len());
    }
    if fields.len() != 4 {
        return None;
    }
    proof {
        assert(fv[0] == fields@[0]@);
        assert(fv[1] == fields@[1]@);
        assert(fv[2] == fields@[2]@);
        assert(fv[3] == fields@[3]@);
    }
    let pr = parse_u8_bytes(&trim_bytes(&fields[0]));
    let pg = parse_u8_bytes(&trim_bytes(&fields[1]));
    let pb = parse_u8_bytes(&trim_bytes(&fields[2]));
    let pa = parse_u8_bytes(&trim_bytes(&fields[3]));
    match (pr, pg, pb, pa) {
        (Some(r0), Some(g0), Some(b0), Some(a0)) => Some(
            Rgba { r: r0, g: g0, b: b0, a: a0 },
        ),
        _ => None,
    }
}

} // verus!
