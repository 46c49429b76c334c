use vstd::prelude::*;
use crate::color::Rgba;

verus! {

/// The decimal digits of `n` as ASCII bytes, most significant first.
pub open spec fn dec_rep(n: nat) -> Seq<u8>
    decreases n,
{
    if n < 10 {
        seq![(48 + n) as u8]
    } else {
        dec_rep(n / 10).push((48 + n % 10) as u8)
    }
}

/// Writes `n` in decimal ASCII.
pub fn decimal_digits(n: usize) -> (d: Vec<u8>)
    ensures
        d@ == dec_rep(n as nat),
{
    let mut low: Vec<u8> = Vec::new();
    let mut m: usize = n;
    proof {
        assert(dec_rep(n as nat) =~= dec_rep(n as nat) + low@);
    }
    while m >= 10
        invariant
            dec_rep(n as nat) == dec_rep(m as nat) + low@,
        decreases m,
    {
        let ghost m0 = m as nat;
        let ghost low0 = low@;
        let digit: u8 = (m % 10) as u8 + 48;
        low.insert(0, digit);
        m = m / 10;
        proof {
            assert(dec_rep(m0) == dec_rep(m0 / 10).push(digit));
            assert(low@ =~= seq![digit] + low0);
            assert(dec_rep(m0 / 10).push(digit) + low0 =~= dec_rep(m0 / 10) + (seq![digit]
                + low0));
        }
    }
    let mut d: Vec<u8> = Vec::new();
    d.push(48 + m as u8);
    d.append(&mut low);
    proof {
        assert(dec_rep(m as nat) =~= seq![(48 + m) as u8]);
        assert(d@ =~= dec_rep(n as nat));
    }
    d
}

/// The label paired with palette position `i`: the fixed vocabulary covers
/// the first eight positions, from brightest to darkest, and every later
/// position is named "Extra" followed by its decimal index.
pub open spec fn label_spec(i: nat) -> Seq<u8> {
    if i == 0 {
        seq![119, 104, 105, 116, 101]
    } else if i == 1 {
        seq![98, 114, 105, 103, 104, 116, 95, 104, 105, 103, 104, 108, 105, 103, 104, 116]
    } else if i == 2 {
        seq![100, 97, 114, 107, 95, 104, 105, 103, 104, 108, 105, 103, 104, 116]
    } else if i == 3 {
        seq![109, 105, 100, 116, 111, 110, 101]
    } else if i == 4 {
        seq![98, 114, 105, 103, 104, 116, 95, 115, 104, 97, 100, 101]
    } else if i == 5 {
        seq![100, 97, 114, 107, 95, 115, 104, 97, 100, 101]
    } else if i == 6 {
        seq![111, 117, 116, 108, 105, 110, 101]
    } else if i == 7 {
        seq![98, 108, 97, 99, 107]
    } else {
        seq![69, 120, 116, 114, 97, 32] + dec_rep(i)
    }
}

/// Builds the label of palette position `i`.
pub fn label_text(i: usize) -> (t: Vec<u8>)
    ensures
        t@ == label_spec(i as nat),
{
    let mut t: Vec<u8> = Vec::new();
    if i == 0 {
        t.push(119);
        t.push(104);
        t.push(105);
        t.push(116);
        t.push(101);
    } else if i == 1 {
        t.push(98);
        t.push(114);
        t.push(105);
        t.push(103);
        t.push(104);
        t.push(116);
        t.push(95);
        t.push(104);
        t.push(105);
        t.push(103);
        t.push(104);
        t.push(108);
        t.push(105);
        t.push(103);
        t.push(104);
        t.push(116);
    } else if i == 2 {
        t.push(100);
        t.push(97);
        t.push(114);
        t.push(107);
        t.push(95);
        t.push(104);
        t.push(105);
        t.push(103);
        t.push(104);
        t.push(108);
        t.push(105);
        t.push(103);
        t.push(104);
        t.push(116);
    } else if i == 3 {
        t.push(109);
        t.push(105);
        t.push(100);
        t.push(116);
        t.push(111);
        t.push(110);
        t.push(101);
    } else if i == 4 {
        t.push(98);
        t.push(114);
        t.push(105);
        t.push(103);
        t.push(104);
        t.push(116);
        t.push(95);
        t.push(115);
        t.push(104);
        t.push(97);
        t.push(100);
        t.push(101);
    } else if i == 5 {
        t.push(100);
        t.push(97);
        t.push(114);
        t.push(107);
        t.push(95);
        t.push(115);
        t.push(104);
        t.push(97);
        t.push(100);
        t.push(101);
    } else if i == 6 {
        t.push(111);
        t.push(117);
        t.push(116);
        t.push(108);
        t.push(105);
        t.push(110);
        t.push(101);
    } else if i == 7 {
        t.push(98);
        t.push(108);
        t.push(97);
        t.push(99);
        t.push(107);
    } else {
        t.push(69);
        t.push(120);
        t.push(116);
        t.push(114);
        t.push(97);
        t.push(32);
        let mut digits = decimal_digits(i);
        t.append(&mut digits);
    }
    proof {
        assert(t@ =~= label_spec(i as nat));
    }
    t
}

/// The first position in `0..n` whose label is `name`, starting the search
/// at position `k`.
pub open spec fn label_index_from(name: Seq<u8>, k: nat, n: nat) -> Option<nat>
    decreases n - k,
{
    if k >= n {
        None
    } else if label_spec(k) == name {
        Some(k)
    } else {
        label_index_from(name, k + 1, n)
    }
}

/// Looks a labeled color up: the color at the first palette position whose
/// label reads `name`, or nothing when no position of the palette carries
/// that label.
pub fn find_color_by_label(palette: &Vec<Rgba>, name: &Vec<u8>) -> (r: Option<Rgba>)
    ensures
        label_index_from(name@, 0, palette@.len() as nat) matches Some(k) ==> r == Some(
            palette@[k as int],
        ),
        label_index_from(name@, 0, palette@.len() as nat) is None ==> r is None,
{
    let ghost n = palette@.len() as nat;
    let mut k: usize = 0;
    while k < palette.len()
        invariant
            n == palette@.len(),
            0 <= k <= n,
            label_index_from(name@, 0, n) == label_index_from(name@, k as nat, n),
        decreases palette@.len() - k,
    {
        let lab = label_text(k);
        if lab == *name {
            proof {
                assert(lab@ =~= name@);
                assert(label_index_from(name@, k as nat, n) == Some(k as nat));
            }
            return Some(palette[k]);
        }
        proof {
            assert(lab@ != name@) by {
                if lab@ == name@ {
                    assert(lab@.len() == name@.len());
                    assert(forall|t: int| 0 <= t < lab@.len() ==> lab@[t] == name@[t]);
                }
            }
            assert(label_index_from(name@, k as nat, n) == label_index_from(
                name@,
                (k + 1) as nat,
                n,
            ));
        }
        k += 1;
    }
    None
}

} // verus!
