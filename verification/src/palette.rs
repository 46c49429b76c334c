use vstd::prelude::*;
use crate::color::{Rgba, lum, chunk_colors, luminance};

verus! {

/// The distinct colors among the first `n` elements of `s`, each at its
/// first occurrence, in order.
pub open spec fn dedup_upto(s: Seq<Rgba>, n: int) -> Seq<Rgba>
    decreases n,
{
    if n <= 0 {
        Seq::empty()
    } else {
        let p = dedup_upto(s, n - 1);
        if p.contains(s[n - 1]) {
            p
        } else {
            p.push(s[n - 1])
        }
    }
}

/// The distinct colors of `s`, each at its first occurrence, in order.
pub open spec fn dedup(s: Seq<Rgba>) -> Seq<Rgba> {
    dedup_upto(s, s.len() as int)
}

/// Deduplication keeps exactly the colors seen so far, without repeats.
pub proof fn lemma_dedup_upto(s: Seq<Rgba>, n: int)
    requires
        0 <= n <= s.len(),
    ensures
        forall|c: Rgba|
            #[trigger] dedup_upto(s, n).contains(c) <==> exists|i: int| 0 <= i < n && s[i] == c,
        dedup_upto(s, n).no_duplicates(),
    decreases n,
{
    if n > 0 {
        lemma_dedup_upto(s, n - 1);
        let p = dedup_upto(s, n - 1);
        let d = dedup_upto(s, n);
        assert forall|c: Rgba| #[trigger] d.contains(c) implies exists|i: int|
            0 <= i < n && s[i] == c by {
            if p.contains(c) {
                assert(exists|i: int| 0 <= i < n - 1 && s[i] == c);
            } else {
                let k = choose|k: int| 0 <= k < d.len() && d[k] == c;
                assert(d[k] == c);
                assert(c == s[n - 1]);
            }
        }
        assert forall|c: Rgba| (exists|i: int| 0 <= i < n && s[i] == c) implies #[trigger] d.contains(
            c,
        ) by {
            let i = choose|i: int| 0 <= i < n && s[i] == c;
            if i < n - 1 {
                assert(p.contains(c));
                if !p.contains(s[n - 1]) {
                    assert(d == p.push(s[n - 1]));
                    let k = choose|k: int| 0 <= k < p.len() && p[k] == c;
                    assert(d[k] == c);
                }
            } else {
                if p.contains(s[n - 1]) {
                    assert(d.contains(c));
                } else {
                    assert(d == p.push(s[n - 1]));
                    assert(d[d.len() - 1] == c);
                }
            }
        }
        if !p.contains(s[n - 1]) {
            assert forall|i: int, j: int| 0 <= i < j < d.len() implies d[i] != d[j] by {
                if j < d.len() - 1 {
                    assert(d[i] == p[i] && d[j] == p[j]);
                } else {
                    assert(d[i] == p[i] && d[j] == s[n - 1]);
                    assert(p.contains(p[i]));
                }
            }
        }
    }
}

/// Does `v` hold the color `c`?
pub fn holds_color(v: &Vec<Rgba>, c: Rgba) -> (r: bool)
    ensures
        r == v@.contains(c),
{
    let mut i: usize = 0;
    while i < v.len()
        invariant
            0 <= i <= v@.len(),
            forall|k: int| 0 <= k < i ==> v@[k] != c,
        decreases v@.len() - i,
    {
        if v[i] == c {
            return true;
        }
        i += 1;
    }
    false
}

/// The distinct colors of a flat RGBA buffer, in first-occurrence order.
pub fn distinct_colors(pixels: &Vec<u8>) -> (r: Vec<Rgba>)
    ensures
        r@ == dedup(chunk_colors(pixels@)),
        r@.no_duplicates(),
        forall|c: Rgba| r@.contains(c) <==> chunk_colors(pixels@).contains(c),
{
    let ghost cs = chunk_colors(pixels@);
    let n = pixels.len() / 4;
    assert(n == cs.len());
    proof {
        vstd::arithmetic::div_mod::lemma_fundamental_div_mod(pixels@.len() as int, 4);
        vstd::arithmetic::div_mod::lemma_mod_bound(pixels@.len() as int, 4);
    }
    assert(4 * n <= pixels@.len());
    let mut out: Vec<Rgba> = Vec::new();
    let mut i: usize = 0;
    while i < n
        invariant
            n == cs.len(),
            cs == chunk_colors(pixels@),
            4 * n <= pixels@.len(),
            pixels@.len() <= usize::MAX,
            0 <= i <= n,
            out@ == dedup_upto(cs, i as int),
        decreases n - i,
    {
        assert(4 * i + 3 < pixels@.len());
        let c = Rgba {
            r: pixels[4 * i],
            g: pixels[4 * i + 1],
            b: pixels[4 * i + 2],
            a: pixels[4 * i + 3],
        };
        assert(c == cs[i as int]);
        if !holds_color(&out, c) {
            out.push(c);
        }
        i += 1;
    }
    proof {
        lemma_dedup_upto(cs, cs.len() as int);
    }
    out
}

/// Is `s` ordered from brightest to darkest?
pub open spec fn sorted_desc(s: Seq<Rgba>) -> bool {
    forall|i: int, j: int| 0 <= i <= j < s.len() ==> lum(s[i]) >= lum(s[j])
}

/// The position of a brightest color of a non-empty vector.
fn index_of_brightest(v: &Vec<Rgba>) -> (k: usize)
    requires
        v@.len() > 0,
    ensures
        0 <= k < v@.len(),
        forall|i: int| 0 <= i < v@.len() ==> lum(v@[k as int]) >= lum(v@[i]),
{
    let mut k: usize = 0;
    let mut best: u32 = luminance(v[0]);
    let mut i: usize = 1;
    while i < v.len()
        invariant
            0 <= k < v@.len(),
            1 <= i <= v@.len(),
            best == lum(v@[k as int]),
            forall|j: int| 0 <= j < i ==> best >= lum(v@[j]),
        decreases v@.len() - i,
    {
        let l = luminance(v[i]);
        if l > best {
            k = i;
            best = l;
        }
        i += 1;
    }
    k
}

/// Reorders a list of colors from brightest to darkest. Colors of equal
/// brightness may come out in either order; the multiset of colors is kept.
pub fn sort_by_brightness(colors: Vec<Rgba>) -> (r: Vec<Rgba>)
    ensures
        sorted_desc(r@),
        r@.to_multiset() == colors@.to_multiset(),
{
    broadcast use vstd::seq_lib::group_to_multiset_ensures;

    let mut rest = colors;
    let mut out: Vec<Rgba> = Vec::new();
    let ghost orig = rest@;
    while rest.len() > 0
        invariant
            sorted_desc(out@),
            forall|i: int, j: int|
                0 <= i < out@.len() && 0 <= j < rest@.len() ==> lum(out@[i]) >= lum(rest@[j]),
            out@.to_multiset().add(rest@.to_multiset()) == orig.to_multiset(),
        decreases rest@.len(),
    {
        let ghost out0 = out@;
        let ghost rest0 = rest@;
        let k = index_of_brightest(&rest);
        let c = rest.remove(k);
        out.push(c);
        proof {
            broadcast use vstd::multiset::group_multiset_axioms;

            rest0.to_multiset_ensures();
            out0.to_multiset_ensures();
            assert(rest@ == rest0.remove(k as int));
            assert(rest0.remove(k as int).to_multiset() =~= rest0.to_multiset().remove(
                rest0[k as int],
            ));
            assert(out@ == out0.push(c));
            assert(out0.push(c).to_multiset() =~= out0.to_multiset().insert(c));
            assert(rest@.to_multiset() =~= rest0.to_multiset().remove(c));
            assert(out@.to_multiset() =~= out0.to_multiset().insert(c));
            assert(rest0.contains(c));
            assert(rest0.to_multiset().count(c) > 0);
            assert(out@.to_multiset().add(rest@.to_multiset()) =~= orig.to_multiset()) by {
                assert(forall|m: Rgba|
                    #![auto]
                    out@.to_multiset().count(m) + rest@.to_multiset().count(m)
                        == out0.to_multiset().count(m) + rest0.to_multiset().count(m));
            }
            assert forall|i: int, j: int|
                0 <= i < out@.len() && 0 <= j < rest@.len() implies lum(out@[i]) >= lum(
                rest@[j],
            ) by {
                assert(rest0.to_multiset().contains(rest@[j]));
                assert(rest0.contains(rest@[j]));
            }
        }
    }
    assert(out@.to_multiset() =~= orig.to_multiset());
    out
}

/// The distinct colors of a flat RGBA buffer, ordered from brightest to
/// darkest; among distinct colors of equal brightness the order is not fixed.
pub fn extract_palette(pixels: &Vec<u8>) -> (r: Vec<Rgba>)
    ensures
        sorted_desc(r@),
        r@.to_multiset() == dedup(chunk_colors(pixels@)).to_multiset(),
        r@.no_duplicates(),
        forall|c: Rgba| r@.contains(c) <==> chunk_colors(pixels@).contains(c),
{
    broadcast use vstd::seq_lib::group_to_multiset_ensures;

    let d = distinct_colors(pixels);
    let ghost dv = d@;
    let r = sort_by_brightness(d);
    proof {
        dv.to_multiset_ensures();
        r@.to_multiset_ensures();
        assert forall|c: Rgba| r@.contains(c) <==> dv.contains(c) by {
            assert(r@.contains(c) <==> r@.to_multiset().count(c) > 0);
            assert(dv.contains(c) <==> dv.to_multiset().count(c) > 0);
        }
        dv.lemma_multiset_has_no_duplicates();
        r@.lemma_multiset_has_no_duplicates_conv();
        assert forall|c: Rgba| r@.contains(c) <==> chunk_colors(pixels@).contains(c) by {
            assert(r@.contains(c) <==> dv.contains(c));
            assert(dv.contains(c) <==> chunk_colors(pixels@).contains(c));
        }
    }
    r
}

} // verus!
