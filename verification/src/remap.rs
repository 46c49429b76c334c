use vstd::prelude::*;
use crate::color::{Rgba, chunk_at, chunk_colors};

verus! {

/// What a list of substitution pairs maps `c` to: the first pair whose key
/// is `c` decides, and a color that no pair names is left as it is.
pub open spec fn lookup_in(entries: Seq<(Rgba, Rgba)>, c: Rgba) -> Rgba
    decreases entries.len(),
{
    if entries.len() == 0 {
        c
    } else if entries[0].0 == c {
        entries[0].1
    } else {
        lookup_in(entries.drop_first(), c)
    }
}

/// A substitution table from original colors to replacement colors; every
/// color the table was not directed to change is mapped to itself.
pub struct RemapTable {
    entries: Vec<(Rgba, Rgba)>,
}

impl RemapTable {
    /// What the table maps `c` to.
    pub closed spec fn lookup(self, c: Rgba) -> Rgba {
        lookup_in(self.entries@, c)
    }

    /// A table that maps every color to itself.
    pub fn new() -> (t: RemapTable)
        ensures
            forall|c: Rgba| t.lookup(c) == c,
    {
        RemapTable { entries: Vec::new() }
    }

    /// Directs the table to map `from` to `to`; every other color keeps the
    /// replacement it had.
    pub fn set_mapping(&mut self, from: Rgba, to: Rgba)
        ensures
            final(self).lookup(from) == to,
            forall|c: Rgba| c != from ==> final(self).lookup(c) == old(self).lookup(c),
    {
        let ghost before = self.entries@;
        self.entries.insert(0, (from, to));
        proof {
            assert(self.entries@.drop_first() =~= before);
        }
    }

    /// Reads the replacement for `c`.
    pub fn get(&self, c: Rgba) -> (r: Rgba)
        ensures
            r == self.lookup(c),
    {
        let ghost es = self.entries@;
        proof {
            assert(es.skip(0) =~= es);
        }
        let mut i: usize = 0;
        while i < self.entries.len()
            invariant
                es == self.entries@,
                0 <= i <= es.len(),
                lookup_in(es, c) == lookup_in(es.skip(i as int), c),
            decreases es.len() - i,
        {
            let (key, val) = self.entries[i];
            proof {
                assert(es.skip(i as int)[0] == es[i as int]);
            }
            if key == c {
                return val;
            }
            proof {
                assert(es.skip(i as int).drop_first() =~= es.skip(i as int + 1));
            }
            i += 1;
        }
        proof {
            assert(es.skip(es.len() as int).len() == 0);
        }
        c
    }
}

/// Rewrites every four-byte sample of a flat RGBA buffer through the table;
/// the output has the same length, and each of its samples is the table's
/// replacement for the sample that stood there.
pub fn apply_remap(pixels: &Vec<u8>, table: &RemapTable) -> (out: Vec<u8>)
    requires
        pixels@.len() % 4 == 0,
    ensures
        out@.len() == pixels@.len(),
        forall|i: int|
            0 <= i < chunk_colors(pixels@).len() ==> chunk_at(out@, i) == table.lookup(
                chunk_at(pixels@, i),
            ),
{
    let n = pixels.len() / 4;
    proof {
        vstd::arithmetic::div_mod::lemma_fundamental_div_mod(pixels@.len() as int, 4);
        vstd::arithmetic::div_mod::lemma_mod_bound(pixels@.len() as int, 4);
    }
    assert(4 * n == pixels@.len());
    let mut out: Vec<u8> = Vec::new();
    let mut i: usize = 0;
    while i < n
        invariant
            4 * n == pixels@.len(),
            pixels@.len() <= usize::MAX,
            0 <= i <= n,
            out@.len() == 4 * i,
            forall|j: int|
                0 <= j < i ==> chunk_at(out@, j) == table.lookup(
                    #[trigger] chunk_at(pixels@, j),
                ),
        decreases n - i,
    {
        let ghost out0 = out@;
        assert(4 * i + 3 < pixels@.len());
        let c = Rgba {
            r: pixels[4 * i],
            g: pixels[4 * i + 1],
            b: pixels[4 * i + 2],
            a: pixels[4 * i + 3],
        };
        assert(c == chunk_at(pixels@, i as int));
        let m = table.get(c);
        out.push(m.r);
        out.push(m.g);
        out.push(m.b);
        out.push(m.a);
        proof {
            assert(chunk_at(out@, i as int) == m);
            assert forall|j: int|
                0 <= j < i + 1 implies chunk_at(out@, j) == table.lookup(
                #[trigger] chunk_at(pixels@, j),
            ) by {
                if j < i {
                    assert(chunk_at(out0, j) == table.lookup(chunk_at(pixels@, j)));
                    assert(chunk_at(out@, j) == chunk_at(out0, j));
                }
            }
        }
        i += 1;
    }
    out
}

} // verus!
