use vstd::prelude::*;
use crate::color::Rgba;
use crate::parse::{trim_spec, trim_bytes, parse_rgba_spec, parse_rgba};
use crate::remap::RemapTable;

verus! {

/// The two interaction modes: remap one labeled color, or walk every
/// labeled color in turn.
#[derive(Clone, Copy, PartialEq, Eq, Structural, Debug)]
pub enum Mode {
    Single,
    All,
}

/// The mode an operator's reply selects: "1" or "2" once trimmed; any
/// other reply selects none.
pub open spec fn mode_spec(s: Seq<u8>) -> Option<Mode> {
    if trim_spec(s) =~= seq![49u8] {
        Some(Mode::Single)
    } else if trim_spec(s) =~= seq![50u8] {
        Some(Mode::All)
    } else {
        None
    }
}

/// Reads the operator's mode choice.
pub fn parse_mode(line: &Vec<u8>) -> (r: Option<Mode>)
    ensures
        r == mode_spec(line@),
{
    let t = trim_bytes(line);
    if t.len() == 1 && t[0] == 49 {
        proof {
            assert(t@ =~= seq![49u8]);
        }
        Some(Mode::Single)
    } else if t.len() == 1 && t[0] == 50 {
        proof {
            assert(t@ =~= seq![50u8]);
        }
        Some(Mode::All)
    } else {
        proof {
            assert(!(t@ =~= seq![49u8]));
            assert(!(t@ =~= seq![50u8]));
        }
        None
    }
}

/// What a reply in the all-colors walk decides for the color it was asked
/// about: a blank reply keeps the color quietly; a reply that reads as a
/// color replaces it; any other reply keeps it, with a warning.
pub open spec fn walk_decision(current: Rgba, reply: Seq<u8>) -> (Rgba, bool) {
    if trim_spec(reply).len() == 0 {
        (current, false)
    } else {
        match parse_rgba_spec(reply) {
            Some(c) => (c, false),
            None => (current, true),
        }
    }
}

/// Decides the replacement for one color of the all-colors walk. The
/// second part of the result reports that the reply was rejected.
pub fn walk_reply(current: Rgba, line: &Vec<u8>) -> (r: (Rgba, bool))
    ensures
        r == walk_decision(current, line@),
{
    let t = trim_bytes(line);
    if t.len() == 0 {
        (current, false)
    } else {
        match parse_rgba(line) {
            Some(c) => (c, false),
            None => (current, true),
        }
    }
}

/// What a reply in single-label mode decides for the labeled color: a
/// reply that reads as a color replaces it; any other reply keeps it, with
/// a warning.
pub open spec fn single_decision(current: Rgba, reply: Seq<u8>) -> (Rgba, bool) {
    match parse_rgba_spec(reply) {
        Some(c) => (c, false),
        None => (current, true),
    }
}

/// Decides the replacement for the one labeled color of single-label mode.
/// The second part of the result reports that the reply was rejected.
pub fn single_reply(current: Rgba, line: &Vec<u8>) -> (r: (Rgba, bool))
    ensures
        r == single_decision(current, line@),
{
    match parse_rgba(line) {
        Some(c) => (c, false),
        None => (current, true),
    }
}

/// Walks every palette color in order, applying the operator's replies:
/// the table it builds maps each palette color to what its reply decided
/// and every other color to itself, and each flag reports that the reply
/// for that position was rejected.
pub fn build_walk_table(palette: &Vec<Rgba>, replies: &Vec<Vec<u8>>) -> (r: (
    RemapTable,
    Vec<bool>,
))
    requires
        palette@.no_duplicates(),
        replies@.len() == palette@.len(),
    ensures
        forall|i: int|
            0 <= i < palette@.len() ==> r.0.lookup(#[trigger] palette@[i]) == walk_decision(
                palette@[i],
                replies@[i]@,
            ).0,
        forall|c: Rgba| !palette@.contains(c) ==> r.0.lookup(c) == c,
        r.1@.len() == palette@.len(),
        forall|i: int|
            0 <= i < palette@.len() ==> r.1@[i] == walk_decision(palette@[i], replies@[i]@).1,
{
    let mut table = RemapTable::new();
    let mut warned: Vec<bool> = Vec::new();
    let mut i: usize = 0;
    while i < palette.len()
        invariant
            palette@.no_duplicates(),
            replies@.len() == palette@.len(),
            0 <= i <= palette@.len(),
            warned@.len() == i,
            forall|j: int|
                0 <= j < i ==> table.lookup(#[trigger] palette@[j]) == walk_decision(
                    palette@[j],
                    replies@[j]@,
                ).0,
            forall|c: Rgba|
                (forall|j: int| 0 <= j < i ==> #[trigger] palette@[j] != c) ==> table.lookup(c)
                    == c,
            forall|j: int|
                0 <= j < i ==> warned@[j] == walk_decision(palette@[j], replies@[j]@).1,
        decreases palette@.len() - i,
    {
        let current = palette[i];
        let (next, warn) = walk_reply(current, &replies[i]);
        proof {
            assert forall|j: int| 0 <= j < i implies #[trigger] palette@[j] != current by {
                assert(palette@[j] != palette@[i as int]);
            }
        }
        table.set_mapping(current, next);
        warned.push(warn);
        i += 1;
    }
    proof {
        assert forall|c: Rgba| !palette@.contains(c) implies (forall|j: int|
            0 <= j < palette@.len() ==> #[trigger] palette@[j] != c) by {
        }
    }
    (table, warned)
}

} // verus!
