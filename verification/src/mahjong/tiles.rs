//! Basic tile types.

use vstd::prelude::*;

use crate::parser::{remove_first, remove_first_of, sort_tiles, sorted_tiles};

verus! {

/// The suit (family) of a tile.
#[derive(Debug, Clone, Copy, PartialEq, Eq, Structural)]
pub enum Suit {
    /// Characters (manzu).
    Manzu,
    /// Circles (pinzu).
    Pinzu,
    /// Bamboo (souzu).
    Souzu,
    /// Honours: winds and dragons.
    Jihai,
}

/// A copy of the tiles.
fn copy_tiles(hand: &[i32]) -> (r: Vec<i32>)
    ensures
        r@ == hand@,
{
    let mut r: Vec<i32> = Vec::new();
    let mut i: usize = 0;
    while i < hand.len()
        invariant
            0 <= i <= hand.len(),
            r@ == hand@.take(i as int),
        decreases hand.len() - i,
    {
        r.push(hand[i]);
        i = i + 1;
        assert(r@ =~= hand@.take(i as int));
    }
    assert(hand@.take(hand.len() as int) =~= hand@);
    r
}

/// The hand in display order: ascending instance ids.  A red five is the
/// first copy of its five, so it sits among the fives.
pub fn sort_hand(hand: &[i32]) -> (r: Vec<i32>)
    ensures
        r@ == sorted_tiles(hand@),
{
    let mut r = copy_tiles(hand);
    sort_tiles(&mut r);
    r
}

/// The hand without the drawn tile (its first copy), in display order, and
/// the drawn tile, shown apart.
pub fn sort_hand_with_draw(hand: &[i32], drawn: i32) -> (r: (Vec<i32>, i32))
    ensures
        r.0@ == sorted_tiles(remove_first(hand@, drawn)),
        r.1 == drawn,
{
    let mut r = copy_tiles(hand);
    remove_first_of(&mut r, drawn);
    sort_tiles(&mut r);
    (r, drawn)
}

} // verus!
