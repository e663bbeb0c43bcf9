//! Per-cell game state and the two player-visible transitions: revealing a
//! tile and toggling its flag mark.
use vstd::prelude::*;
use vstd::string::StringExecFns;
use crate::tile_type::TileType;

verus! {

/// One cell of the board: its kind, whether it is still concealed, whether
/// the player has marked it, and how many mines sit in its clamped
/// 3x3 neighbourhood.
#[derive(Debug, Copy, Clone)]
pub struct Tile {
    pub tile_type: TileType,
    pub hidden: bool,
    pub marked: bool,
    pub adjacent_mines: usize,
}

/// A mark only ever sits on a concealed tile.
pub open spec fn tile_wf(t: Tile) -> bool {
    t.marked ==> t.hidden
}

/// The state after a click: a concealed tile is revealed and loses its mark;
/// a revealed tile is left as it is.
pub open spec fn click_spec(t: Tile) -> Tile {
    if t.hidden {
        Tile { hidden: false, marked: false, ..t }
    } else {
        t
    }
}

/// The state after a mark: a concealed tile's mark is flipped; a revealed
/// tile is left as it is.
pub open spec fn mark_spec(t: Tile) -> Tile {
    if t.hidden {
        Tile { marked: !t.marked, ..t }
    } else {
        t
    }
}

/// The decimal character for a single digit.
pub open spec fn digit_char(d: nat) -> char {
    if d == 0 {
        '0'
    } else if d == 1 {
        '1'
    } else if d == 2 {
        '2'
    } else if d == 3 {
        '3'
    } else if d == 4 {
        '4'
    } else if d == 5 {
        '5'
    } else if d == 6 {
        '6'
    } else if d == 7 {
        '7'
    } else if d == 8 {
        '8'
    } else {
        '9'
    }
}

/// The decimal rendering of a number, most significant digit first, with no
/// leading zeros (a single `'0'` for zero).
pub open spec fn decimal_digits(n: nat) -> Seq<char>
    decreases n,
{
    if n < 10 {
        seq![digit_char(n)]
    } else {
        decimal_digits(n / 10).push(digit_char(n % 10))
    }
}

/// The one-character string for a single decimal digit.
fn digit_str(d: usize) -> (s: &'static str)
    requires
        d < 10,
    ensures
        s@ == seq![digit_char(d as nat)],
{
    proof {
        reveal_strlit("0");
        reveal_strlit("1");
        reveal_strlit("2");
        reveal_strlit("3");
        reveal_strlit("4");
        reveal_strlit("5");
        reveal_strlit("6");
        reveal_strlit("7");
        reveal_strlit("8");
        reveal_strlit("9");
    }
    match d {
        0 => "0",
        1 => "1",
        2 => "2",
        3 => "3",
        4 => "4",
        5 => "5",
        6 => "6",
        7 => "7",
        8 => "8",
        _ => "9",
    }
}

/// Renders a number in decimal.
fn usize_to_decimal(n: usize) -> (s: String)
    ensures
        s@ == decimal_digits(n as nat),
    decreases n,
{
    if n < 10 {
        String::from_str(digit_str(n))
    } else {
        let mut s = usize_to_decimal(n / 10);
        s.append(digit_str(n % 10));
        s
    }
}

impl Tile {
    /// The adjacent-mine count rendered as decimal text, for display on a
    /// revealed blank tile.
    pub fn nearby_mines(&self) -> (s: String)
        ensures
            s@ == decimal_digits(self.adjacent_mines as nat),
    {
        usize_to_decimal(self.adjacent_mines)
    }

    /// Reveals the tile: a concealed tile becomes permanently visible and
    /// loses its mark; a revealed tile is unchanged.
    pub fn click(&mut self)
        ensures
            *final(self) == click_spec(*old(self)),
            !final(self).hidden,
            !final(self).marked || !old(self).hidden,
            final(self).tile_type == old(self).tile_type,
            final(self).adjacent_mines == old(self).adjacent_mines,
    {
        if self.hidden {
            self.hidden = false;
            self.marked = false;
        }
    }

    /// Toggles the mark on a concealed tile; a revealed tile is unchanged.
    pub fn mark(&mut self)
        ensures
            *final(self) == mark_spec(*old(self)),
            old(self).hidden ==> final(self).marked == !old(self).marked,
            !old(self).hidden ==> *final(self) == *old(self),
            final(self).hidden == old(self).hidden,
            final(self).tile_type == old(self).tile_type,
            final(self).adjacent_mines == old(self).adjacent_mines,
    {
        if self.hidden {
            self.marked = !self.marked;
        }
    }
}

/// Clicking is idempotent: a second click changes nothing, a click never
/// leaves a mark behind, and a well-marked tile stays well-marked.
pub proof fn lemma_click_idempotent(t: Tile)
    ensures
        click_spec(click_spec(t)) == click_spec(t),
        t.hidden ==> !click_spec(t).marked,
        tile_wf(t) ==> !click_spec(t).marked,
        tile_wf(t) ==> tile_wf(click_spec(t)),
{
}

/// Marking only acts on concealed tiles: after a click (or on any revealed
/// tile) it is a no-op, and two marks on a concealed tile cancel.
pub proof fn lemma_mark_only_while_hidden(t: Tile)
    ensures
        mark_spec(click_spec(t)) == click_spec(t),
        !t.hidden ==> mark_spec(t) == t,
        mark_spec(mark_spec(t)) == t,
        tile_wf(t) ==> tile_wf(mark_spec(t)),
{
}

} // verus!
