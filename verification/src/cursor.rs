use vstd::prelude::*;

use crate::rush::Rush;

verus! {

/// Terminal columns of the editing line.
pub struct Cursor {
    /// represents the first valid location after the prompt
    pub min_cursor: Option<u16>,
    pub cursor_location: Option<u16>,
    pub max_cursor: Option<u16>,
}

impl Default for Cursor {
    fn default() -> (c: Cursor)
        ensures
            c.is_cleared(),
    {
        Cursor { min_cursor: None, cursor_location: None, max_cursor: None }
    }
}

impl Cursor {
    /// No column is known: the next draw of the prompt measures them afresh.
    pub open spec fn is_cleared(&self) -> bool {
        self.min_cursor is None && self.cursor_location is None && self.max_cursor is None
    }

    /// The cursor's distance from the start of the input, where both columns are known.
    pub open spec fn offset(&self) -> int {
        self.cursor_location.unwrap() - self.min_cursor.unwrap()
    }

    pub fn clear(&mut self)
        ensures
            final(self).is_cleared(),
    {
        self.min_cursor = None;
        self.cursor_location = None;
        self.max_cursor = None;
    }
}

/// The cursor after one step left: the right bound shrinks by one when asked, and the
/// location moves left unless it already stands at the left bound.
pub open spec fn moved_left(c: Cursor, contract_bounds: bool) -> Cursor {
    let min = c.min_cursor.unwrap();
    let loc = c.cursor_location.unwrap();
    Cursor {
        min_cursor: c.min_cursor,
        cursor_location: Some(if loc > min { (loc - 1) as u16 } else { loc }),
        max_cursor: if contract_bounds {
            Some((c.max_cursor.unwrap() - 1) as u16)
        } else {
            c.max_cursor
        },
    }
}

/// The cursor after one step right: the right bound grows by one when asked, and the
/// location moves right unless it already stands at the right bound.
pub open spec fn moved_right(c: Cursor, expand: bool) -> Cursor {
    let max = if expand {
        (c.max_cursor.unwrap() + 1) as u16
    } else {
        c.max_cursor.unwrap()
    };
    let loc = c.cursor_location.unwrap();
    Cursor {
        min_cursor: c.min_cursor,
        cursor_location: Some(if loc < max { (loc + 1) as u16 } else { loc }),
        max_cursor: Some(max),
    }
}

/// The columns are known, and a step left may be taken without leaving `u16`.
pub open spec fn can_move_left(c: Cursor, contract_bounds: bool) -> bool {
    &&& c.min_cursor is Some
    &&& c.cursor_location is Some
    &&& contract_bounds ==> (c.max_cursor is Some && c.max_cursor.unwrap() > 0)
}

/// The columns are known, and a step right may be taken without leaving `u16`.
pub open spec fn can_move_right(c: Cursor, expand: bool) -> bool {
    &&& c.max_cursor is Some
    &&& c.cursor_location is Some
    &&& expand ==> c.max_cursor.unwrap() < u16::MAX
}

impl Rush {
    pub fn cursor_move_left(&mut self, contract_bounds: bool)
        requires
            can_move_left(old(self).cursor, contract_bounds),
        ensures
            final(self).cursor == moved_left(old(self).cursor, contract_bounds),
            final(self).only_cursor_changed(*old(self)),
    {
        let min = self.cursor.min_cursor.unwrap();
        if contract_bounds {
            let max = self.cursor.max_cursor.unwrap();
            self.cursor.max_cursor = Some(max - 1);
        }
        let loc = self.cursor.cursor_location.unwrap();
        if loc > min {
            self.cursor.cursor_location = Some(loc - 1);
        }
    }

    // when we want to support emojis we'll need to do the following:
    // we need to calculate what the next column we're about to move to is
    // despite a monospaced environment there are characters that are multiple columns wide
    // we can use UnicodeWidth to determine which characters behave this way.
    // we can use grapheme indexes to iterate through the string.
    pub fn cursor_move_right(&mut self, expand: bool)
        requires
            can_move_right(old(self).cursor, expand),
        ensures
            final(self).cursor == moved_right(old(self).cursor, expand),
            final(self).only_cursor_changed(*old(self)),
    {
        let mut max = self.cursor.max_cursor.unwrap();
        let loc = self.cursor.cursor_location.unwrap();
        if expand {
            max = max + 1;
            self.cursor.max_cursor = Some(max);
        }
        if loc < max {
            self.cursor.cursor_location = Some(loc + 1);
        }
    }
}

/// A step right undoes a step left taken from inside the line, and a step left undoes a
/// step right taken from inside the line, when the bounds are kept.
pub proof fn law_left_right_inverse(c: Cursor)
    requires
        c.min_cursor is Some,
        c.cursor_location is Some,
        c.max_cursor is Some,
    ensures
        c.min_cursor.unwrap() < c.cursor_location.unwrap() <= c.max_cursor.unwrap() ==> moved_right(
            moved_left(c, false),
            false,
        ) == c,
        c.min_cursor.unwrap() <= c.cursor_location.unwrap() < c.max_cursor.unwrap() ==> moved_left(
            moved_right(c, false),
            false,
        ) == c,
{
}

} // verus!
