use vstd::prelude::*;

verus! {

/// Where the cursor of a hard-wrapped single-line input sits, as
/// `(column, row)` inside the input box, for a wrap width `w`.
///
/// A cursor exactly at a wrap boundary stays at the end of the row it
/// closes (column `w`) instead of jumping to column 0 of the next row.
pub open spec fn spec_cursor_cell(char_pos: nat, w: nat) -> (nat, nat)
    recommends
        w > 0,
{
    if char_pos % w == 0 && char_pos != 0 {
        (w, ((char_pos - 1) as nat) / w)
    } else {
        (char_pos % w, char_pos / w)
    }
}

/// Cursor coordinates for `char_pos` characters typed into an input box whose
/// usable width (the box width without its two border cells) is `w`.
pub fn cursor_cell(char_pos: usize, w: usize) -> (r: (usize, usize))
    requires
        w > 0,
    ensures
        (r.0 as nat, r.1 as nat) == spec_cursor_cell(char_pos as nat, w as nat),
        r.0 <= w,
{
    let m = char_pos % w;
    if m == 0 && char_pos != 0 {
        (w, (char_pos - 1) / w)
    } else {
        (m, char_pos / w)
    }
}

} // verus!
