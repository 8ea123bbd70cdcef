use vstd::prelude::*;

verus! {

/// Dimensions of a terminal: rows and columns in characters, width and
/// height in pixels. The field order matches the platform's `winsize`.
#[derive(Clone, Copy, Debug, PartialEq, Eq, Structural)]
pub struct Winsize {
    pub ws_row: u16,
    pub ws_col: u16,
    pub ws_xpixel: u16,
    pub ws_ypixel: u16,
}

impl Winsize {
    /// A size of `ws_row` rows and `ws_col` columns, `ws_xpixel` by
    /// `ws_ypixel` pixels.
    pub fn new(ws_row: u16, ws_col: u16, ws_xpixel: u16, ws_ypixel: u16) -> (r: Winsize)
        ensures
            r.ws_row == ws_row,
            r.ws_col == ws_col,
            r.ws_xpixel == ws_xpixel,
            r.ws_ypixel == ws_ypixel,
    {
        Winsize { ws_row, ws_col, ws_xpixel, ws_ypixel }
    }
}

} // verus!
