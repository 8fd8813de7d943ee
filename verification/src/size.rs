//! The size of a terminal.
use portable_pty::PtySize;
use vstd::prelude::*;

verus! {

/// `portable_pty::PtySize`, with its four public fields.
#[verifier::external_type_specification]
pub struct ExPtySize(PtySize);

/// `<PtySize as Default>::default`: 80 columns by 24 rows, with no pixel
/// dimensions.
pub assume_specification[ <PtySize as Default>::default ]() -> (size: PtySize)
    ensures
        size == (PtySize { rows: 24, cols: 80, pixel_width: 0, pixel_height: 0 }),
;

/// The size of a terminal, in character cells.
#[derive(Clone, Copy, Debug, PartialEq, Eq, Structural)]
pub struct TerminalSize {
    pub cols: u16,
    pub rows: u16,
}

impl TerminalSize {
    /// The size that a session gets where none is asked for.
    pub open spec fn spec_default_size() -> TerminalSize {
        TerminalSize { cols: 80, rows: 24 }
    }

    /// The size that a session gets where none is asked for: that of a
    /// default pseudo-terminal.
    pub fn default_size() -> (size: TerminalSize)
        ensures
            size == TerminalSize::spec_default_size(),
    {
        TerminalSize::from_pty(PtySize::default())
    }

    /// The character cells of a pseudo-terminal size.
    pub fn from_pty(size: PtySize) -> (r: TerminalSize)
        ensures
            r == (TerminalSize { cols: size.cols, rows: size.rows }),
    {
        TerminalSize { cols: size.cols, rows: size.rows }
    }

    /// The pseudo-terminal size with these character cells and no pixel
    /// dimensions.
    pub fn to_pty(&self) -> (r: PtySize)
        ensures
            r == (PtySize { rows: self.rows, cols: self.cols, pixel_width: 0, pixel_height: 0 }),
    {
        PtySize { rows: self.rows, cols: self.cols, pixel_width: 0, pixel_height: 0 }
    }
}

} // verus!
