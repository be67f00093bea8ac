//! Scan-time faults. The scanner reports the first fault and stops; it does
//! not attempt recovery or resynchronization.

use vstd::prelude::*;

use crate::Position;

verus! {

/// A fault met while scanning. Every variant carries the location at the
/// point of failure, for diagnostics of the shape
/// `"<kind> at line L col C"` (the driver renders them).
#[derive(Debug, Clone, Copy, PartialEq, Eq, Structural)]
pub enum PseudoError {
    /// A character matched by no dispatch rule; carries the offending
    /// character and the location just past it.
    UnexpectedCharacter(char, Position),
    /// End of input was reached inside an open string literal; carries the
    /// location at the end of the input.
    UnterminatedString(Position),
    /// A pull was made with no input left: the clean end of the token
    /// sequence, and also what every pull after a fault returns.
    AdvancedPastEnd(Position),
    /// An integer literal whose value does not fit a signed 128-bit integer;
    /// carries the location just past the literal.
    IntegerOverflow(Position),
}

} // verus!
