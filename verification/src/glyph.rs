use vstd::prelude::*;

verus! {

/// A glyph of code page 437.
pub type FontCharType = u16;

/// `to_cp437` of bracket-lib: the code page 437 glyph of a character. Its
/// table maps each printable ASCII character (space to `~`) to its own code;
/// only that part is claimed, the rest of the table is left unsaid.
#[verifier::external_body]
pub(crate) fn to_cp437(c: char) -> (g: FontCharType)
    ensures
        32 <= (c as u32) <= 126 ==> g == c as u16,
{
    bracket_lib::terminal::to_cp437(c)
}

} // verus!
