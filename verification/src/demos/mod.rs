use vstd::prelude::*;

use crate::mmio::term::{TermOp, Terminal};
use crate::printer::Printer;

pub mod cube;
pub mod numbers;
pub mod quartic;
pub mod rotation;

verus! {

/// The writes that clear the 32 x 32 text screen: the cursor goes home and
/// 32 blank lines scroll through.
pub open spec fn cleared() -> Seq<TermOp> {
    Printer::new_view(32, 32).clear_ops()
}

/// Clears the 32 x 32 text screen.
pub fn clear_screen(terminal: &mut Terminal)
    ensures
        final(terminal)@ == old(terminal)@ + cleared(),
{
    let mut printer = Printer::new(32, 32);
    printer.clear(terminal);
}

} // verus!
