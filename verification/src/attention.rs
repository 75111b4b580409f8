//! What the user is told of flash attention.

use vstd::prelude::*;

verus! {

/// The notices to give.
#[derive(Clone, Copy, Debug, PartialEq, Eq, Structural)]
pub struct FlashAttnNotices {
    /// Say that flash attention is used.
    pub used: bool,
    /// Warn that it has no effect.
    pub no_effect: bool,
}

/// Chooses the notices: flash attention is announced where it is used, and has
/// no effect on a quantized model.
pub fn flash_attn_notices(in_use: bool, quantized: bool) -> (notices: FlashAttnNotices)
    ensures
        notices == (FlashAttnNotices { used: in_use, no_effect: in_use && quantized }),
{
    FlashAttnNotices { used: in_use, no_effect: in_use && quantized }
}

} // verus!
