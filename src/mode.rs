//! Moderation states of a comment and the mask that selects which of them a fetch shows.
//!
//! Each state is a bit; a mask selects a stored mode when the mode adds no bit to the mask,
//! that is when `(mask | mode) == mask`. This is containment, not membership: the default mask
//! spans two states at once.

use vstd::prelude::*;

verus! {

/// The mask used when a fetch names none: valid and soft-deleted comments, not pending ones.
pub const DEFAULT_MASK: i32 = 5;

/// The moderation state of a stored comment.
#[derive(Clone, Copy, Debug, PartialEq, Eq, Structural)]
pub enum CommentMode {
    Valid,
    Pending,
    /// Kept in place of a hard delete so that the replies under it stay reachable.
    SoftDeleted,
}

/// A mask of moderation bits; see [`ModeMask::admits`].
#[derive(Clone, Copy, Debug, PartialEq, Eq, Structural)]
pub struct ModeMask {
    pub bits: i32,
}

/// Whether `mask` selects the stored mode `mode`: the mode sets no bit outside the mask.
pub open spec fn mask_admits(mask: i32, mode: i32) -> bool {
    (mask | mode) == mask
}

impl CommentMode {
    /// The bit that stands for the state in storage and in masks.
    pub open spec fn spec_bit(self) -> i32 {
        match self {
            CommentMode::Valid => 1,
            CommentMode::Pending => 2,
            CommentMode::SoftDeleted => 4,
        }
    }

    /// The bit that stands for the state in storage and in masks.
    pub fn bit(&self) -> (r: i32)
        ensures
            r == self.spec_bit(),
    {
        match self {
            CommentMode::Valid => 1,
            CommentMode::Pending => 2,
            CommentMode::SoftDeleted => 4,
        }
    }

    /// The mask for a fetch: the one given, or [`DEFAULT_MASK`] when none is.
    ///
    /// A mask of `0` selects no stored state; callers do not pass it.
    pub fn mask(opt_mode: Option<i32>) -> (r: ModeMask)
        ensures
            r.bits == opt_mode.unwrap_or(DEFAULT_MASK),
    {
        ModeMask { bits: opt_mode.unwrap_or(DEFAULT_MASK) }
    }
}

impl ModeMask {
    /// Whether the mask selects a comment stored with mode `mode`.
    pub fn admits(&self, mode: i32) -> (r: bool)
        ensures
            r == mask_admits(self.bits, mode),
    {
        (self.bits | mode) == self.bits
    }
}

/// The default mask selects valid and soft-deleted comments and leaves pending ones out.
pub proof fn lemma_default_mask_states()
    ensures
        mask_admits(DEFAULT_MASK, CommentMode::Valid.spec_bit()),
        mask_admits(DEFAULT_MASK, CommentMode::SoftDeleted.spec_bit()),
        !mask_admits(DEFAULT_MASK, CommentMode::Pending.spec_bit()),
{
    assert((5i32 | 1i32) == 5i32) by (bit_vector);
    assert((5i32 | 4i32) == 5i32) by (bit_vector);
    assert((5i32 | 2i32) == 7i32) by (bit_vector);
}

/// A mask selects exactly the modes whose bits it contains: a mask of one state's bit selects
/// that state and no other of the three.
pub proof fn lemma_single_bit_mask(m: CommentMode, x: CommentMode)
    ensures
        mask_admits(m.spec_bit(), x.spec_bit()) <==> m == x,
{
    assert((1i32 | 1i32) == 1i32 && (1i32 | 2i32) != 1i32 && (1i32 | 4i32) != 1i32) by (bit_vector);
    assert((2i32 | 2i32) == 2i32 && (2i32 | 1i32) != 2i32 && (2i32 | 4i32) != 2i32) by (bit_vector);
    assert((4i32 | 4i32) == 4i32 && (4i32 | 1i32) != 4i32 && (4i32 | 2i32) != 4i32) by (bit_vector);
}

} // verus!
