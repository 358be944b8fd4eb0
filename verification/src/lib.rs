//! A contract-call test harness for a tree-cell virtual machine.
//!
//! The library builds the inbound message and signature envelope a test
//! call needs, lays out the machine's control registers and operand stack,
//! encodes and decodes the persisted contract image, and renders the
//! post-execution report. The instruction engine itself, key loading and
//! all file handling live outside the library.

use vstd::prelude::*;

pub mod actions;
pub mod cell;
pub mod codec;
pub mod driver;
pub mod image;
pub mod message;
pub mod registers;
pub mod report;
pub mod signer;

pub use cell::Cell;
pub use image::ContractImage;

verus! {

/// Everything the harness itself can find wrong. An exception raised by
/// the program under test is not among these: that is a reported outcome,
/// not a harness failure.
#[derive(Clone, Copy, Debug, PartialEq, Eq, Structural)]
pub enum HarnessError {
    /// The persisted contract image does not decode.
    CorruptImage,
    /// After execution the root-data register does not hold a cell.
    RootNotCell,
    /// The action-list cell does not decode.
    CorruptActionList,
}

} // verus!
