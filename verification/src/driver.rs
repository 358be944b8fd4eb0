//! The decisions of one contract call, apart from the world: which code
//! and data trees enter the machine, how the operand stack is laid out,
//! what the exit code is, and how the engine's root register becomes the
//! image's new persistent data. File handling and the instruction engine
//! itself stay with the caller.

use vstd::prelude::*;
use crate::cell::{Cell, val_wf, empty_val};
use crate::image::{ContractImage, image_wf, opt_view};
use crate::registers::{StackItem, ItemVal, item_view};
use crate::HarnessError;

verus! {

/// The function selector pushed on top of the stack: the entry point
/// for an external message.
pub const EXTERNAL_ENTRY_SELECTOR: i64 = -1;

/// The contract's code tree, or an empty tree when the image carries none.
pub fn extract_code(img: &ContractImage) -> (c: Cell)
    requires
        image_wf(*img),
    ensures
        img.code is Some ==> Some(c@) == opt_view(img.code),
        img.code is None ==> c@ == empty_val(),
        val_wf(c@),
{
    match &img.code {
        Some(c) => c.duplicate(),
        None => Cell::empty(),
    }
}

/// The contract's data tree, or an empty tree when the image carries none.
pub fn extract_data(img: &ContractImage) -> (c: Cell)
    requires
        image_wf(*img),
    ensures
        img.data is Some ==> Some(c@) == opt_view(img.data),
        img.data is None ==> c@ == empty_val(),
        val_wf(c@),
{
    match &img.data {
        Some(c) => c.duplicate(),
        None => Cell::empty(),
    }
}

/// The operand stack at entry, bottom to top: a zero sender-balance
/// placeholder, a zero message-balance placeholder, the whole message
/// cell, the bare body slice, and the external-entry function selector.
/// The message cell and the body are two distinct operands.
pub fn prepare_stack(msg_cell: Cell, body: Cell) -> (stack: Vec<StackItem>)
    ensures
        stack@.len() == 5,
        item_view(stack@[0]) == ItemVal::Int(0),
        item_view(stack@[1]) == ItemVal::Int(0),
        item_view(stack@[2]) == ItemVal::Cell(msg_cell@),
        item_view(stack@[3]) == ItemVal::Slice(body@),
        item_view(stack@[4]) == ItemVal::Int(EXTERNAL_ENTRY_SELECTOR),
{
    let mut stack: Vec<StackItem> = Vec::new();
    stack.push(StackItem::Int(0));
    stack.push(StackItem::Int(0));
    stack.push(StackItem::Cell(msg_cell));
    stack.push(StackItem::Slice(body));
    stack.push(StackItem::Int(EXTERNAL_ENTRY_SELECTOR));
    stack
}

/// The exit code of a finished run: zero for a normal termination, and
/// the exception's own number when the run ended in an unhandled
/// exception raised by the program under test.
pub fn exit_code(exception: Option<i32>) -> (code: i32)
    ensures
        exception matches Some(e) ==> code == e,
        exception is None ==> code == 0,
{
    match exception {
        Some(e) => e,
        None => 0,
    }
}

/// Takes what the engine left in the root-data register and makes it the
/// image's new persistent data. The data is replaced whether or not the
/// run raised an exception: an exception of the program under test is a
/// reported outcome, not a harness failure. Only a root register that
/// does not hold a cell is a harness failure, and then the image is left
/// untouched.
pub fn apply_root_register(img: &mut ContractImage, root: StackItem) -> (r: Result<
    (),
    HarnessError,
>)
    ensures
        root matches StackItem::Cell(c) ==> {
            &&& r is Ok
            &&& opt_view(final(img).data) == Some(c@)
            &&& final(img).code == old(img).code
            &&& final(img).metadata == old(img).metadata
        },
        !(root matches StackItem::Cell(_)) ==> r == Err::<(), HarnessError>(
            HarnessError::RootNotCell,
        ) && *final(img) == *old(img),
{
    match root {
        StackItem::Cell(c) => {
            img.set_data(c);
            Ok(())
        },
        _ => Err(HarnessError::RootNotCell),
    }
}

} // verus!
