//! The machine state the execution engine expects at entry: operand
//! stack items, continuations, and the control-register file with its
//! fixed slot layout.

use vstd::prelude::*;
use crate::cell::{Cell, CellVal, val_wf, empty_val};
use crate::message::be16;

verus! {

/// A control-flow value: the code the machine runs next.
pub struct Continuation {
    pub code: Cell,
}

/// One operand-stack or register value.
pub enum StackItem {
    Int(i64),
    Cell(Cell),
    Slice(Cell),
    Continuation(Continuation),
}

/// The mathematical value of a stack item.
pub enum ItemVal {
    Int(i64),
    Cell(CellVal),
    Slice(CellVal),
    Cont(CellVal),
}

/// The mathematical value of a stack item.
pub open spec fn item_view(s: StackItem) -> ItemVal {
    match s {
        StackItem::Int(i) => ItemVal::Int(i),
        StackItem::Cell(c) => ItemVal::Cell(c@),
        StackItem::Slice(c) => ItemVal::Slice(c@),
        StackItem::Continuation(k) => ItemVal::Cont(k.code@),
    }
}

/// The mathematical value of an optional stack item.
pub open spec fn opt_item_view(o: Option<StackItem>) -> Option<ItemVal> {
    match o {
        Some(s) => Some(item_view(s)),
        None => None,
    }
}

/// Number of control-register slots.
pub const REGISTER_SLOTS: usize = 7;

/// The control-register file: slots 0 to 6.
pub struct RegisterFile {
    pub slots: Vec<Option<StackItem>>,
}

/// The mathematical value of the register file, slot by slot.
pub open spec fn reg_view(r: RegisterFile) -> Seq<Option<ItemVal>> {
    Seq::new(r.slots@.len(), |i: int| opt_item_view(r.slots@[i]))
}

/// The placeholder identity the context reports to the contract: a
/// standard address, workchain 0, all-zero 32-byte account id, no
/// rewrite prefix, in the library's address byte form.
pub open spec fn myself_addr_bytes() -> Seq<u8> {
    seq![2u8, 0u8, 0u8] + Seq::new(32, |i: int| 0u8)
}

/// The placeholder balance the context reports to the contract.
pub const CONTEXT_BALANCE: u128 = 10000;

/// The value of the smart-contract-info cell: the placeholder identity
/// address followed by the placeholder balance, big endian.
pub open spec fn sc_info_val() -> CellVal {
    CellVal { data: myself_addr_bytes() + be16(CONTEXT_BALANCE as u128), refs: Seq::empty() }
}

/// The value of the context register: a cell with no content whose
/// single reference is the smart-contract-info cell.
pub open spec fn context_val() -> CellVal {
    CellVal { data: Seq::empty(), refs: seq![sc_info_val()] }
}

/// Builds the context cell the engine finds in slot 5.
pub fn build_context_cell() -> (c: Cell)
    ensures
        c@ == context_val(),
        val_wf(c@),
{
    let mut data: Vec<u8> = Vec::new();
    data.push(2);
    data.push(0);
    data.push(0);
    let mut i: usize = 0;
    while i < 32
        invariant
            i <= 32,
            data@ =~= seq![2u8, 0u8, 0u8] + Seq::new(i as nat, |j: int| 0u8),
        decreases 32 - i,
    {
        data.push(0);
        proof {
            assert(data@ =~= seq![2u8, 0u8, 0u8] + Seq::new((i + 1) as nat, |j: int| 0u8));
        }
        i += 1;
    }
    crate::message::push_be16(&mut data, CONTEXT_BALANCE);
    proof {
        assert(data@ =~= myself_addr_bytes() + be16(CONTEXT_BALANCE as u128));
        assert(data@.len() == 51);
    }
    let info = Cell::leaf(data);
    let mut ctx = Cell::empty();
    ctx.push_ref(info);
    proof {
        assert(ctx@ =~= context_val());
    }
    ctx
}

/// Builds the control-register file the engine expects at entry:
/// slots 0 and 1 empty continuations, slot 2 unpopulated, slot 3 the
/// code continuation, slot 4 the persistent-data cell, slot 5 the
/// context cell, slot 6 an empty cell. Construction is pure and always
/// succeeds; every slot of {0, 1, 3, 4, 5, 6} is populated.
pub fn initialize_registers(code: Cell, data: Cell) -> (r: RegisterFile)
    requires
        val_wf(code@),
        val_wf(data@),
    ensures
        r.slots@.len() == REGISTER_SLOTS,
        opt_item_view(r.slots@[0]) == Some(ItemVal::Cont(empty_val())),
        opt_item_view(r.slots@[1]) == Some(ItemVal::Cont(empty_val())),
        r.slots@[2] is None,
        opt_item_view(r.slots@[3]) == Some(ItemVal::Cont(code@)),
        opt_item_view(r.slots@[4]) == Some(ItemVal::Cell(data@)),
        opt_item_view(r.slots@[5]) == Some(ItemVal::Cell(context_val())),
        opt_item_view(r.slots@[6]) == Some(ItemVal::Cell(empty_val())),
{
    let mut slots: Vec<Option<StackItem>> = Vec::new();
    slots.push(Some(StackItem::Continuation(Continuation { code: Cell::empty() })));
    slots.push(Some(StackItem::Continuation(Continuation { code: Cell::empty() })));
    slots.push(None);
    slots.push(Some(StackItem::Continuation(Continuation { code })));
    slots.push(Some(StackItem::Cell(data)));
    slots.push(Some(StackItem::Cell(build_context_cell())));
    slots.push(Some(StackItem::Cell(Cell::empty())));
    RegisterFile { slots }
}

} // verus!
