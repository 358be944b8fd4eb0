//! Message envelopes: the closed set of header variants and address
//! variants, and the builder for the external-inbound message a test
//! call sends into the contract.

use vstd::prelude::*;
use crate::cell::{Cell, CellVal, val_wf};

verus! {

/// The masterchain workchain identifier used for inbound test calls.
pub const MASTERCHAIN_ID: i8 = -1;

/// The constant import fee carried by the synthetic inbound message.
pub const TEST_IMPORT_FEE: u128 = 0x1234;

/// An address outside the chain: absent, or an external bit pattern.
pub enum MsgAddressExt {
    AddrNone,
    AddrExtern { address: Vec<u8> },
}

/// An address inside the chain: standard (32-byte account id) or
/// variable length. `anycast` is an optional rewrite prefix.
pub enum MsgAddressInt {
    AddrStd { anycast: Option<Vec<u8>>, workchain_id: i8, address: Vec<u8> },
    AddrVar { anycast: Option<Vec<u8>>, workchain_id: i32, address: Vec<u8> },
}

/// Most bytes an anycast rewrite prefix may carry.
pub const MAX_ANYCAST_LEN: usize = 30;

/// Most bytes a variable-length address may carry.
pub const MAX_VAR_ADDR_LEN: usize = 80;

/// Most bytes an external address bit pattern may carry.
pub const MAX_EXT_ADDR_LEN: usize = 120;

/// Bounds on an optional rewrite prefix.
pub open spec fn anycast_wf(o: Option<Vec<u8>>) -> bool {
    o matches Some(p) ==> p@.len() <= MAX_ANYCAST_LEN
}

/// A standard address carries exactly a 32-byte account identifier; a
/// variable-length address and a rewrite prefix are bounded.
pub open spec fn addr_int_wf(a: MsgAddressInt) -> bool {
    match a {
        MsgAddressInt::AddrStd { anycast, address, .. } => address@.len() == 32 && anycast_wf(
            anycast,
        ),
        MsgAddressInt::AddrVar { anycast, address, .. } => address@.len() <= MAX_VAR_ADDR_LEN
            && anycast_wf(anycast),
    }
}

/// An external address bit pattern is bounded.
pub open spec fn addr_ext_wf(a: MsgAddressExt) -> bool {
    a matches MsgAddressExt::AddrExtern { address } ==> address@.len() <= MAX_EXT_ADDR_LEN
}

/// Header of a transfer between two contracts.
pub struct InternalMessageHeader {
    pub ihr_disabled: bool,
    pub bounce: bool,
    pub bounced: bool,
    pub src: MsgAddressInt,
    pub dst: MsgAddressInt,
    pub value: u128,
    pub ihr_fee: u128,
    pub fwd_fee: u128,
    pub created_lt: u64,
    pub created_at: u32,
}

/// Header of a message arriving from outside the chain.
pub struct ExternalInboundMessageHeader {
    pub src: MsgAddressExt,
    pub dst: MsgAddressInt,
    pub import_fee: u128,
}

/// Header of a message leaving the chain.
pub struct ExternalOutboundMessageHeader {
    pub src: MsgAddressInt,
    pub dst: MsgAddressExt,
    pub created_lt: u64,
    pub created_at: u32,
}

/// The closed set of message header kinds.
pub enum CommonMsgInfo {
    IntMsgInfo(InternalMessageHeader),
    ExtInMsgInfo(ExternalInboundMessageHeader),
    ExtOutMsgInfo(ExternalOutboundMessageHeader),
}

/// A message: a header, an optional init tree and an optional body tree.
pub struct Message {
    pub header: CommonMsgInfo,
    pub init: Option<Cell>,
    pub body: Option<Cell>,
}

/// The fixed placeholder bit pattern standing in for an external source:
/// eight bytes of 0x55, 64 bits.
pub open spec fn ext_src_placeholder() -> Seq<u8> {
    Seq::new(8, |i: int| 0x55u8)
}

/// Builds the external-inbound message for a test call: destination in
/// the masterchain under the given account id, the placeholder external
/// source, the constant import fee, no init, and the given body if any.
/// Always succeeds.
pub fn create_external_inbound_msg(dst_addr: &Vec<u8>, body: Option<Cell>) -> (msg: Message)
    requires
        dst_addr@.len() == 32,
    ensures
        msg.header matches CommonMsgInfo::ExtInMsgInfo(h) && {
            &&& h.src matches MsgAddressExt::AddrExtern { address } && address@
                == ext_src_placeholder()
            &&& h.dst matches MsgAddressInt::AddrStd { anycast, workchain_id, address }
                && anycast is None && workchain_id == MASTERCHAIN_ID && address@ == dst_addr@
            &&& h.import_fee == TEST_IMPORT_FEE
        },
        msg.init is None,
        msg.body == body,
{
    let mut src_bits: Vec<u8> = Vec::new();
    let mut i: usize = 0;
    while i < 8
        invariant
            i <= 8,
            src_bits@ =~= Seq::new(i as nat, |j: int| 0x55u8),
        decreases 8 - i,
    {
        src_bits.push(0x55);
        proof {
            assert(src_bits@ =~= Seq::new((i + 1) as nat, |j: int| 0x55u8));
        }
        i += 1;
    }
    let mut dst_bytes: Vec<u8> = Vec::new();
    dst_bytes.extend_from_slice(dst_addr.as_slice());
    let hdr = ExternalInboundMessageHeader {
        src: MsgAddressExt::AddrExtern { address: src_bits },
        dst: MsgAddressInt::AddrStd {
            anycast: None,
            workchain_id: MASTERCHAIN_ID,
            address: dst_bytes,
        },
        import_fee: TEST_IMPORT_FEE,
    };
    proof {
        assert(hdr.src matches MsgAddressExt::AddrExtern { address } && address@
            =~= ext_src_placeholder());
        assert(dst_bytes@ =~= dst_addr@);
    }
    Message { header: CommonMsgInfo::ExtInMsgInfo(hdr), init: None, body }
}

/// The byte content of a synthetic inbound call body: a zero version
/// byte, then the function identifier and both arguments, each big
/// endian.
pub open spec fn inbound_body_bytes(a: i32, b: i32, func_id: i32) -> Seq<u8> {
    seq![0u8] + be4(func_id as u32) + be4(a as u32) + be4(b as u32)
}

/// The four big-endian bytes of a 32-bit value.
pub open spec fn be4(x: u32) -> Seq<u8> {
    seq![(x >> 24) as u8, (x >> 16) as u8, (x >> 8) as u8, x as u8]
}

/// The eight big-endian bytes of a 64-bit value.
pub open spec fn be8(x: u64) -> Seq<u8> {
    be4((x >> 32) as u32) + be4(x as u32)
}

/// The sixteen big-endian bytes of a 128-bit value.
pub open spec fn be16(x: u128) -> Seq<u8> {
    be8((x >> 64) as u64) + be8(x as u64)
}

/// Appends the eight big-endian bytes of `x` to `out`.
pub fn push_be8(out: &mut Vec<u8>, x: u64)
    ensures
        final(out)@ == old(out)@ + be8(x),
{
    push_be4(out, (x >> 32) as u32);
    push_be4(out, x as u32);
    assert(out@ =~= old(out)@ + be8(x));
}

/// Appends the sixteen big-endian bytes of `x` to `out`.
pub fn push_be16(out: &mut Vec<u8>, x: u128)
    ensures
        final(out)@ == old(out)@ + be16(x),
{
    push_be8(out, (x >> 64) as u64);
    push_be8(out, x as u64);
    assert(out@ =~= old(out)@ + be16(x));
}

/// Appends the four big-endian bytes of `x` to `out`.
pub fn push_be4(out: &mut Vec<u8>, x: u32)
    ensures
        final(out)@ == old(out)@ + be4(x),
{
    out.push((x >> 24) as u8);
    out.push((x >> 16) as u8);
    out.push((x >> 8) as u8);
    out.push(x as u8);
    assert(out@ =~= old(out)@ + be4(x));
}

/// Builds a leaf body cell for calling function `func_id` with the two
/// arguments `a` and `b`.
pub fn create_inbound_body(a: i32, b: i32, func_id: i32) -> (c: Cell)
    ensures
        c@.data == inbound_body_bytes(a, b, func_id),
        c@.refs.len() == 0,
        val_wf(c@),
{
    let mut data: Vec<u8> = Vec::new();
    data.push(0);
    push_be4(&mut data, func_id as u32);
    push_be4(&mut data, a as u32);
    push_be4(&mut data, b as u32);
    proof {
        assert(data@ =~= inbound_body_bytes(a, b, func_id));
    }
    Cell::leaf(data)
}

/// The byte form of an optional rewrite prefix: a zero byte when absent,
/// else a one byte, the prefix length and the prefix.
pub open spec fn anycast_bytes(o: Option<Vec<u8>>) -> Seq<u8> {
    match o {
        None => seq![0u8],
        Some(p) => seq![1u8, p@.len() as u8] + p@,
    }
}

/// The byte form of an in-chain address.
pub open spec fn addr_int_bytes(a: MsgAddressInt) -> Seq<u8> {
    match a {
        MsgAddressInt::AddrStd { anycast, workchain_id, address } => seq![2u8] + anycast_bytes(
            anycast,
        ) + seq![workchain_id as u8] + address@,
        MsgAddressInt::AddrVar { anycast, workchain_id, address } => seq![3u8] + anycast_bytes(
            anycast,
        ) + be4(workchain_id as u32) + seq![address@.len() as u8] + address@,
    }
}

/// The byte form of an out-of-chain address.
pub open spec fn addr_ext_bytes(a: MsgAddressExt) -> Seq<u8> {
    match a {
        MsgAddressExt::AddrNone => seq![0u8],
        MsgAddressExt::AddrExtern { address } => seq![1u8, address@.len() as u8] + address@,
    }
}

/// The value of a cell that carries one in-chain address.
pub open spec fn addr_int_cell_val(a: MsgAddressInt) -> CellVal {
    CellVal { data: addr_int_bytes(a), refs: Seq::empty() }
}

/// The value of a cell that carries one out-of-chain address.
pub open spec fn addr_ext_cell_val(a: MsgAddressExt) -> CellVal {
    CellVal { data: addr_ext_bytes(a), refs: Seq::empty() }
}

/// Appends the byte form of an optional rewrite prefix to `out`.
fn push_anycast(out: &mut Vec<u8>, o: &Option<Vec<u8>>)
    requires
        anycast_wf(*o),
    ensures
        final(out)@ == old(out)@ + anycast_bytes(*o),
{
    match o {
        None => {
            out.push(0);
            assert(out@ =~= old(out)@ + anycast_bytes(*o));
        },
        Some(p) => {
            out.push(1);
            out.push(p.len() as u8);
            out.extend_from_slice(p.as_slice());
            assert(out@ =~= old(out)@ + anycast_bytes(*o));
        },
    }
}

/// Builds the cell that carries one in-chain address.
pub fn addr_int_to_cell(a: &MsgAddressInt) -> (c: Cell)
    requires
        addr_int_wf(*a),
    ensures
        c@ == addr_int_cell_val(*a),
        val_wf(c@),
{
    let mut data: Vec<u8> = Vec::new();
    match a {
        MsgAddressInt::AddrStd { anycast, workchain_id, address } => {
            data.push(2);
            push_anycast(&mut data, anycast);
            data.push(*workchain_id as u8);
            data.extend_from_slice(address.as_slice());
            assert(data@ =~= addr_int_bytes(*a));
        },
        MsgAddressInt::AddrVar { anycast, workchain_id, address } => {
            data.push(3);
            push_anycast(&mut data, anycast);
            push_be4(&mut data, *workchain_id as u32);
            data.push(address.len() as u8);
            data.extend_from_slice(address.as_slice());
            assert(data@ =~= addr_int_bytes(*a));
        },
    }
    Cell::leaf(data)
}

/// Builds the cell that carries one out-of-chain address.
pub fn addr_ext_to_cell(a: &MsgAddressExt) -> (c: Cell)
    requires
        addr_ext_wf(*a),
    ensures
        c@ == addr_ext_cell_val(*a),
        val_wf(c@),
{
    let mut data: Vec<u8> = Vec::new();
    match a {
        MsgAddressExt::AddrNone => {
            data.push(0);
            assert(data@ =~= addr_ext_bytes(*a));
        },
        MsgAddressExt::AddrExtern { address } => {
            data.push(1);
            data.push(address.len() as u8);
            data.extend_from_slice(address.as_slice());
            assert(data@ =~= addr_ext_bytes(*a));
        },
    }
    Cell::leaf(data)
}

/// The three flags of an internal header, packed into the low bits.
pub open spec fn int_flag_bits(h: InternalMessageHeader) -> u8 {
    ((if h.ihr_disabled {
        1u8
    } else {
        0u8
    }) + (if h.bounce {
        2u8
    } else {
        0u8
    }) + (if h.bounced {
        4u8
    } else {
        0u8
    })) as u8
}

/// The flag byte of a message cell: the internal header's three flags in
/// its low bits, then one bit each for a present init and a present body.
pub open spec fn msg_flag_byte(m: Message) -> u8 {
    ((match m.header {
        CommonMsgInfo::IntMsgInfo(h) => int_flag_bits(h),
        _ => 0u8,
    }) + (if m.init is Some {
        8u8
    } else {
        0u8
    }) + (if m.body is Some {
        16u8
    } else {
        0u8
    })) as u8
}

/// The content bytes of a message cell: a variant tag, the flag byte,
/// then the header's numeric fields, big endian.
pub open spec fn msg_data_bytes(m: Message) -> Seq<u8> {
    match m.header {
        CommonMsgInfo::IntMsgInfo(h) => seq![0u8, msg_flag_byte(m)] + be16(h.value) + be16(
            h.ihr_fee,
        ) + be16(h.fwd_fee) + be8(h.created_lt) + be4(h.created_at),
        CommonMsgInfo::ExtInMsgInfo(h) => seq![1u8, msg_flag_byte(m)] + be16(h.import_fee),
        CommonMsgInfo::ExtOutMsgInfo(h) => seq![2u8, msg_flag_byte(m)] + be8(h.created_lt) + be4(
            h.created_at,
        ),
    }
}

/// The source and destination address cells of a message, in that order.
pub open spec fn msg_addr_cells(m: Message) -> Seq<CellVal> {
    match m.header {
        CommonMsgInfo::IntMsgInfo(h) => seq![addr_int_cell_val(h.src), addr_int_cell_val(h.dst)],
        CommonMsgInfo::ExtInMsgInfo(h) => seq![addr_ext_cell_val(h.src), addr_int_cell_val(h.dst)],
        CommonMsgInfo::ExtOutMsgInfo(h) => seq![addr_int_cell_val(h.src), addr_ext_cell_val(h.dst)],
    }
}

/// The trailing references of a message cell: whichever of init and body
/// are present, in that order.
pub open spec fn msg_tail_cells(m: Message) -> Seq<CellVal> {
    (match m.init {
        Some(c) => seq![c@],
        None => Seq::empty(),
    }) + (match m.body {
        Some(c) => seq![c@],
        None => Seq::empty(),
    })
}

/// The value of the cell that carries a whole message: the tag, flag and
/// numeric bytes as content; the source and destination address cells,
/// then a present init and a present body, as references.
pub open spec fn msg_cell_val(m: Message) -> CellVal {
    CellVal { data: msg_data_bytes(m), refs: msg_addr_cells(m) + msg_tail_cells(m) }
}

/// Well-formedness of a message: bounded addresses, well-formed trees.
pub open spec fn msg_wf(m: Message) -> bool {
    &&& match m.header {
        CommonMsgInfo::IntMsgInfo(h) => addr_int_wf(h.src) && addr_int_wf(h.dst),
        CommonMsgInfo::ExtInMsgInfo(h) => addr_ext_wf(h.src) && addr_int_wf(h.dst),
        CommonMsgInfo::ExtOutMsgInfo(h) => addr_int_wf(h.src) && addr_ext_wf(h.dst),
    }
    &&& (m.init matches Some(c) ==> val_wf(c@))
    &&& (m.body matches Some(c) ==> val_wf(c@))
}

/// Encodes a whole message into one cell.
pub fn message_to_cell(m: &Message) -> (c: Cell)
    requires
        msg_wf(*m),
    ensures
        c@ == msg_cell_val(*m),
        val_wf(c@),
{
    let mut flags: u8 = 0;
    if let CommonMsgInfo::IntMsgInfo(h) = &m.header {
        if h.ihr_disabled {
            flags += 1;
        }
        if h.bounce {
            flags += 2;
        }
        if h.bounced {
            flags += 4;
        }
    }
    if m.init.is_some() {
        flags += 8;
    }
    if m.body.is_some() {
        flags += 16;
    }
    assert(flags == msg_flag_byte(*m));
    let mut data: Vec<u8> = Vec::new();
    match &m.header {
        CommonMsgInfo::IntMsgInfo(h) => {
            data.push(0);
            data.push(flags);
            push_be16(&mut data, h.value);
            push_be16(&mut data, h.ihr_fee);
            push_be16(&mut data, h.fwd_fee);
            push_be8(&mut data, h.created_lt);
            push_be4(&mut data, h.created_at);
        },
        CommonMsgInfo::ExtInMsgInfo(h) => {
            data.push(1);
            data.push(flags);
            push_be16(&mut data, h.import_fee);
        },
        CommonMsgInfo::ExtOutMsgInfo(h) => {
            data.push(2);
            data.push(flags);
            push_be8(&mut data, h.created_lt);
            push_be4(&mut data, h.created_at);
        },
    }
    assert(data@ =~= msg_data_bytes(*m));
    assert(data@.len() <= 64);
    let mut c = Cell::leaf(data);
    match &m.header {
        CommonMsgInfo::IntMsgInfo(h) => {
            c.push_ref(addr_int_to_cell(&h.src));
            c.push_ref(addr_int_to_cell(&h.dst));
        },
        CommonMsgInfo::ExtInMsgInfo(h) => {
            c.push_ref(addr_ext_to_cell(&h.src));
            c.push_ref(addr_int_to_cell(&h.dst));
        },
        CommonMsgInfo::ExtOutMsgInfo(h) => {
            c.push_ref(addr_int_to_cell(&h.src));
            c.push_ref(addr_ext_to_cell(&h.dst));
        },
    }
    assert(c@.refs =~= msg_addr_cells(*m));
    if let Some(init) = &m.init {
        c.push_ref(init.duplicate());
    }
    if let Some(body) = &m.body {
        c.push_ref(body.duplicate());
    }
    proof {
        assert(c@.refs =~= msg_addr_cells(*m) + msg_tail_cells(*m));
        assert(c@ =~= msg_cell_val(*m));
        assert forall|i: int| 0 <= i < c@.refs.len() implies val_wf(#[trigger] c@.refs[i]) by {
            assert(c@.refs.len() <= 4);
        }
        assert(val_wf(c@));
    }
    c
}

} // verus!
