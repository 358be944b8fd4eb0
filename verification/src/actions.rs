//! The engine's emitted actions: the cell chain that carries them, its
//! decoder, and the rendering of the send-message actions. Each decoder
//! accepts a value only if re-encoding it reproduces the input cell
//! exactly, so whatever it returns is the one value the input encodes;
//! and each fails only on an input that encodes no well-formed value,
//! so whatever the encoders emit is read back.

use vstd::prelude::*;
use crate::cell::{Cell, CellVal, val_wf, empty_val};
use crate::image::opt_view;
use crate::message::{
    CommonMsgInfo, ExternalInboundMessageHeader, ExternalOutboundMessageHeader,
    InternalMessageHeader, Message, MsgAddressExt, MsgAddressInt, anycast_bytes, anycast_wf,
    addr_ext_bytes, addr_ext_wf, addr_int_bytes, addr_int_wf, be16, be4, be8, message_to_cell,
    msg_addr_cells, msg_cell_val, msg_data_bytes, msg_flag_byte, msg_tail_cells, msg_wf,
    MAX_ANYCAST_LEN, MAX_EXT_ADDR_LEN, MAX_VAR_ADDR_LEN,
};
use crate::report::{message_chars, render_message};
use crate::HarnessError;

verus! {

/// One decoded output action: a message to send, a code replacement, or
/// any other action, kept as the raw node it came in (its content and
/// its own references, without the chain link). Only send-message
/// actions are ever rendered.
pub enum OutAction {
    SendMsg { mode: u8, out_msg: Message },
    SetCode { new_code: Cell },
    Other { raw: Cell },
}

/// The four tag bytes that mark a send-message action.
pub open spec fn send_msg_tag() -> Seq<u8> {
    seq![0x0eu8, 0xc3u8, 0xc8u8, 0x6du8]
}

/// The four tag bytes that mark a set-code action.
pub open spec fn set_code_tag() -> Seq<u8> {
    seq![0xadu8, 0x4du8, 0xe0u8, 0x8eu8]
}

/// The node shape of an action of no known kind: nonempty content that
/// is neither known tag form, and room for the chain link beside its
/// own references.
pub open spec fn other_form(v: CellVal) -> bool {
    &&& v.data.len() > 0
    &&& v.refs.len() <= 3
    &&& !(v.data.len() == 5 && v.data.subrange(0, 4) == send_msg_tag())
    &&& v.data != set_code_tag()
}

/// The value of one action-list node that carries `a`, whose first
/// reference is the rest of the chain.
pub open spec fn action_node_val(a: OutAction, rest: CellVal) -> CellVal {
    match a {
        OutAction::SendMsg { mode, out_msg } => CellVal {
            data: send_msg_tag() + seq![mode],
            refs: seq![rest, msg_cell_val(out_msg)],
        },
        OutAction::SetCode { new_code } => CellVal {
            data: set_code_tag(),
            refs: seq![rest, new_code@],
        },
        OutAction::Other { raw } => CellVal { data: raw@.data, refs: seq![rest] + raw@.refs },
    }
}

/// The value of the cell chain that carries the actions of `acts` from
/// index `i` on; an empty cell ends the chain.
pub open spec fn action_list_val_from(acts: Seq<OutAction>, i: int) -> CellVal
    decreases acts.len() - i,
{
    if i < 0 || i >= acts.len() {
        empty_val()
    } else {
        action_node_val(acts[i], action_list_val_from(acts, i + 1))
    }
}

/// The value of the whole action-list cell for `acts`.
pub open spec fn action_list_val(acts: Seq<OutAction>) -> CellVal {
    action_list_val_from(acts, 0)
}

/// Well-formedness of one action.
pub open spec fn action_wf(a: OutAction) -> bool {
    match a {
        OutAction::SendMsg { out_msg, .. } => msg_wf(out_msg),
        OutAction::SetCode { new_code } => val_wf(new_code@),
        OutAction::Other { raw } => val_wf(raw@) && other_form(raw@),
    }
}

/// Encodes the actions from index `i` on into their cell chain.
fn build_action_list_from(acts: &Vec<OutAction>, i: usize) -> (c: Cell)
    requires
        i <= acts@.len(),
        forall|t: int| 0 <= t < acts@.len() ==> action_wf(#[trigger] acts@[t]),
    ensures
        c@ == action_list_val_from(acts@, i as int),
        val_wf(c@),
    decreases acts@.len() - i,
{
    if i >= acts.len() {
        return Cell::empty();
    }
    let rest = build_action_list_from(acts, i + 1);
    match &acts[i] {
        OutAction::SendMsg { mode, out_msg } => {
            let mut data: Vec<u8> = Vec::new();
            data.push(0x0e);
            data.push(0xc3);
            data.push(0xc8);
            data.push(0x6d);
            data.push(*mode);
            assert(data@ =~= send_msg_tag() + seq![acts@[i as int]->SendMsg_mode]);
            let mut c = Cell::leaf(data);
            c.push_ref(rest);
            c.push_ref(message_to_cell(out_msg));
            proof {
                assert(c@.refs =~= action_node_val(
                    acts@[i as int],
                    action_list_val_from(acts@, i + 1),
                ).refs);
                assert(c@ =~= action_list_val_from(acts@, i as int));
            }
            c
        },
        OutAction::SetCode { new_code } => {
            let mut data: Vec<u8> = Vec::new();
            data.push(0xad);
            data.push(0x4d);
            data.push(0xe0);
            data.push(0x8e);
            assert(data@ =~= set_code_tag());
            let mut c = Cell::leaf(data);
            c.push_ref(rest);
            c.push_ref(new_code.duplicate());
            proof {
                assert(c@.refs =~= action_node_val(
                    acts@[i as int],
                    action_list_val_from(acts@, i + 1),
                ).refs);
                assert(c@ =~= action_list_val_from(acts@, i as int));
            }
            c
        },
        OutAction::Other { raw } => {
            let mut data: Vec<u8> = Vec::new();
            data.extend_from_slice(raw.data.as_slice());
            let mut c = Cell::leaf(data);
            c.push_ref(rest);
            let nr = raw.refs.len();
            let mut j: usize = 0;
            while j < nr
                invariant
                    nr == raw.refs@.len(),
                    nr <= 3,
                    j <= nr,
                    c@.data == raw@.data,
                    c@.refs.len() == 1 + j,
                    c@.refs[0] == action_list_val_from(acts@, i as int + 1),
                    forall|t: int| 1 <= t < 1 + j ==> #[trigger] c@.refs[t] == raw@.refs[t - 1],
                    val_wf(action_list_val_from(acts@, i as int + 1)),
                    val_wf(raw@),
                decreases nr - j,
            {
                let child = raw.refs[j].duplicate();
                proof {
                    assert(raw.refs@[j as int]@ == raw@.refs[j as int]);
                    assert(val_wf(raw@.refs[j as int]));
                }
                c.push_ref(child);
                j += 1;
            }
            proof {
                assert(c@.refs =~= seq![action_list_val_from(acts@, i as int + 1)] + raw@.refs);
                assert(c@.refs =~= action_node_val(
                    acts@[i as int],
                    action_list_val_from(acts@, i + 1),
                ).refs);
                assert(c@ =~= action_list_val_from(acts@, i as int));
                assert forall|t: int| 0 <= t < c@.refs.len() implies val_wf(
                    #[trigger] c@.refs[t],
                ) by {
                    if t >= 1 {
                        assert(c@.refs[t] == raw@.refs[t - 1]);
                    }
                }
                assert(val_wf(c@));
            }
            c
        },
    }
}

/// Encodes a whole action list into its cell chain, as the engine
/// would emit it.
pub fn build_action_list(acts: &Vec<OutAction>) -> (c: Cell)
    requires
        forall|t: int| 0 <= t < acts@.len() ==> action_wf(#[trigger] acts@[t]),
    ensures
        c@ == action_list_val(acts@),
        val_wf(c@),
{
    build_action_list_from(acts, 0)
}

/// Reads `len` bytes of `d` from `off` into a fresh vector.
fn read_bytes(d: &Vec<u8>, off: usize, len: usize) -> (r: Vec<u8>)
    requires
        off + len <= d@.len(),
    ensures
        r@ == d@.subrange(off as int, off + len),
{
    let n = d.len();
    let mut out: Vec<u8> = Vec::new();
    let mut i: usize = 0;
    while i < len
        invariant
            n == d@.len(),
            off + len <= d@.len(),
            i <= len,
            out@ == d@.subrange(off as int, off + i),
        decreases len - i,
    {
        out.push(d[off + i]);
        assert(out@ =~= d@.subrange(off as int, off + (i + 1)));
        i += 1;
    }
    out
}

/// Reads the one 32-bit value whose big-endian byte form stands at `off`.
fn read_be4(d: &Vec<u8>, off: usize) -> (r: u32)
    requires
        off + 4 <= d@.len(),
    ensures
        be4(r) == d@.subrange(off as int, off + 4),
{
    let _n = d.len();
    let b0 = d[off];
    let b1 = d[off + 1];
    let b2 = d[off + 2];
    let b3 = d[off + 3];
    let r = ((b0 as u32) << 24) | ((b1 as u32) << 16) | ((b2 as u32) << 8) | (b3 as u32);
    proof {
        assert((((b0 as u32) << 24 | (b1 as u32) << 16 | (b2 as u32) << 8 | (b3 as u32)) >> 24)
            as u8 == b0 && (((b0 as u32) << 24 | (b1 as u32) << 16 | (b2 as u32) << 8 | (
        b3 as u32)) >> 16) as u8 == b1 && (((b0 as u32) << 24 | (b1 as u32) << 16 | (b2 as u32)
            << 8 | (b3 as u32)) >> 8) as u8 == b2 && ((b0 as u32) << 24 | (b1 as u32) << 16 | (
        b2 as u32) << 8 | (b3 as u32)) as u8 == b3) by (bit_vector);
        assert(be4(r) =~= d@.subrange(off as int, off + 4));
    }
    r
}

/// Reads the one 64-bit value whose big-endian byte form stands at `off`.
fn read_be8(d: &Vec<u8>, off: usize) -> (r: u64)
    requires
        off + 8 <= d@.len(),
    ensures
        be8(r) == d@.subrange(off as int, off + 8),
{
    let _n = d.len();
    let hi = read_be4(d, off);
    let lo = read_be4(d, off + 4);
    let r = ((hi as u64) << 32) | (lo as u64);
    proof {
        assert(((((hi as u64) << 32) | (lo as u64)) >> 32) as u32 == hi && (((hi as u64) << 32) | (
        lo as u64)) as u32 == lo) by (bit_vector);
        assert(be8(r) =~= d@.subrange(off as int, off + 8));
    }
    r
}

/// Reads the one 128-bit value whose big-endian byte form stands at `off`.
fn read_be16(d: &Vec<u8>, off: usize) -> (r: u128)
    requires
        off + 16 <= d@.len(),
    ensures
        be16(r) == d@.subrange(off as int, off + 16),
{
    let _n = d.len();
    let hi = read_be8(d, off);
    let lo = read_be8(d, off + 8);
    let r = ((hi as u128) << 64) | (lo as u128);
    proof {
        assert(((((hi as u128) << 64) | (lo as u128)) >> 64) as u64 == hi && (((hi as u128) << 64)
            | (lo as u128)) as u64 == lo) by (bit_vector);
        assert(be16(r) =~= d@.subrange(off as int, off + 16));
    }
    r
}

/// What the byte form of a rewrite prefix pins down.
proof fn lemma_anycast_layout(o: Option<Vec<u8>>, b: Seq<u8>, off: int, end: int)
    requires
        anycast_bytes(o) == b.subrange(off, end),
        0 <= off < end <= b.len(),
    ensures
        o is None ==> b[off] == 0 && end == off + 1,
        o matches Some(p) ==> b[off] == 1 && end == off + 2 + p@.len() && b[off + 1] == p@.len()
            as u8,
{
    match o {
        None => {
            assert(anycast_bytes(o).len() == 1);
            assert(b.subrange(off, end).len() == end - off);
            assert(b.subrange(off, end)[0] == b[off]);
            assert(anycast_bytes(o)[0] == 0u8);
        },
        Some(p) => {
            assert(anycast_bytes(o).len() == 2 + p@.len());
            assert(b.subrange(off, end).len() == end - off);
            assert(b.subrange(off, end)[0] == b[off]);
            assert((seq![1u8, p@.len() as u8] + p@)[0] == 1u8);
            assert(b.subrange(off, end)[1] == b[off + 1]);
            assert((seq![1u8, p@.len() as u8] + p@)[1] == p@.len() as u8);
        },
    }
}

/// Reads an optional rewrite prefix at `off`; returns it with the
/// offset just past it. What it reads is the one prefix whose byte form
/// stands there, and it fails only when none does.
fn parse_anycast(d: &Vec<u8>, off: usize) -> (r: Option<(Option<Vec<u8>>, usize)>)
    requires
        off < d@.len(),
    ensures
        r matches Some((o, end)) ==> {
            &&& off < end <= d@.len()
            &&& anycast_wf(o)
            &&& anycast_bytes(o) == d@.subrange(off as int, end as int)
            &&& forall|o2: Option<Vec<u8>>, end2: int|
                #![trigger anycast_bytes(o2), d@.subrange(off as int, end2)]
                anycast_wf(o2) && off < end2 <= d@.len() && anycast_bytes(o2)
                    == d@.subrange(off as int, end2) ==> end2 == end
        },
        r is None ==> forall|o2: Option<Vec<u8>>, end2: int|
            #![trigger anycast_bytes(o2), d@.subrange(off as int, end2)]
            anycast_wf(o2) && off < end2 <= d@.len() ==> anycast_bytes(o2)
                != d@.subrange(off as int, end2),
{
    let n = d.len();
    if d[off] == 0 {
        proof {
            assert(anycast_bytes(None::<Vec<u8>>) =~= d@.subrange(off as int, off + 1));
            assert forall|o2: Option<Vec<u8>>, end2: int|
                #![trigger anycast_bytes(o2), d@.subrange(off as int, end2)]
                anycast_wf(o2) && off < end2 <= d@.len() && anycast_bytes(o2)
                    == d@.subrange(off as int, end2) implies end2 == off + 1 by {
                lemma_anycast_layout(o2, d@, off as int, end2);
            }
        }
        Some((None, off + 1))
    } else if d[off] == 1 {
        if n - off < 2 {
            proof {
                assert forall|o2: Option<Vec<u8>>, end2: int|
                    #![trigger anycast_bytes(o2), d@.subrange(off as int, end2)]
                    anycast_wf(o2) && off < end2 <= d@.len() implies anycast_bytes(o2)
                        != d@.subrange(off as int, end2) by {
                    if anycast_bytes(o2) == d@.subrange(off as int, end2) {
                        lemma_anycast_layout(o2, d@, off as int, end2);
                    }
                }
            }
            return None;
        }
        let alen = d[off + 1] as usize;
        if alen > MAX_ANYCAST_LEN || n - off - 2 < alen {
            proof {
                assert forall|o2: Option<Vec<u8>>, end2: int|
                    #![trigger anycast_bytes(o2), d@.subrange(off as int, end2)]
                    anycast_wf(o2) && off < end2 <= d@.len() implies anycast_bytes(o2)
                        != d@.subrange(off as int, end2) by {
                    if anycast_bytes(o2) == d@.subrange(off as int, end2) {
                        lemma_anycast_layout(o2, d@, off as int, end2);
                    }
                }
            }
            return None;
        }
        let p = read_bytes(d, off + 2, alen);
        proof {
            assert(anycast_bytes(Some(p)) =~= d@.subrange(off as int, off + 2 + alen));
            assert forall|o2: Option<Vec<u8>>, end2: int|
                #![trigger anycast_bytes(o2), d@.subrange(off as int, end2)]
                anycast_wf(o2) && off < end2 <= d@.len() && anycast_bytes(o2)
                    == d@.subrange(off as int, end2) implies end2 == off + 2 + alen by {
                lemma_anycast_layout(o2, d@, off as int, end2);
            }
        }
        Some((Some(p), off + 2 + alen))
    } else {
        proof {
            assert forall|o2: Option<Vec<u8>>, end2: int|
                #![trigger anycast_bytes(o2), d@.subrange(off as int, end2)]
                anycast_wf(o2) && off < end2 <= d@.len() implies anycast_bytes(o2)
                    != d@.subrange(off as int, end2) by {
                if anycast_bytes(o2) == d@.subrange(off as int, end2) {
                    lemma_anycast_layout(o2, d@, off as int, end2);
                }
            }
        }
        None
    }
}

/// What the byte form of an in-chain address pins down.
proof fn lemma_addr_int_layout(a: MsgAddressInt, b: Seq<u8>)
    requires
        addr_int_bytes(a) == b,
    ensures
        a matches MsgAddressInt::AddrStd { anycast, workchain_id, address } ==> {
            let la = anycast_bytes(anycast).len() as int;
            &&& b.len() == 2 + la + address@.len()
            &&& b[0] == 2
            &&& anycast_bytes(anycast) == b.subrange(1, 1 + la)
            &&& b[1 + la] == workchain_id as u8
            &&& address@ == b.subrange(2 + la, b.len() as int)
        },
        a matches MsgAddressInt::AddrVar { anycast, workchain_id, address } ==> {
            let la = anycast_bytes(anycast).len() as int;
            &&& b.len() == 6 + la + address@.len()
            &&& b[0] == 3
            &&& anycast_bytes(anycast) == b.subrange(1, 1 + la)
            &&& b[5 + la] == address@.len() as u8
            &&& address@ == b.subrange(6 + la, b.len() as int)
        },
{
    match a {
        MsgAddressInt::AddrStd { anycast, workchain_id, address } => {
            let ab = anycast_bytes(anycast);
            let la = ab.len() as int;
            let s1 = seq![2u8] + ab;
            let s2 = s1 + seq![workchain_id as u8];
            assert(b == s2 + address@);
            assert(b[0] == s1[0]);
            assert forall|i: int| 0 <= i < la implies b[1 + i] == ab[i] by {
                assert(b[1 + i] == s2[1 + i]);
                assert(s2[1 + i] == s1[1 + i]);
            }
            assert(ab =~= b.subrange(1, 1 + la));
            assert(b[1 + la] == s2[1 + la]);
            assert forall|i: int| 0 <= i < address@.len() implies b[2 + la + i]
                == address@[i] by {
                assert(b[2 + la + i] == address@[2 + la + i - s2.len()]);
            }
            assert(address@ =~= b.subrange(2 + la, b.len() as int));
        },
        MsgAddressInt::AddrVar { anycast, workchain_id, address } => {
            let ab = anycast_bytes(anycast);
            let la = ab.len() as int;
            let s1 = seq![3u8] + ab;
            let s2 = s1 + be4(workchain_id as u32);
            let s3 = s2 + seq![address@.len() as u8];
            assert(b == s3 + address@);
            assert(b[0] == s1[0]);
            assert forall|i: int| 0 <= i < la implies b[1 + i] == ab[i] by {
                assert(b[1 + i] == s3[1 + i]);
                assert(s3[1 + i] == s2[1 + i]);
                assert(s2[1 + i] == s1[1 + i]);
            }
            assert(ab =~= b.subrange(1, 1 + la));
            assert(b[5 + la] == s3[5 + la]);
            assert forall|i: int| 0 <= i < address@.len() implies b[6 + la + i]
                == address@[i] by {
                assert(b[6 + la + i] == address@[6 + la + i - s3.len()]);
            }
            assert(address@ =~= b.subrange(6 + la, b.len() as int));
        },
    }
}

/// Reads an in-chain address from the content of its cell. What it
/// accepts is exactly the address the bytes spell; it fails only when
/// no well-formed address has this byte form.
#[verifier::rlimit(100)]
fn parse_addr_int(d: &Vec<u8>) -> (r: Option<MsgAddressInt>)
    ensures
        r matches Some(a) ==> addr_int_wf(a) && addr_int_bytes(a) == d@,
        r is None ==> forall|a: MsgAddressInt|
            addr_int_wf(a) ==> #[trigger] addr_int_bytes(a) != d@,
{
    let n = d.len();
    if n < 2 || (d[0] != 2 && d[0] != 3) {
        proof {
            assert forall|a: MsgAddressInt| addr_int_wf(a) implies #[trigger] addr_int_bytes(a)
                != d@ by {
                if addr_int_bytes(a) == d@ {
                    lemma_addr_int_layout(a, d@);
                }
            }
        }
        return None;
    }
    if d[0] == 2 {
        match parse_anycast(d, 1) {
            None => {
                proof {
                    assert forall|a: MsgAddressInt| addr_int_wf(a) implies
                        #[trigger] addr_int_bytes(a) != d@ by {
                        if addr_int_bytes(a) == d@ {
                            lemma_addr_int_layout(a, d@);
                        }
                    }
                }
                None
            },
            Some((anycast, off)) => {
                if n - off != 33 {
                    proof {
                        assert forall|a: MsgAddressInt| addr_int_wf(a) implies
                            #[trigger] addr_int_bytes(a) != d@ by {
                            if addr_int_bytes(a) == d@ {
                                lemma_addr_int_layout(a, d@);
                            }
                        }
                    }
                    return None;
                }
                let wb = d[off];
                let workchain_id = #[verifier::truncate] (wb as i8);
                let address = read_bytes(d, off + 1, 32);
                let ghost gany = anycast;
                let ghost gaddr = address@;
                let a = MsgAddressInt::AddrStd { anycast, workchain_id, address };
                proof {
                    assert(((wb as i8) as u8) == wb) by (bit_vector);
                    assert(addr_int_bytes(a) == seq![2u8] + anycast_bytes(gany) + seq![wb]
                        + gaddr);
                    assert(addr_int_bytes(a) =~= d@);
                }
                Some(a)
            },
        }
    } else {
        match parse_anycast(d, 1) {
            None => {
                proof {
                    assert forall|a: MsgAddressInt| addr_int_wf(a) implies
                        #[trigger] addr_int_bytes(a) != d@ by {
                        if addr_int_bytes(a) == d@ {
                            lemma_addr_int_layout(a, d@);
                        }
                    }
                }
                None
            },
            Some((anycast, off)) => {
                if n - off < 5 {
                    proof {
                        assert forall|a: MsgAddressInt| addr_int_wf(a) implies
                            #[trigger] addr_int_bytes(a) != d@ by {
                            if addr_int_bytes(a) == d@ {
                                lemma_addr_int_layout(a, d@);
                            }
                        }
                    }
                    return None;
                }
                let wc = read_be4(d, off);
                let vlen = d[off + 4] as usize;
                if vlen > MAX_VAR_ADDR_LEN || n - off - 5 != vlen {
                    proof {
                        assert forall|a: MsgAddressInt| addr_int_wf(a) implies
                            #[trigger] addr_int_bytes(a) != d@ by {
                            if addr_int_bytes(a) == d@ {
                                lemma_addr_int_layout(a, d@);
                                assert(d@[5 + anycast_bytes(a->AddrVar_anycast).len() as int]
                                    == a->AddrVar_address@.len() as u8);
                            }
                        }
                    }
                    return None;
                }
                let workchain_id = #[verifier::truncate] (wc as i32);
                let address = read_bytes(d, off + 5, vlen);
                let ghost gany = anycast;
                let ghost gaddr = address@;
                let a = MsgAddressInt::AddrVar { anycast, workchain_id, address };
                proof {
                    assert(((wc as i32) as u32) == wc) by (bit_vector);
                    assert(addr_int_bytes(a) == seq![3u8] + anycast_bytes(gany) + be4(wc)
                        + seq![gaddr.len() as u8] + gaddr);
                    assert(addr_int_bytes(a) =~= d@);
                }
                Some(a)
            },
        }
    }
}

/// Reads an out-of-chain address from the content of its cell. What it
/// accepts is exactly the address the bytes spell; it fails only when
/// no well-formed address has this byte form.
fn parse_addr_ext(d: &Vec<u8>) -> (r: Option<MsgAddressExt>)
    ensures
        r matches Some(a) ==> addr_ext_wf(a) && addr_ext_bytes(a) == d@,
        r is None ==> forall|a: MsgAddressExt|
            addr_ext_wf(a) ==> #[trigger] addr_ext_bytes(a) != d@,
{
    let n = d.len();
    if n == 1 && d[0] == 0 {
        proof {
            assert(addr_ext_bytes(MsgAddressExt::AddrNone) =~= d@);
        }
        return Some(MsgAddressExt::AddrNone);
    }
    if n < 2 || d[0] != 1 {
        proof {
            assert forall|a: MsgAddressExt| addr_ext_wf(a) implies #[trigger] addr_ext_bytes(a)
                != d@ by {
                if addr_ext_bytes(a) == d@ {
                    match a {
                        MsgAddressExt::AddrNone => {
                            assert(d@[0] == 0 && d@.len() == 1);
                        },
                        MsgAddressExt::AddrExtern { address } => {
                            assert(d@[0] == (seq![1u8, address@.len() as u8] + address@)[0]);
                            assert(d@.len() == 2 + address@.len());
                        },
                    }
                }
            }
        }
        return None;
    }
    let elen = d[1] as usize;
    if elen > MAX_EXT_ADDR_LEN || n != 2 + elen {
        proof {
            assert forall|a: MsgAddressExt| addr_ext_wf(a) implies #[trigger] addr_ext_bytes(a)
                != d@ by {
                if addr_ext_bytes(a) == d@ {
                    match a {
                        MsgAddressExt::AddrNone => {
                            assert(d@.len() == 1);
                        },
                        MsgAddressExt::AddrExtern { address } => {
                            assert(d@.len() == 2 + address@.len());
                            assert(d@[1] == (seq![1u8, address@.len() as u8] + address@)[1]);
                        },
                    }
                }
            }
        }
        return None;
    }
    let address = read_bytes(d, 2, elen);
    let ghost gaddr = address@;
    let a = MsgAddressExt::AddrExtern { address };
    proof {
        assert(addr_ext_bytes(a) == seq![1u8, gaddr.len() as u8] + gaddr);
        assert(addr_ext_bytes(a) =~= d@);
    }
    Some(a)
}

/// Whether a message cell's trailing references satisfy the flag byte:
/// each announced tree is present and well formed.
pub open spec fn tail_ok(v: CellVal, flags: u8) -> bool {
    let wi = (flags / 8) % 2 == 1;
    let wb = (flags / 16) % 2 == 1;
    &&& (wi ==> v.refs.len() > 2 && val_wf(v.refs[2]))
    &&& (wb ==> v.refs.len() > 2 + (if wi {
        1int
    } else {
        0int
    }) && val_wf(
        v.refs[2 + (if wi {
            1int
        } else {
            0int
        })],
    ))
}

/// Reads the optional init and body references of a message cell,
/// according to the flag byte. It succeeds exactly when the announced
/// trees are there and well formed, and hands back exactly those trees.
fn parse_tail(c: &Cell, flags: u8) -> (r: Option<(Option<Cell>, Option<Cell>)>)
    ensures
        r is Some <==> tail_ok(c@, flags),
        r matches Some((init, body)) ==> {
            let wi = (flags / 8) % 2 == 1;
            let wb = (flags / 16) % 2 == 1;
            &&& opt_view(init) == (if wi {
                Some(c@.refs[2])
            } else {
                None::<CellVal>
            })
            &&& opt_view(body) == (if wb {
                Some(
                    c@.refs[2 + (if wi {
                        1int
                    } else {
                        0int
                    })],
                )
            } else {
                None::<CellVal>
            })
            &&& (init matches Some(t) ==> val_wf(t@))
            &&& (body matches Some(t) ==> val_wf(t@))
        },
{
    let mut at: usize = 2;
    let init: Option<Cell> = if (flags / 8) % 2 == 1 {
        if c.refs.len() <= at {
            return None;
        }
        let t = c.refs[at].duplicate();
        assert(t@ == c@.refs[2]);
        if !t.is_well_formed() {
            return None;
        }
        at += 1;
        Some(t)
    } else {
        None
    };
    let body: Option<Cell> = if (flags / 16) % 2 == 1 {
        if c.refs.len() <= at {
            return None;
        }
        let t = c.refs[at].duplicate();
        assert(t@ == c@.refs[at as int]);
        if !t.is_well_formed() {
            return None;
        }
        Some(t)
    } else {
        None
    };
    Some((init, body))
}

/// Decodes a whole message from its cell. A message is returned only if
/// its own re-encoding is exactly the input cell, so whatever comes back
/// is well formed and is the one message the cell encodes.
pub fn message_from_cell(c: &Cell) -> (r: Result<Message, HarnessError>)
    ensures
        r matches Ok(m) ==> msg_wf(m) && msg_cell_val(m) == c@,
        r is Err ==> r == Err::<Message, HarnessError>(HarnessError::CorruptActionList),
        r is Err ==> forall|m2: Message| msg_wf(m2) ==> #[trigger] msg_cell_val(m2) != c@,
{
    let m = match parse_message(c) {
        Some(m) => m,
        None => {
            proof {
                assert forall|m2: Message| msg_wf(m2) implies #[trigger] msg_cell_val(m2)
                    != c@ by {}
            }
            return Err(HarnessError::CorruptActionList);
        },
    };
    if !check_msg_wf(&m) {
        proof {
            assert forall|m2: Message| msg_wf(m2) implies #[trigger] msg_cell_val(m2) != c@ by {}
        }
        return Err(HarnessError::CorruptActionList);
    }
    let re = message_to_cell(&m);
    if re.same_as(c) {
        Ok(m)
    } else {
        proof {
            assert forall|m2: Message| msg_wf(m2) implies #[trigger] msg_cell_val(m2) != c@ by {}
        }
        Err(HarnessError::CorruptActionList)
    }
}

/// Decides well-formedness of a message.
fn check_msg_wf(m: &Message) -> (r: bool)
    ensures
        r == msg_wf(*m),
{
    let addrs_ok = match &m.header {
        CommonMsgInfo::IntMsgInfo(h) => check_addr_int(&h.src) && check_addr_int(&h.dst),
        CommonMsgInfo::ExtInMsgInfo(h) => check_addr_ext(&h.src) && check_addr_int(&h.dst),
        CommonMsgInfo::ExtOutMsgInfo(h) => check_addr_int(&h.src) && check_addr_ext(&h.dst),
    };
    let init_ok = match &m.init {
        Some(t) => t.is_well_formed(),
        None => true,
    };
    let body_ok = match &m.body {
        Some(t) => t.is_well_formed(),
        None => true,
    };
    addrs_ok && init_ok && body_ok
}

/// Decides well-formedness of an in-chain address.
fn check_addr_int(a: &MsgAddressInt) -> (r: bool)
    ensures
        r == crate::message::addr_int_wf(*a),
{
    match a {
        MsgAddressInt::AddrStd { anycast, address, .. } => address.len() == 32 && (match anycast {
            Some(p) => p.len() <= MAX_ANYCAST_LEN,
            None => true,
        }),
        MsgAddressInt::AddrVar { anycast, address, .. } => address.len() <= MAX_VAR_ADDR_LEN && (
        match anycast {
            Some(p) => p.len() <= MAX_ANYCAST_LEN,
            None => true,
        }),
    }
}

/// Decides well-formedness of an out-of-chain address.
fn check_addr_ext(a: &MsgAddressExt) -> (r: bool)
    ensures
        r == crate::message::addr_ext_wf(*a),
{
    match a {
        MsgAddressExt::AddrNone => true,
        MsgAddressExt::AddrExtern { address } => address.len() <= MAX_EXT_ADDR_LEN,
    }
}

/// What the cell of a message pins down: the tag and flag bytes, the
/// numeric segments, the two address cells, and the trailing trees.
proof fn lemma_msg_layout(m: Message, v: CellVal)
    requires
        msg_cell_val(m) == v,
    ensures
        v.data == msg_data_bytes(m),
        v.data.len() >= 2,
        v.data[1] == msg_flag_byte(m),
        (m.init is Some) == ((v.data[1] / 8) % 2 == 1),
        (m.body is Some) == ((v.data[1] / 16) % 2 == 1),
        m.header matches CommonMsgInfo::IntMsgInfo(h) ==> h.ihr_disabled == (v.data[1] % 2 == 1)
            && h.bounce == ((v.data[1] / 2) % 2 == 1) && h.bounced == ((v.data[1] / 4) % 2 == 1),
        !(m.header matches CommonMsgInfo::IntMsgInfo(h)) ==> v.data[1] % 8 == 0,
        v.refs.len() == 2 + (if m.init is Some {
            1int
        } else {
            0int
        }) + (if m.body is Some {
            1int
        } else {
            0int
        }),
        v.refs[0] == msg_addr_cells(m)[0],
        v.refs[1] == msg_addr_cells(m)[1],
        m.init matches Some(t) ==> v.refs[2] == t@,
        m.body matches Some(t) ==> v.refs[2 + (if m.init is Some {
            1int
        } else {
            0int
        })] == t@,
        match m.header {
            CommonMsgInfo::IntMsgInfo(h) => v.data.len() == 62 && v.data[0] == 0 && be16(h.value)
                == v.data.subrange(2, 18) && be16(h.ihr_fee) == v.data.subrange(18, 34) && be16(
                h.fwd_fee,
            ) == v.data.subrange(34, 50) && be8(h.created_lt) == v.data.subrange(50, 58) && be4(
                h.created_at,
            ) == v.data.subrange(58, 62),
            CommonMsgInfo::ExtInMsgInfo(h) => v.data.len() == 18 && v.data[0] == 1 && be16(
                h.import_fee,
            ) == v.data.subrange(2, 18),
            CommonMsgInfo::ExtOutMsgInfo(h) => v.data.len() == 14 && v.data[0] == 2 && be8(
                h.created_lt,
            ) == v.data.subrange(2, 10) && be4(h.created_at) == v.data.subrange(10, 14),
        },
{
    assert(v.data == msg_data_bytes(m));
    assert(v.refs == msg_addr_cells(m) + msg_tail_cells(m));
    assert(v.refs[0] == msg_addr_cells(m)[0]);
    assert(v.refs[1] == msg_addr_cells(m)[1]);
    if let Some(t) = m.init {
        assert(msg_tail_cells(m)[0] == t@);
        assert(v.refs[2] == msg_tail_cells(m)[0]);
    }
    if let Some(t) = m.body {
        let bi = if m.init is Some {
            1int
        } else {
            0int
        };
        assert(msg_tail_cells(m)[bi] == t@);
        assert(v.refs[2 + bi] == msg_tail_cells(m)[bi]);
    }
    match m.header {
        CommonMsgInfo::IntMsgInfo(h) => {
            let s0 = seq![0u8, msg_flag_byte(m)];
            let s1 = s0 + be16(h.value);
            let s2 = s1 + be16(h.ihr_fee);
            let s3 = s2 + be16(h.fwd_fee);
            let s4 = s3 + be8(h.created_lt);
            assert(v.data == s4 + be4(h.created_at));
            assert(v.data[0] == s0[0] && v.data[1] == s0[1]);
            assert(be16(h.value) =~= v.data.subrange(2, 18));
            assert(be16(h.ihr_fee) =~= v.data.subrange(18, 34));
            assert(be16(h.fwd_fee) =~= v.data.subrange(34, 50));
            assert(be8(h.created_lt) =~= v.data.subrange(50, 58));
            assert(be4(h.created_at) =~= v.data.subrange(58, 62));
        },
        CommonMsgInfo::ExtInMsgInfo(h) => {
            let s0 = seq![1u8, msg_flag_byte(m)];
            assert(v.data == s0 + be16(h.import_fee));
            assert(v.data[0] == s0[0] && v.data[1] == s0[1]);
            assert(be16(h.import_fee) =~= v.data.subrange(2, 18));
        },
        CommonMsgInfo::ExtOutMsgInfo(h) => {
            let s0 = seq![2u8, msg_flag_byte(m)];
            let s1 = s0 + be8(h.created_lt);
            assert(v.data == s1 + be4(h.created_at));
            assert(v.data[0] == s0[0] && v.data[1] == s0[1]);
            assert(be8(h.created_lt) =~= v.data.subrange(2, 10));
            assert(be4(h.created_at) =~= v.data.subrange(10, 14));
        },
    }
}

/// Reads a candidate message out of a cell. Whenever some well-formed
/// message has this cell as its encoding, the read succeeds and hands
/// back a well-formed message with exactly this encoding; on any other
/// input the caller re-encodes and compares, which rejects a stray read.
#[verifier::rlimit(100)]
fn parse_message(c: &Cell) -> (r: Option<Message>)
    ensures
        (exists|m: Message| #![trigger msg_cell_val(m)] msg_wf(m) && msg_cell_val(m) == c@) ==> (
        r matches Some(m2) && msg_wf(m2) && msg_cell_val(m2) == c@),
{
    proof {
        if exists|m: Message| #![trigger msg_cell_val(m)] msg_wf(m) && msg_cell_val(m) == c@ {
            let m = choose|m: Message| #![trigger msg_cell_val(m)]
                msg_wf(m) && msg_cell_val(m) == c@;
            lemma_msg_layout(m, c@);
            if m.init is Some {
                assert(c@.refs[2] == m.init.unwrap()@);
                assert(val_wf(m.init.unwrap()@));
            }
            if m.body is Some {
                assert(val_wf(m.body.unwrap()@));
            }
            assert(tail_ok(c@, c@.data[1]));
            assert(c@.refs.len() == c.refs@.len());
            assert(c@.refs[0] == c.refs@[0]@);
            assert(c@.refs[1] == c.refs@[1]@);
            assert(c@.refs[0].data == c.refs@[0].data@);
            assert(c@.refs[1].data == c.refs@[1].data@);
            match m.header {
                CommonMsgInfo::IntMsgInfo(h) => {
                    assert(c.refs@[0].data@ == addr_int_bytes(h.src));
                    assert(c.refs@[1].data@ == addr_int_bytes(h.dst));
                    assert(addr_int_wf(h.src) && addr_int_wf(h.dst));
                },
                CommonMsgInfo::ExtInMsgInfo(h) => {
                    assert(c.refs@[0].data@ == addr_ext_bytes(h.src));
                    assert(c.refs@[1].data@ == addr_int_bytes(h.dst));
                    assert(addr_ext_wf(h.src) && addr_int_wf(h.dst));
                },
                CommonMsgInfo::ExtOutMsgInfo(h) => {
                    assert(c.refs@[0].data@ == addr_int_bytes(h.src));
                    assert(c.refs@[1].data@ == addr_ext_bytes(h.dst));
                    assert(addr_int_wf(h.src) && addr_ext_wf(h.dst));
                },
            }
        }
    }
    if c.data.len() < 2 || c.refs.len() < 2 {
        return None;
    }
    let tag = c.data[0];
    let flags = c.data[1];
    let (init, body) = match parse_tail(c, flags) {
        Some(t) => t,
        None => {
            return None;
        },
    };
    if tag == 0 {
        if c.data.len() != 2 + 48 + 8 + 4 {
            return None;
        }
        let src = match parse_addr_int(&c.refs[0].data) {
            Some(a) => a,
            None => {
                return None;
            },
        };
        let dst = match parse_addr_int(&c.refs[1].data) {
            Some(a) => a,
            None => {
                return None;
            },
        };
        let h = InternalMessageHeader {
            ihr_disabled: flags % 2 == 1,
            bounce: (flags / 2) % 2 == 1,
            bounced: (flags / 4) % 2 == 1,
            src,
            dst,
            value: read_be16(&c.data, 2),
            ihr_fee: read_be16(&c.data, 18),
            fwd_fee: read_be16(&c.data, 34),
            created_lt: read_be8(&c.data, 50),
            created_at: read_be4(&c.data, 58),
        };
        let msg = Message { header: CommonMsgInfo::IntMsgInfo(h), init, body };
        proof {
            if exists|m: Message| #![trigger msg_cell_val(m)] msg_wf(m) && msg_cell_val(m)
                == c@ {
                let m = choose|m: Message| #![trigger msg_cell_val(m)]
                    msg_wf(m) && msg_cell_val(m) == c@;
                assert(msg_flag_byte(msg) == c@.data[1]);
                assert(msg_data_bytes(msg) =~= c@.data);
                assert(msg_addr_cells(msg)[0] =~= c@.refs[0]);
                assert(msg_addr_cells(msg)[1] =~= c@.refs[1]);
                assert((msg_addr_cells(msg) + msg_tail_cells(msg)) =~= c@.refs);
                assert(msg_cell_val(msg) =~= c@);
                assert(msg_wf(msg));
            }
        }
        Some(msg)
    } else if tag == 1 {
        if c.data.len() != 2 + 16 {
            return None;
        }
        let src = match parse_addr_ext(&c.refs[0].data) {
            Some(a) => a,
            None => {
                return None;
            },
        };
        let dst = match parse_addr_int(&c.refs[1].data) {
            Some(a) => a,
            None => {
                return None;
            },
        };
        let h = ExternalInboundMessageHeader { src, dst, import_fee: read_be16(&c.data, 2) };
        let msg = Message { header: CommonMsgInfo::ExtInMsgInfo(h), init, body };
        proof {
            if exists|m: Message| #![trigger msg_cell_val(m)] msg_wf(m) && msg_cell_val(m)
                == c@ {
                let m = choose|m: Message| #![trigger msg_cell_val(m)]
                    msg_wf(m) && msg_cell_val(m) == c@;
                assert(msg_flag_byte(msg) == c@.data[1]);
                assert(msg_data_bytes(msg) =~= c@.data);
                assert(msg_addr_cells(msg)[0] =~= c@.refs[0]);
                assert(msg_addr_cells(msg)[1] =~= c@.refs[1]);
                assert((msg_addr_cells(msg) + msg_tail_cells(msg)) =~= c@.refs);
                assert(msg_cell_val(msg) =~= c@);
                assert(msg_wf(msg));
            }
        }
        Some(msg)
    } else if tag == 2 {
        if c.data.len() != 2 + 8 + 4 {
            return None;
        }
        let src = match parse_addr_int(&c.refs[0].data) {
            Some(a) => a,
            None => {
                return None;
            },
        };
        let dst = match parse_addr_ext(&c.refs[1].data) {
            Some(a) => a,
            None => {
                return None;
            },
        };
        let h = ExternalOutboundMessageHeader {
            src,
            dst,
            created_lt: read_be8(&c.data, 2),
            created_at: read_be4(&c.data, 10),
        };
        let msg = Message { header: CommonMsgInfo::ExtOutMsgInfo(h), init, body };
        proof {
            if exists|m: Message| #![trigger msg_cell_val(m)] msg_wf(m) && msg_cell_val(m)
                == c@ {
                let m = choose|m: Message| #![trigger msg_cell_val(m)]
                    msg_wf(m) && msg_cell_val(m) == c@;
                assert(msg_flag_byte(msg) == c@.data[1]);
                assert(msg_data_bytes(msg) =~= c@.data);
                assert(msg_addr_cells(msg)[0] =~= c@.refs[0]);
                assert(msg_addr_cells(msg)[1] =~= c@.refs[1]);
                assert((msg_addr_cells(msg) + msg_tail_cells(msg)) =~= c@.refs);
                assert(msg_cell_val(msg) =~= c@);
                assert(msg_wf(msg));
            }
        }
        Some(msg)
    } else {
        None
    }
}

/// Walks the chain from `c`, appending each decoded action to `acc`.
/// On failure no well-formed action sequence encodes the chain at all.
#[verifier::rlimit(100)]
fn decode_actions_into(c: &Cell, acc: &mut Vec<OutAction>) -> (r: Result<(), HarnessError>)
    ensures
        r is Ok ==> {
            &&& final(acc)@.len() >= old(acc)@.len()
            &&& final(acc)@.subrange(0, old(acc)@.len() as int) == old(acc)@
            &&& action_list_val_from(final(acc)@, old(acc)@.len() as int) == c@
        },
        r is Err ==> r == Err::<(), HarnessError>(HarnessError::CorruptActionList),
        c@ == empty_val() ==> (r is Ok && final(acc)@ == old(acc)@),
        r is Err ==> forall|acts: Seq<OutAction>, i: int|
            #![trigger action_list_val_from(acts, i)]
            (forall|j: int| 0 <= j < acts.len() ==> action_wf(#[trigger] acts[j]))
                ==> action_list_val_from(acts, i) != c@,
    decreases *c,
{
    if c.data.len() == 0 {
        if c.refs.len() == 0 {
            proof {
                assert(acc@.subrange(0, acc@.len() as int) =~= acc@);
                assert(c@.data.len() == 0);
                assert(c@.refs.len() == 0);
                assert(c@.data =~= empty_val().data);
                assert(c@.refs =~= empty_val().refs);
                assert(c@ =~= empty_val());
                assert(action_list_val_from(acc@, acc@.len() as int) == c@);
            }
            return Ok(());
        }
        proof {
            assert(c@.data.len() == 0 && c@.refs.len() != 0);
            assert forall|acts: Seq<OutAction>, i: int|
                #![trigger action_list_val_from(acts, i)]
                (forall|j: int| 0 <= j < acts.len() ==> action_wf(#[trigger] acts[j]))
                    implies action_list_val_from(acts, i) != c@ by {
                if action_list_val_from(acts, i) == c@ {
                    if 0 <= i < acts.len() {
                        assert(action_wf(acts[i]));
                        assert(action_node_val(acts[i], action_list_val_from(acts, i + 1)) == c@);
                        match acts[i] {
                            OutAction::SendMsg { mode, out_msg } => {
                                assert(c@.data == send_msg_tag() + seq![mode]);
                                assert(c@.data.len() == 5);
                                assert(c@.data[0] == 0x0e && c@.data[1] == 0xc3 && c@.data[2]
                                    == 0xc8 && c@.data[3] == 0x6d);
                                assert(c@.data.subrange(0, 4) =~= send_msg_tag());
                                assert(c@.refs.len() == 2);
                                assert(c@.refs[0] == action_list_val_from(acts, i + 1));
                                assert(c@.refs[1] == msg_cell_val(out_msg));
                                assert(msg_wf(out_msg));
                            },
                            OutAction::SetCode { new_code } => {
                                assert(c@.data == set_code_tag());
                                assert(c@.data.len() == 4);
                                assert(c@.data[0] == 0xad && c@.data[1] == 0x4d && c@.data[2]
                                    == 0xe0 && c@.data[3] == 0x8e);
                                assert(c@.refs.len() == 2);
                                assert(c@.refs[0] == action_list_val_from(acts, i + 1));
                            },
                            OutAction::Other { raw: raw2 } => {
                                assert(other_form(raw2@) && val_wf(raw2@));
                                assert(c@.data == raw2@.data);
                                assert(c@.data.len() > 0);
                                assert(c@.refs == seq![action_list_val_from(acts, i + 1)]
                                    + raw2@.refs);
                                assert(1 <= c@.refs.len() <= 4);
                                assert(c@.refs[0] == action_list_val_from(acts, i + 1));
                            },
                        }
                    } else {
                        assert(action_list_val_from(acts, i) == empty_val());
                        assert(c@.data.len() == 0 && c@.refs.len() == 0);
                    }
                }
            }
        }
        return Err(HarnessError::CorruptActionList);
    }
    assert(c@.data.len() != 0);
    let d = &c.data;
    let ghost k = acc@.len() as int;
    if d.len() == 5 && d[0] == 0x0e && d[1] == 0xc3 && d[2] == 0xc8 && d[3] == 0x6d {
        proof {
            assert(c@.data.subrange(0, 4) =~= send_msg_tag());
        }
        if c.refs.len() != 2 {
            proof {
                assert forall|acts: Seq<OutAction>, i: int|
                #![trigger action_list_val_from(acts, i)]
                (forall|j: int| 0 <= j < acts.len() ==> action_wf(#[trigger] acts[j]))
                    implies action_list_val_from(acts, i) != c@ by {
                if action_list_val_from(acts, i) == c@ {
                    if 0 <= i < acts.len() {
                        assert(action_wf(acts[i]));
                        assert(action_node_val(acts[i], action_list_val_from(acts, i + 1)) == c@);
                        match acts[i] {
                            OutAction::SendMsg { mode, out_msg } => {
                                assert(c@.data == send_msg_tag() + seq![mode]);
                                assert(c@.data.len() == 5);
                                assert(c@.data[0] == 0x0e && c@.data[1] == 0xc3 && c@.data[2]
                                    == 0xc8 && c@.data[3] == 0x6d);
                                assert(c@.data.subrange(0, 4) =~= send_msg_tag());
                                assert(c@.refs.len() == 2);
                                assert(c@.refs[0] == action_list_val_from(acts, i + 1));
                                assert(c@.refs[1] == msg_cell_val(out_msg));
                                assert(msg_wf(out_msg));
                            },
                            OutAction::SetCode { new_code } => {
                                assert(c@.data == set_code_tag());
                                assert(c@.data.len() == 4);
                                assert(c@.data[0] == 0xad && c@.data[1] == 0x4d && c@.data[2]
                                    == 0xe0 && c@.data[3] == 0x8e);
                                assert(c@.refs.len() == 2);
                                assert(c@.refs[0] == action_list_val_from(acts, i + 1));
                            },
                            OutAction::Other { raw: raw2 } => {
                                assert(other_form(raw2@) && val_wf(raw2@));
                                assert(c@.data == raw2@.data);
                                assert(c@.data.len() > 0);
                                assert(c@.refs == seq![action_list_val_from(acts, i + 1)]
                                    + raw2@.refs);
                                assert(1 <= c@.refs.len() <= 4);
                                assert(c@.refs[0] == action_list_val_from(acts, i + 1));
                            },
                        }
                    } else {
                        assert(action_list_val_from(acts, i) == empty_val());
                        assert(c@.data.len() == 0 && c@.refs.len() == 0);
                    }
                }
            }
            }
            return Err(HarnessError::CorruptActionList);
        }
        let mode = d[4];
        let mcell = &c.refs[1];
        proof {
            assert(mcell@ == c@.refs[1]);
        }
        let mres = message_from_cell(mcell);
        let out_msg = match mres {
            Ok(m) => m,
            Err(_) => {
                proof {
                    assert(forall|m2: Message|
                        msg_wf(m2) ==> #[trigger] msg_cell_val(m2) != mcell@);
                    assert forall|acts: Seq<OutAction>, i: int|
                #![trigger action_list_val_from(acts, i)]
                (forall|j: int| 0 <= j < acts.len() ==> action_wf(#[trigger] acts[j]))
                    implies action_list_val_from(acts, i) != c@ by {
                if action_list_val_from(acts, i) == c@ {
                    if 0 <= i < acts.len() {
                        assert(action_wf(acts[i]));
                        assert(action_node_val(acts[i], action_list_val_from(acts, i + 1)) == c@);
                        match acts[i] {
                            OutAction::SendMsg { mode, out_msg } => {
                                assert(c@.data == send_msg_tag() + seq![mode]);
                                assert(c@.data.len() == 5);
                                assert(c@.data[0] == 0x0e && c@.data[1] == 0xc3 && c@.data[2]
                                    == 0xc8 && c@.data[3] == 0x6d);
                                assert(c@.data.subrange(0, 4) =~= send_msg_tag());
                                assert(c@.refs.len() == 2);
                                assert(c@.refs[0] == action_list_val_from(acts, i + 1));
                                assert(c@.refs[1] == msg_cell_val(out_msg));
                                assert(msg_wf(out_msg));
                                assert(msg_cell_val(out_msg) == c.refs@[1 as int]@);
                                assert(false);
                            },
                            OutAction::SetCode { new_code } => {
                                assert(c@.data == set_code_tag());
                                assert(c@.data.len() == 4);
                                assert(c@.data[0] == 0xad && c@.data[1] == 0x4d && c@.data[2]
                                    == 0xe0 && c@.data[3] == 0x8e);
                                assert(c@.refs.len() == 2);
                                assert(c@.refs[0] == action_list_val_from(acts, i + 1));
                            },
                            OutAction::Other { raw: raw2 } => {
                                assert(other_form(raw2@) && val_wf(raw2@));
                                assert(c@.data == raw2@.data);
                                assert(c@.data.len() > 0);
                                assert(c@.refs == seq![action_list_val_from(acts, i + 1)]
                                    + raw2@.refs);
                                assert(1 <= c@.refs.len() <= 4);
                                assert(c@.refs[0] == action_list_val_from(acts, i + 1));
                            },
                        }
                    } else {
                        assert(action_list_val_from(acts, i) == empty_val());
                        assert(c@.data.len() == 0 && c@.refs.len() == 0);
                    }
                }
            }
                }
                return Err(HarnessError::CorruptActionList);
            },
        };
        let act = OutAction::SendMsg { mode, out_msg };
        acc.push(act);
        match decode_actions_into(&c.refs[0], acc) {
            Ok(()) => {
                proof {
                    assert(acc@.subrange(0, k + 1)[k] == acc@[k]);
                    assert(acc@[k] == act);
                    assert(acc@.subrange(0, k) =~= acc@.subrange(0, k + 1).subrange(0, k));
                    assert(acc@.subrange(0, k) =~= old(acc)@);
                    assert(action_node_val(act, action_list_val_from(acc@, k + 1)).data
                        =~= c@.data);
                    assert(action_node_val(act, action_list_val_from(acc@, k + 1)).refs
                        =~= c@.refs);
                    assert(action_list_val_from(acc@, k) =~= c@);
                }
                Ok(())
            },
            Err(e) => {
                proof {
                    assert(c@.refs[0] == c.refs@[0]@);
                    assert forall|acts: Seq<OutAction>, i: int|
                #![trigger action_list_val_from(acts, i)]
                (forall|j: int| 0 <= j < acts.len() ==> action_wf(#[trigger] acts[j]))
                    implies action_list_val_from(acts, i) != c@ by {
                if action_list_val_from(acts, i) == c@ {
                    if 0 <= i < acts.len() {
                        assert(action_wf(acts[i]));
                        assert(action_node_val(acts[i], action_list_val_from(acts, i + 1)) == c@);
                        match acts[i] {
                            OutAction::SendMsg { mode, out_msg } => {
                                assert(c@.data == send_msg_tag() + seq![mode]);
                                assert(c@.data.len() == 5);
                                assert(c@.data[0] == 0x0e && c@.data[1] == 0xc3 && c@.data[2]
                                    == 0xc8 && c@.data[3] == 0x6d);
                                assert(c@.data.subrange(0, 4) =~= send_msg_tag());
                                assert(c@.refs.len() == 2);
                                assert(c@.refs[0] == action_list_val_from(acts, i + 1));
                                assert(c@.refs[1] == msg_cell_val(out_msg));
                                assert(msg_wf(out_msg));
                            },
                            OutAction::SetCode { new_code } => {
                                assert(c@.data == set_code_tag());
                                assert(c@.data.len() == 4);
                                assert(c@.data[0] == 0xad && c@.data[1] == 0x4d && c@.data[2]
                                    == 0xe0 && c@.data[3] == 0x8e);
                                assert(c@.refs.len() == 2);
                                assert(c@.refs[0] == action_list_val_from(acts, i + 1));
                            },
                            OutAction::Other { raw: raw2 } => {
                                assert(other_form(raw2@) && val_wf(raw2@));
                                assert(c@.data == raw2@.data);
                                assert(c@.data.len() > 0);
                                assert(c@.refs == seq![action_list_val_from(acts, i + 1)]
                                    + raw2@.refs);
                                assert(1 <= c@.refs.len() <= 4);
                                assert(c@.refs[0] == action_list_val_from(acts, i + 1));
                            },
                        }
                    } else {
                        assert(action_list_val_from(acts, i) == empty_val());
                        assert(c@.data.len() == 0 && c@.refs.len() == 0);
                    }
                }
            }
                }
                Err(e)
            },
        }
    } else if d.len() == 4 && d[0] == 0xad && d[1] == 0x4d && d[2] == 0xe0 && d[3] == 0x8e {
        proof {
            assert(c@.data =~= set_code_tag());
        }
        if c.refs.len() != 2 {
            proof {
                assert forall|acts: Seq<OutAction>, i: int|
                #![trigger action_list_val_from(acts, i)]
                (forall|j: int| 0 <= j < acts.len() ==> action_wf(#[trigger] acts[j]))
                    implies action_list_val_from(acts, i) != c@ by {
                if action_list_val_from(acts, i) == c@ {
                    if 0 <= i < acts.len() {
                        assert(action_wf(acts[i]));
                        assert(action_node_val(acts[i], action_list_val_from(acts, i + 1)) == c@);
                        match acts[i] {
                            OutAction::SendMsg { mode, out_msg } => {
                                assert(c@.data == send_msg_tag() + seq![mode]);
                                assert(c@.data.len() == 5);
                                assert(c@.data[0] == 0x0e && c@.data[1] == 0xc3 && c@.data[2]
                                    == 0xc8 && c@.data[3] == 0x6d);
                                assert(c@.data.subrange(0, 4) =~= send_msg_tag());
                                assert(c@.refs.len() == 2);
                                assert(c@.refs[0] == action_list_val_from(acts, i + 1));
                                assert(c@.refs[1] == msg_cell_val(out_msg));
                                assert(msg_wf(out_msg));
                            },
                            OutAction::SetCode { new_code } => {
                                assert(c@.data == set_code_tag());
                                assert(c@.data.len() == 4);
                                assert(c@.data[0] == 0xad && c@.data[1] == 0x4d && c@.data[2]
                                    == 0xe0 && c@.data[3] == 0x8e);
                                assert(c@.refs.len() == 2);
                                assert(c@.refs[0] == action_list_val_from(acts, i + 1));
                            },
                            OutAction::Other { raw: raw2 } => {
                                assert(other_form(raw2@) && val_wf(raw2@));
                                assert(c@.data == raw2@.data);
                                assert(c@.data.len() > 0);
                                assert(c@.refs == seq![action_list_val_from(acts, i + 1)]
                                    + raw2@.refs);
                                assert(1 <= c@.refs.len() <= 4);
                                assert(c@.refs[0] == action_list_val_from(acts, i + 1));
                            },
                        }
                    } else {
                        assert(action_list_val_from(acts, i) == empty_val());
                        assert(c@.data.len() == 0 && c@.refs.len() == 0);
                    }
                }
            }
            }
            return Err(HarnessError::CorruptActionList);
        }
        let new_code = c.refs[1].duplicate();
        let act = OutAction::SetCode { new_code };
        acc.push(act);
        match decode_actions_into(&c.refs[0], acc) {
            Ok(()) => {
                proof {
                    assert(acc@.subrange(0, k + 1)[k] == acc@[k]);
                    assert(acc@[k] == act);
                    assert(acc@.subrange(0, k) =~= acc@.subrange(0, k + 1).subrange(0, k));
                    assert(acc@.subrange(0, k) =~= old(acc)@);
                    assert(action_node_val(act, action_list_val_from(acc@, k + 1)).data
                        =~= c@.data);
                    assert(action_node_val(act, action_list_val_from(acc@, k + 1)).refs
                        =~= c@.refs);
                    assert(action_list_val_from(acc@, k) =~= c@);
                }
                Ok(())
            },
            Err(e) => {
                proof {
                    assert(c@.refs[0] == c.refs@[0]@);
                    assert forall|acts: Seq<OutAction>, i: int|
                #![trigger action_list_val_from(acts, i)]
                (forall|j: int| 0 <= j < acts.len() ==> action_wf(#[trigger] acts[j]))
                    implies action_list_val_from(acts, i) != c@ by {
                if action_list_val_from(acts, i) == c@ {
                    if 0 <= i < acts.len() {
                        assert(action_wf(acts[i]));
                        assert(action_node_val(acts[i], action_list_val_from(acts, i + 1)) == c@);
                        match acts[i] {
                            OutAction::SendMsg { mode, out_msg } => {
                                assert(c@.data == send_msg_tag() + seq![mode]);
                                assert(c@.data.len() == 5);
                                assert(c@.data[0] == 0x0e && c@.data[1] == 0xc3 && c@.data[2]
                                    == 0xc8 && c@.data[3] == 0x6d);
                                assert(c@.data.subrange(0, 4) =~= send_msg_tag());
                                assert(c@.refs.len() == 2);
                                assert(c@.refs[0] == action_list_val_from(acts, i + 1));
                                assert(c@.refs[1] == msg_cell_val(out_msg));
                                assert(msg_wf(out_msg));
                            },
                            OutAction::SetCode { new_code } => {
                                assert(c@.data == set_code_tag());
                                assert(c@.data.len() == 4);
                                assert(c@.data[0] == 0xad && c@.data[1] == 0x4d && c@.data[2]
                                    == 0xe0 && c@.data[3] == 0x8e);
                                assert(c@.refs.len() == 2);
                                assert(c@.refs[0] == action_list_val_from(acts, i + 1));
                            },
                            OutAction::Other { raw: raw2 } => {
                                assert(other_form(raw2@) && val_wf(raw2@));
                                assert(c@.data == raw2@.data);
                                assert(c@.data.len() > 0);
                                assert(c@.refs == seq![action_list_val_from(acts, i + 1)]
                                    + raw2@.refs);
                                assert(1 <= c@.refs.len() <= 4);
                                assert(c@.refs[0] == action_list_val_from(acts, i + 1));
                            },
                        }
                    } else {
                        assert(action_list_val_from(acts, i) == empty_val());
                        assert(c@.data.len() == 0 && c@.refs.len() == 0);
                    }
                }
            }
                }
                Err(e)
            },
        }
    } else {
        proof {
            assert(!(c@.data.len() == 5 && c@.data.subrange(0, 4) == send_msg_tag())) by {
                if c@.data.len() == 5 && c@.data.subrange(0, 4) == send_msg_tag() {
                    assert(c@.data[0] == send_msg_tag()[0]);
                    assert(c@.data[1] == send_msg_tag()[1]);
                    assert(c@.data[2] == send_msg_tag()[2]);
                    assert(c@.data[3] == send_msg_tag()[3]);
                }
            }
            assert(c@.data != set_code_tag()) by {
                if c@.data == set_code_tag() {
                    assert(c@.data[0] == set_code_tag()[0]);
                    assert(c@.data[1] == set_code_tag()[1]);
                    assert(c@.data[2] == set_code_tag()[2]);
                    assert(c@.data[3] == set_code_tag()[3]);
                }
            }
        }
        if c.refs.len() < 1 || c.refs.len() > 4 {
            proof {
                assert forall|acts: Seq<OutAction>, i: int|
                #![trigger action_list_val_from(acts, i)]
                (forall|j: int| 0 <= j < acts.len() ==> action_wf(#[trigger] acts[j]))
                    implies action_list_val_from(acts, i) != c@ by {
                if action_list_val_from(acts, i) == c@ {
                    if 0 <= i < acts.len() {
                        assert(action_wf(acts[i]));
                        assert(action_node_val(acts[i], action_list_val_from(acts, i + 1)) == c@);
                        match acts[i] {
                            OutAction::SendMsg { mode, out_msg } => {
                                assert(c@.data == send_msg_tag() + seq![mode]);
                                assert(c@.data.len() == 5);
                                assert(c@.data[0] == 0x0e && c@.data[1] == 0xc3 && c@.data[2]
                                    == 0xc8 && c@.data[3] == 0x6d);
                                assert(c@.data.subrange(0, 4) =~= send_msg_tag());
                                assert(c@.refs.len() == 2);
                                assert(c@.refs[0] == action_list_val_from(acts, i + 1));
                                assert(c@.refs[1] == msg_cell_val(out_msg));
                                assert(msg_wf(out_msg));
                            },
                            OutAction::SetCode { new_code } => {
                                assert(c@.data == set_code_tag());
                                assert(c@.data.len() == 4);
                                assert(c@.data[0] == 0xad && c@.data[1] == 0x4d && c@.data[2]
                                    == 0xe0 && c@.data[3] == 0x8e);
                                assert(c@.refs.len() == 2);
                                assert(c@.refs[0] == action_list_val_from(acts, i + 1));
                            },
                            OutAction::Other { raw: raw2 } => {
                                assert(other_form(raw2@) && val_wf(raw2@));
                                assert(c@.data == raw2@.data);
                                assert(c@.data.len() > 0);
                                assert(c@.refs == seq![action_list_val_from(acts, i + 1)]
                                    + raw2@.refs);
                                assert(1 <= c@.refs.len() <= 4);
                                assert(c@.refs[0] == action_list_val_from(acts, i + 1));
                            },
                        }
                    } else {
                        assert(action_list_val_from(acts, i) == empty_val());
                        assert(c@.data.len() == 0 && c@.refs.len() == 0);
                    }
                }
            }
            }
            return Err(HarnessError::CorruptActionList);
        }
        let mut rdata: Vec<u8> = Vec::new();
        rdata.extend_from_slice(c.data.as_slice());
        let mut rrefs: Vec<Cell> = Vec::new();
        let nr = c.refs.len();
        let mut j: usize = 1;
        while j < nr
            invariant
                nr == c.refs@.len(),
                1 <= j <= nr,
                rrefs@.len() == j - 1,
                forall|t: int| 0 <= t < j - 1 ==> #[trigger] rrefs@[t]@ == c@.refs[t + 1],
            decreases nr - j,
        {
            let child = c.refs[j].duplicate();
            proof {
                assert(c.refs@[j as int]@ == c@.refs[j as int]);
            }
            rrefs.push(child);
            j += 1;
        }
        let raw = Cell { data: rdata, refs: rrefs };
        proof {
            assert(raw@.data =~= c@.data);
            assert(raw@.refs.len() == c@.refs.len() - 1);
            assert forall|t: int| 0 <= t < raw@.refs.len() implies #[trigger] raw@.refs[t]
                == c@.refs[t + 1] by {
                assert(raw@.refs[t] == rrefs@[t]@);
            }
        }
        if !raw.is_well_formed() {
            proof {
                assert forall|acts: Seq<OutAction>, i: int|
                #![trigger action_list_val_from(acts, i)]
                (forall|j: int| 0 <= j < acts.len() ==> action_wf(#[trigger] acts[j]))
                    implies action_list_val_from(acts, i) != c@ by {
                if action_list_val_from(acts, i) == c@ {
                    if 0 <= i < acts.len() {
                        assert(action_wf(acts[i]));
                        assert(action_node_val(acts[i], action_list_val_from(acts, i + 1)) == c@);
                        match acts[i] {
                            OutAction::SendMsg { mode, out_msg } => {
                                assert(c@.data == send_msg_tag() + seq![mode]);
                                assert(c@.data.len() == 5);
                                assert(c@.data[0] == 0x0e && c@.data[1] == 0xc3 && c@.data[2]
                                    == 0xc8 && c@.data[3] == 0x6d);
                                assert(c@.data.subrange(0, 4) =~= send_msg_tag());
                                assert(c@.refs.len() == 2);
                                assert(c@.refs[0] == action_list_val_from(acts, i + 1));
                                assert(c@.refs[1] == msg_cell_val(out_msg));
                                assert(msg_wf(out_msg));
                            },
                            OutAction::SetCode { new_code } => {
                                assert(c@.data == set_code_tag());
                                assert(c@.data.len() == 4);
                                assert(c@.data[0] == 0xad && c@.data[1] == 0x4d && c@.data[2]
                                    == 0xe0 && c@.data[3] == 0x8e);
                                assert(c@.refs.len() == 2);
                                assert(c@.refs[0] == action_list_val_from(acts, i + 1));
                            },
                            OutAction::Other { raw: raw2 } => {
                                assert(other_form(raw2@) && val_wf(raw2@));
                                assert(c@.data == raw2@.data);
                                assert(c@.data.len() > 0);
                                assert(c@.refs == seq![action_list_val_from(acts, i + 1)]
                                    + raw2@.refs);
                                assert(1 <= c@.refs.len() <= 4);
                                assert(c@.refs[0] == action_list_val_from(acts, i + 1));
                                assert forall|t: int| 0 <= t < raw2@.refs.len() implies raw@.refs[t]
                                    == #[trigger] raw2@.refs[t] by {
                                    assert(raw2@.refs[t] == c@.refs[t + 1]);
                                }
                                assert(raw@ =~= raw2@);
                            },
                        }
                    } else {
                        assert(action_list_val_from(acts, i) == empty_val());
                        assert(c@.data.len() == 0 && c@.refs.len() == 0);
                    }
                }
            }
            }
            return Err(HarnessError::CorruptActionList);
        }
        let act = OutAction::Other { raw };
        acc.push(act);
        match decode_actions_into(&c.refs[0], acc) {
            Ok(()) => {
                proof {
                    assert(acc@.subrange(0, k + 1)[k] == acc@[k]);
                    assert(acc@[k] == act);
                    assert(acc@.subrange(0, k) =~= acc@.subrange(0, k + 1).subrange(0, k));
                    assert(acc@.subrange(0, k) =~= old(acc)@);
                    assert(action_node_val(act, action_list_val_from(acc@, k + 1)).data
                        =~= c@.data);
                    assert(action_node_val(act, action_list_val_from(acc@, k + 1)).refs
                        =~= c@.refs);
                    assert(action_list_val_from(acc@, k) =~= c@);
                }
                Ok(())
            },
            Err(e) => {
                proof {
                    assert(c@.refs[0] == c.refs@[0]@);
                    assert forall|acts: Seq<OutAction>, i: int|
                #![trigger action_list_val_from(acts, i)]
                (forall|j: int| 0 <= j < acts.len() ==> action_wf(#[trigger] acts[j]))
                    implies action_list_val_from(acts, i) != c@ by {
                if action_list_val_from(acts, i) == c@ {
                    if 0 <= i < acts.len() {
                        assert(action_wf(acts[i]));
                        assert(action_node_val(acts[i], action_list_val_from(acts, i + 1)) == c@);
                        match acts[i] {
                            OutAction::SendMsg { mode, out_msg } => {
                                assert(c@.data == send_msg_tag() + seq![mode]);
                                assert(c@.data.len() == 5);
                                assert(c@.data[0] == 0x0e && c@.data[1] == 0xc3 && c@.data[2]
                                    == 0xc8 && c@.data[3] == 0x6d);
                                assert(c@.data.subrange(0, 4) =~= send_msg_tag());
                                assert(c@.refs.len() == 2);
                                assert(c@.refs[0] == action_list_val_from(acts, i + 1));
                                assert(c@.refs[1] == msg_cell_val(out_msg));
                                assert(msg_wf(out_msg));
                            },
                            OutAction::SetCode { new_code } => {
                                assert(c@.data == set_code_tag());
                                assert(c@.data.len() == 4);
                                assert(c@.data[0] == 0xad && c@.data[1] == 0x4d && c@.data[2]
                                    == 0xe0 && c@.data[3] == 0x8e);
                                assert(c@.refs.len() == 2);
                                assert(c@.refs[0] == action_list_val_from(acts, i + 1));
                            },
                            OutAction::Other { raw: raw2 } => {
                                assert(other_form(raw2@) && val_wf(raw2@));
                                assert(c@.data == raw2@.data);
                                assert(c@.data.len() > 0);
                                assert(c@.refs == seq![action_list_val_from(acts, i + 1)]
                                    + raw2@.refs);
                                assert(1 <= c@.refs.len() <= 4);
                                assert(c@.refs[0] == action_list_val_from(acts, i + 1));
                            },
                        }
                    } else {
                        assert(action_list_val_from(acts, i) == empty_val());
                        assert(c@.data.len() == 0 && c@.refs.len() == 0);
                    }
                }
            }
                }
                Err(e)
            },
        }
    }
}

/// Decodes the engine's action-list cell into its ordered actions: the
/// returned sequence is the one list of actions the cell encodes. A
/// chain that does not decode is a harness failure.
pub fn decode_actions(c: &Cell) -> (r: Result<Vec<OutAction>, HarnessError>)
    ensures
        r matches Ok(acts) ==> action_list_val(acts@) == c@,
        r is Err ==> r == Err::<Vec<OutAction>, HarnessError>(HarnessError::CorruptActionList),
        c@ == empty_val() ==> (r matches Ok(acts) && acts@.len() == 0),
        r is Err ==> forall|acts: Seq<OutAction>|
            (forall|j: int| 0 <= j < acts.len() ==> action_wf(#[trigger] acts[j]))
                ==> #[trigger] action_list_val(acts) != c@,
{
    let mut acc: Vec<OutAction> = Vec::new();
    match decode_actions_into(c, &mut acc) {
        Ok(()) => Ok(acc),
        Err(e) => {
            proof {
                assert forall|acts: Seq<OutAction>|
                    (forall|j: int| 0 <= j < acts.len() ==> action_wf(#[trigger] acts[j]))
                        implies #[trigger] action_list_val(acts) != c@ by {
                    assert(action_list_val(acts) == action_list_val_from(acts, 0));
                }
            }
            Err(e)
        },
    }
}

/// The rendering of one action: send-message actions render their
/// message under the fixed caption; any other action renders nothing,
/// a deliberate reporting gap.
pub open spec fn action_chars(a: OutAction) -> Seq<char> {
    match a {
        OutAction::SendMsg { out_msg, .. } => "Action(SendMsg):\n"@ + message_chars(out_msg)
            + "\n"@,
        OutAction::SetCode { .. } => Seq::empty(),
        OutAction::Other { .. } => Seq::empty(),
    }
}

/// The rendering of the first `n` actions of a list, in order.
pub open spec fn actions_chars(acts: Seq<OutAction>, n: int) -> Seq<char>
    decreases n,
{
    if n <= 0 || n > acts.len() {
        Seq::empty()
    } else {
        actions_chars(acts, n - 1) + action_chars(acts[n - 1])
    }
}

/// Renders a decoded action list: the fixed caption lines, then each
/// send-message action in order.
pub fn render_actions(acts: &Vec<OutAction>) -> (s: String)
    ensures
        s@ == "Output actions:\n----------------\n"@ + actions_chars(acts@, acts@.len() as int),
{
    let mut s = String::new();
    s.append("Output actions:\n----------------\n");
    let mut i: usize = 0;
    while i < acts.len()
        invariant
            i <= acts@.len(),
            s@ == "Output actions:\n----------------\n"@ + actions_chars(acts@, i as int),
        decreases acts@.len() - i,
    {
        match &acts[i] {
            OutAction::SendMsg { out_msg, .. } => {
                s.append("Action(SendMsg):\n");
                let m = render_message(out_msg);
                s.append(m.as_str());
                s.append("\n");
            },
            OutAction::SetCode { .. } => {},
            OutAction::Other { .. } => {},
        }
        assert(s@ =~= "Output actions:\n----------------\n"@ + actions_chars(acts@, i + 1));
        i += 1;
    }
    s
}

} // verus!
