//! Rendering the post-execution report: addresses, message headers and
//! whole messages as human-readable text. Numbers are rendered by the
//! library's own verified decimal and hexadecimal formatters; only the
//! final step from ASCII bytes to an owned string is trusted.

use vstd::prelude::*;
use crate::cell::Cell;
use crate::message::{
    CommonMsgInfo, Message, MsgAddressExt, MsgAddressInt, ExternalInboundMessageHeader,
    ExternalOutboundMessageHeader, InternalMessageHeader,
};

verus! {

/// The decimal digits of `n`, as ASCII bytes, most significant first,
/// no sign and no leading zeros (a lone zero for zero).
pub open spec fn dec_digits(n: nat) -> Seq<u8>
    decreases n,
{
    if n < 10 {
        seq![(48 + n) as u8]
    } else {
        dec_digits(n / 10) + seq![(48 + n % 10) as u8]
    }
}

/// The decimal form of a signed value: a leading minus for negatives.
pub open spec fn dec_signed(n: int) -> Seq<u8> {
    if n < 0 {
        seq![45u8] + dec_digits((-n) as nat)
    } else {
        dec_digits(n as nat)
    }
}

/// One hexadecimal digit, uppercase, as an ASCII byte.
pub open spec fn hex_digit(d: u8) -> u8 {
    if d < 10 {
        (48 + d) as u8
    } else {
        (55 + d) as u8
    }
}

/// The bytes of `bs` as uppercase hexadecimal, two digits per byte.
pub open spec fn hex_bytes(bs: Seq<u8>) -> Seq<u8>
    decreases bs.len(),
{
    if bs.len() == 0 {
        Seq::empty()
    } else {
        hex_bytes(bs.drop_last()) + seq![hex_digit(bs.last() / 16), hex_digit(bs.last() % 16)]
    }
}

/// ASCII bytes read as characters, one to one.
pub open spec fn ascii_view(bytes: Seq<u8>) -> Seq<char> {
    Seq::new(bytes.len(), |i: int| bytes[i] as char)
}

/// The decimal rendering of an unsigned value.
pub open spec fn dec_chars(n: nat) -> Seq<char> {
    ascii_view(dec_digits(n))
}

/// The decimal rendering of a signed value.
pub open spec fn dec_chars_signed(n: int) -> Seq<char> {
    ascii_view(dec_signed(n))
}

/// The uppercase hexadecimal rendering of a byte string.
pub open spec fn hex_chars(bs: Seq<u8>) -> Seq<char> {
    ascii_view(hex_bytes(bs))
}

/// Decimal digits are ASCII.
proof fn lemma_dec_digits_ascii(n: nat)
    ensures
        forall|i: int| 0 <= i < dec_digits(n).len() ==> dec_digits(n)[i] < 128,
    decreases n,
{
    if n < 10 {
        assert(dec_digits(n) == seq![(48 + n) as u8]);
        assert(dec_digits(n)[0] < 128);
    } else {
        lemma_dec_digits_ascii(n / 10);
        assert forall|i: int| 0 <= i < dec_digits(n).len() implies dec_digits(n)[i] < 128 by {
            if i < dec_digits(n / 10).len() {
                assert(dec_digits(n)[i] == dec_digits(n / 10)[i]);
            } else {
                assert(dec_digits(n)[i] == (48 + n % 10) as u8);
            }
        }
    }
}

/// Hexadecimal digits are ASCII.
proof fn lemma_hex_bytes_ascii(bs: Seq<u8>)
    ensures
        forall|i: int| 0 <= i < hex_bytes(bs).len() ==> hex_bytes(bs)[i] < 128,
    decreases bs.len(),
{
    if bs.len() > 0 {
        lemma_hex_bytes_ascii(bs.drop_last());
        let prefix = hex_bytes(bs.drop_last());
        assert forall|i: int| 0 <= i < hex_bytes(bs).len() implies hex_bytes(bs)[i] < 128 by {
            if i < prefix.len() {
                assert(hex_bytes(bs)[i] == prefix[i]);
            } else if i == prefix.len() {
                assert(hex_bytes(bs)[i] == hex_digit(bs.last() / 16));
            } else {
                assert(hex_bytes(bs)[i] == hex_digit(bs.last() % 16));
            }
        }
    }
}

/// Relies on String::from_utf8: ASCII bytes are valid UTF-8, and each
/// ASCII byte decodes to the character of the same value.
#[verifier::external_body]
fn ascii_string(bytes: Vec<u8>) -> (r: String)
    requires
        forall|i: int| 0 <= i < bytes@.len() ==> bytes@[i] < 128,
    ensures
        r@ == ascii_view(bytes@),
{
    String::from_utf8(bytes).unwrap_or_default()
}

/// Appends the decimal digits of `x` to `out`.
fn push_dec_bytes(out: &mut Vec<u8>, x: u128)
    ensures
        final(out)@ == old(out)@ + dec_digits(x as nat),
    decreases x,
{
    if x < 10 {
        out.push((48 + x as u8) as u8);
        assert(out@ =~= old(out)@ + dec_digits(x as nat));
    } else {
        push_dec_bytes(out, x / 10);
        out.push((48 + (x % 10) as u8) as u8);
        assert(out@ =~= old(out)@ + dec_digits(x as nat));
    }
}

/// Appends the decimal rendering of `x` to `s`.
fn append_dec(s: &mut String, x: u128)
    ensures
        final(s)@ == old(s)@ + dec_chars(x as nat),
{
    let mut buf: Vec<u8> = Vec::new();
    push_dec_bytes(&mut buf, x);
    proof {
        lemma_dec_digits_ascii(x as nat);
    }
    let t = ascii_string(buf);
    s.append(t.as_str());
}

/// Appends the decimal rendering of the signed `x` to `s`.
fn append_dec_signed(s: &mut String, x: i64)
    ensures
        final(s)@ == old(s)@ + dec_chars_signed(x as int),
{
    let mut buf: Vec<u8> = Vec::new();
    let mag: u128 = if x < 0 {
        buf.push(45);
        (-(x as i128)) as u128
    } else {
        x as u128
    };
    push_dec_bytes(&mut buf, mag);
    proof {
        lemma_dec_digits_ascii(mag as nat);
        assert(buf@ =~= dec_signed(x as int));
    }
    let t = ascii_string(buf);
    s.append(t.as_str());
}

/// Appends the uppercase hexadecimal rendering of `bs` to `s`.
fn append_hex(s: &mut String, bs: &Vec<u8>)
    ensures
        final(s)@ == old(s)@ + hex_chars(bs@),
{
    let mut buf: Vec<u8> = Vec::new();
    let mut i: usize = 0;
    while i < bs.len()
        invariant
            i <= bs@.len(),
            buf@ == hex_bytes(bs@.take(i as int)),
        decreases bs@.len() - i,
    {
        let b = bs[i];
        buf.push(if b / 16 < 10 {
            48 + b / 16
        } else {
            55 + b / 16
        });
        buf.push(if b % 16 < 10 {
            48 + b % 16
        } else {
            55 + b % 16
        });
        proof {
            assert(bs@.take(i + 1).drop_last() =~= bs@.take(i as int));
            assert(bs@.take(i + 1).last() == bs@[i as int]);
            assert(buf@ =~= hex_bytes(bs@.take(i + 1)));
        }
        i += 1;
    }
    proof {
        assert(bs@.take(bs@.len() as int) =~= bs@);
        lemma_hex_bytes_ascii(bs@);
    }
    let t = ascii_string(buf);
    s.append(t.as_str());
}

/// The rendering of an in-chain address: the workchain in decimal, a
/// colon, then the account id or bit string in uppercase hexadecimal.
pub open spec fn int_address_chars(addr: MsgAddressInt) -> Seq<char> {
    match addr {
        MsgAddressInt::AddrStd { workchain_id, address, .. } => dec_chars_signed(
            workchain_id as int,
        ) + ":"@ + hex_chars(address@),
        MsgAddressInt::AddrVar { workchain_id, address, .. } => dec_chars_signed(
            workchain_id as int,
        ) + ":"@ + hex_chars(address@),
    }
}

/// Renders an in-chain address as `<workchain>:<hex>`.
pub fn render_int_address(addr: &MsgAddressInt) -> (s: String)
    ensures
        s@ == int_address_chars(*addr),
{
    let mut s = String::new();
    match addr {
        MsgAddressInt::AddrStd { workchain_id, address, .. } => {
            append_dec_signed(&mut s, *workchain_id as i64);
            s.append(":");
            append_hex(&mut s, address);
        },
        MsgAddressInt::AddrVar { workchain_id, address, .. } => {
            append_dec_signed(&mut s, *workchain_id as i64);
            s.append(":");
            append_hex(&mut s, address);
        },
    }
    s
}

/// The rendering of a byte string: uppercase hexadecimal.
pub fn render_bitstring(bits: &Vec<u8>) -> (s: String)
    ensures
        s@ == hex_chars(bits@),
{
    let mut s = String::new();
    append_hex(&mut s, bits);
    s
}

/// The rendering of an out-of-chain address: the fixed `AddrNone` text,
/// or the external bit pattern in uppercase hexadecimal.
pub open spec fn ext_address_chars(addr: MsgAddressExt) -> Seq<char> {
    match addr {
        MsgAddressExt::AddrNone => "AddrNone"@,
        MsgAddressExt::AddrExtern { address } => hex_chars(address@),
    }
}

/// Renders an out-of-chain address.
pub fn render_ext_address(addr: &MsgAddressExt) -> (s: String)
    ensures
        s@ == ext_address_chars(*addr),
{
    match addr {
        MsgAddressExt::AddrNone => {
            let mut s = String::new();
            s.append("AddrNone");
            s
        },
        MsgAddressExt::AddrExtern { address } => {
            let mut s = String::new();
            append_hex(&mut s, address);
            s
        },
    }
}

/// The rendering of a boolean flag.
pub open spec fn bool_chars(b: bool) -> Seq<char> {
    if b {
        "true"@
    } else {
        "false"@
    }
}

/// The rendering of an internal-transfer header: each field's value on
/// its own labeled line, in this fixed order.
pub open spec fn int_header_chars(h: InternalMessageHeader) -> Seq<char> {
    "   ihr_disabled: "@ + bool_chars(h.ihr_disabled) + "\n"@ + "   bounce      : "@
        + bool_chars(h.bounce) + "\n"@ + "   bounced     : "@ + bool_chars(h.bounced) + "\n"@
        + "   source      : "@ + int_address_chars(h.src) + "\n"@ + "   destination : "@
        + int_address_chars(h.dst) + "\n"@ + "   value       : "@ + dec_chars(h.value as nat)
        + "\n"@ + "   ihr_fee     : "@ + dec_chars(h.ihr_fee as nat) + "\n"@ + "   fwd_fee     : "@
        + dec_chars(h.fwd_fee as nat) + "\n"@ + "   created_lt  : "@ + dec_chars(
        h.created_lt as nat,
    ) + "\n"@ + "   created_at  : "@ + dec_chars(h.created_at as nat) + "\n"@
}

/// The rendering of an external-inbound header.
pub open spec fn ext_in_header_chars(h: ExternalInboundMessageHeader) -> Seq<char> {
    "   source      : "@ + ext_address_chars(h.src) + "\n"@ + "   destination : "@
        + int_address_chars(h.dst) + "\n"@ + "   import_fee  : "@ + dec_chars(h.import_fee as nat)
        + "\n"@
}

/// The rendering of an external-outbound header.
pub open spec fn ext_out_header_chars(h: ExternalOutboundMessageHeader) -> Seq<char> {
    "   source      : "@ + int_address_chars(h.src) + "\n"@ + "   destination : "@
        + ext_address_chars(h.dst) + "\n"@ + "   created_lt  : "@ + dec_chars(h.created_lt as nat)
        + "\n"@ + "   created_at  : "@ + dec_chars(h.created_at as nat) + "\n"@
}

/// The rendering of any header, by its variant.
pub open spec fn msg_header_chars(h: CommonMsgInfo) -> Seq<char> {
    match h {
        CommonMsgInfo::IntMsgInfo(h) => int_header_chars(h),
        CommonMsgInfo::ExtInMsgInfo(h) => ext_in_header_chars(h),
        CommonMsgInfo::ExtOutMsgInfo(h) => ext_out_header_chars(h),
    }
}

/// Appends a labeled boolean line.
fn append_bool(s: &mut String, b: bool)
    ensures
        final(s)@ == old(s)@ + bool_chars(b),
{
    if b {
        s.append("true");
    } else {
        s.append("false");
    }
}

/// Renders a message header: the fields of its variant, one labeled
/// line each, in the fixed order.
pub fn render_msg_header(header: &CommonMsgInfo) -> (s: String)
    ensures
        s@ == msg_header_chars(*header),
{
    let mut s = String::new();
    match header {
        CommonMsgInfo::IntMsgInfo(h) => {
            s.append("   ihr_disabled: ");
            append_bool(&mut s, h.ihr_disabled);
            s.append("\n");
            s.append("   bounce      : ");
            append_bool(&mut s, h.bounce);
            s.append("\n");
            s.append("   bounced     : ");
            append_bool(&mut s, h.bounced);
            s.append("\n");
            s.append("   source      : ");
            let src = render_int_address(&h.src);
            s.append(src.as_str());
            s.append("\n");
            s.append("   destination : ");
            let dst = render_int_address(&h.dst);
            s.append(dst.as_str());
            s.append("\n");
            s.append("   value       : ");
            append_dec(&mut s, h.value);
            s.append("\n");
            s.append("   ihr_fee     : ");
            append_dec(&mut s, h.ihr_fee);
            s.append("\n");
            s.append("   fwd_fee     : ");
            append_dec(&mut s, h.fwd_fee);
            s.append("\n");
            s.append("   created_lt  : ");
            append_dec(&mut s, h.created_lt as u128);
            s.append("\n");
            s.append("   created_at  : ");
            append_dec(&mut s, h.created_at as u128);
            s.append("\n");
            assert(s@ =~= msg_header_chars(*header));
        },
        CommonMsgInfo::ExtInMsgInfo(h) => {
            s.append("   source      : ");
            let src = render_ext_address(&h.src);
            s.append(src.as_str());
            s.append("\n");
            s.append("   destination : ");
            let dst = render_int_address(&h.dst);
            s.append(dst.as_str());
            s.append("\n");
            s.append("   import_fee  : ");
            append_dec(&mut s, h.import_fee);
            s.append("\n");
            assert(s@ =~= msg_header_chars(*header));
        },
        CommonMsgInfo::ExtOutMsgInfo(h) => {
            s.append("   source      : ");
            let src = render_int_address(&h.src);
            s.append(src.as_str());
            s.append("\n");
            s.append("   destination : ");
            let dst = render_ext_address(&h.dst);
            s.append(dst.as_str());
            s.append("\n");
            s.append("   created_lt  : ");
            append_dec(&mut s, h.created_lt as u128);
            s.append("\n");
            s.append("   created_at  : ");
            append_dec(&mut s, h.created_at as u128);
            s.append("\n");
            assert(s@ =~= msg_header_chars(*header));
        },
    }
    s
}

/// The rendering of an optional tree: the fixed absent text, or the
/// root's content bytes in uppercase hexadecimal. An absent tree is
/// rendered, never an error.
pub open spec fn opt_cell_chars(o: Option<Cell>) -> Seq<char> {
    match o {
        None => "None"@,
        Some(c) => "Some("@ + hex_chars(c@.data) + ")"@,
    }
}

/// Renders an optional tree.
fn render_opt_cell(o: &Option<Cell>) -> (s: String)
    ensures
        s@ == opt_cell_chars(*o),
{
    let mut s = String::new();
    match o {
        None => {
            s.append("None");
        },
        Some(c) => {
            s.append("Some(");
            append_hex(&mut s, &c.data);
            s.append(")");
            proof {
                assert(c@.data == c.data@);
            }
        },
    }
    s
}

/// The rendering of a whole message: the header lines, then the init
/// and body references, each labeled, each graceful when absent.
pub open spec fn message_chars(m: Message) -> Seq<char> {
    "message header\n"@ + msg_header_chars(m.header) + "init  : "@ + opt_cell_chars(m.init) + "\n"@
        + "body  : "@ + opt_cell_chars(m.body) + "\n"@
}

/// Renders a whole message, as the report shows a sent message.
pub fn render_message(msg: &Message) -> (s: String)
    ensures
        s@ == message_chars(*msg),
{
    let mut s = String::new();
    s.append("message header\n");
    let hdr = render_msg_header(&msg.header);
    s.append(hdr.as_str());
    s.append("init  : ");
    let init = render_opt_cell(&msg.init);
    s.append(init.as_str());
    s.append("\n");
    s.append("body  : ");
    let body = render_opt_cell(&msg.body);
    s.append(body.as_str());
    s.append("\n");
    assert(s@ =~= message_chars(*msg));
    s
}

/// The rendering of the termination line that leads the report.
pub open spec fn exit_line_chars(code: int) -> Seq<char> {
    "TVM terminated with exit code "@ + dec_chars_signed(code)
}

/// Renders the termination line for the given exit code.
pub fn render_exit_line(code: i32) -> (s: String)
    ensures
        s@ == exit_line_chars(code as int),
{
    let mut s = String::new();
    s.append("TVM terminated with exit code ");
    append_dec_signed(&mut s, code as i64);
    s
}

} // verus!
