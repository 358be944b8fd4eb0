use testcall::actions::{build_action_list, decode_actions, message_from_cell, render_actions, OutAction};
use testcall::cell::Cell;
use testcall::codec::{parse_cell, serialize_cell};
use testcall::driver::{apply_root_register, exit_code, extract_code, extract_data, prepare_stack};
use testcall::image::{load_image, save_image, ContractImage};
use testcall::message::{
    create_external_inbound_msg, create_inbound_body, message_to_cell, CommonMsgInfo,
    ExternalOutboundMessageHeader, InternalMessageHeader, Message, MsgAddressExt, MsgAddressInt,
};
use testcall::registers::{initialize_registers, StackItem};
use testcall::report::{render_exit_line, render_int_address, render_ext_address, render_bitstring, render_message, render_msg_header};
use testcall::signer::{body_digest, sign_body};
use testcall::HarnessError;

fn create_internal_msg(src_addr: Vec<u8>, dst_addr: Vec<u8>) -> Message {
    let hdr = InternalMessageHeader {
        ihr_disabled: false,
        bounce: true,
        bounced: false,
        src: MsgAddressInt::AddrStd { anycast: None, workchain_id: -1, address: src_addr },
        dst: MsgAddressInt::AddrStd {
            anycast: Some(vec![0x98, 0x32, 0x17]),
            workchain_id: -1,
            address: dst_addr,
        },
        value: 4000,
        ihr_fee: 1000,
        fwd_fee: 0,
        created_lt: 54321,
        created_at: 123456789,
    };
    Message { header: CommonMsgInfo::IntMsgInfo(hdr), init: None, body: None }
}

#[test]
fn test_msg_print() {
    let msg = create_external_inbound_msg(
        &vec![0x11; 32],
        Some(create_inbound_body(10, 20, 0x11223344)),
    );

    let msg2 = create_internal_msg(vec![0x11; 32], vec![0x22; 32]);

    println!("SendMsg action:\n{}", render_message(&msg));
    println!("SendMsg action:\n{}", render_message(&msg2));
}

#[test]
fn std_address_renders_as_workchain_colon_hex() {
    let addr = MsgAddressInt::AddrStd { anycast: None, workchain_id: -1, address: vec![0x11; 32] };
    assert_eq!(
        render_int_address(&addr),
        "-1:1111111111111111111111111111111111111111111111111111111111111111"
    );
}

#[test]
fn var_address_renders_as_workchain_colon_hex() {
    let addr = MsgAddressInt::AddrVar { anycast: None, workchain_id: 3, address: vec![0xab, 0x01] };
    assert_eq!(render_int_address(&addr), "3:AB01");
}

#[test]
fn ext_address_rendering() {
    assert_eq!(render_ext_address(&MsgAddressExt::AddrNone), "AddrNone");
    let e = MsgAddressExt::AddrExtern { address: vec![0x55; 8] };
    assert_eq!(render_ext_address(&e), "5555555555555555");
    assert_eq!(render_bitstring(&vec![0x98, 0x32, 0x17]), "983217");
}

#[test]
fn internal_header_renders_each_field_on_its_labeled_line() {
    let msg = create_internal_msg(vec![0x11; 32], vec![0x22; 32]);
    let text = render_msg_header(&msg.header);
    let expected = "   ihr_disabled: false\n   bounce      : true\n   bounced     : false\n   source      : -1:1111111111111111111111111111111111111111111111111111111111111111\n   destination : -1:2222222222222222222222222222222222222222222222222222222222222222\n   value       : 4000\n   ihr_fee     : 1000\n   fwd_fee     : 0\n   created_lt  : 54321\n   created_at  : 123456789\n";
    assert_eq!(text, expected);
}

#[test]
fn external_inbound_message_without_body_renders_gracefully() {
    let msg = create_external_inbound_msg(&vec![0x11; 32], None);
    let text = render_message(&msg);
    let expected = "message header\n   source      : 5555555555555555\n   destination : -1:1111111111111111111111111111111111111111111111111111111111111111\n   import_fee  : 4660\ninit  : None\nbody  : None\n";
    assert_eq!(text, expected);
}

#[test]
fn external_inbound_message_carries_its_body() {
    let body = create_inbound_body(10, 20, 0x11223344);
    assert_eq!(
        body.data,
        vec![0, 0x11, 0x22, 0x33, 0x44, 0, 0, 0, 10, 0, 0, 0, 20]
    );
    let msg = create_external_inbound_msg(&vec![0x11; 32], Some(body));
    assert!(msg.body.is_some());
    assert!(msg.init.is_none());
}

#[test]
fn load_then_save_is_identity_on_the_file() {
    // An image with no code and no data, as the build-without-execute path sees it.
    let metadata = Cell { data: vec![1, 2, 3], refs: vec![Cell { data: vec![], refs: vec![] }] };
    let img = ContractImage { code: None, data: None, metadata: Some(metadata) };
    let bytes = save_image(&img);
    let loaded = load_image(&bytes).expect("canonical bytes load");
    assert!(loaded.code.is_none());
    assert!(loaded.data.is_none());
    let again = save_image(&loaded);
    assert_eq!(bytes, again);
}

#[test]
fn empty_image_round_trip() {
    let img = ContractImage { code: None, data: None, metadata: None };
    let bytes = save_image(&img);
    assert_eq!(bytes, vec![0]);
    let loaded = load_image(&bytes).expect("empty image loads");
    let again = save_image(&loaded);
    assert_eq!(bytes, again);
}

#[test]
fn corrupt_image_is_rejected() {
    assert!(matches!(load_image(&vec![]), Err(HarnessError::CorruptImage)));
    assert!(matches!(load_image(&vec![9]), Err(HarnessError::CorruptImage)));
    // A presence byte that promises a code tree which is not there.
    assert!(matches!(load_image(&vec![1]), Err(HarnessError::CorruptImage)));
    // Trailing garbage after a complete image.
    assert!(matches!(load_image(&vec![0, 0]), Err(HarnessError::CorruptImage)));
}

#[test]
fn cell_codec_round_trip() {
    let tree = Cell {
        data: vec![7, 8],
        refs: vec![
            Cell { data: vec![], refs: vec![] },
            Cell { data: vec![9], refs: vec![Cell { data: vec![1], refs: vec![] }] },
        ],
    };
    let mut bytes: Vec<u8> = Vec::new();
    serialize_cell(&tree, &mut bytes);
    let (parsed, end) = parse_cell(&bytes, 0).expect("own serialization parses");
    assert_eq!(end, bytes.len());
    assert!(parsed.same_as(&tree));
}

#[test]
fn signature_envelope_is_prepended_untouched() {
    let mut body = create_inbound_body(10, 20, 0x11223344);
    let original_data = body.data.clone();
    let inner = Cell { data: vec![0xaa], refs: vec![] };
    body.refs.push(inner);
    let signature: Vec<u8> = (0u8..64).collect();
    let public_key: Vec<u8> = (100u8..132).collect();
    sign_body(&mut body, &signature, &public_key);
    // The leading reference decodes to exactly signature ++ public_key.
    let mut expected = signature.clone();
    expected.extend_from_slice(&public_key);
    assert_eq!(body.refs[0].data, expected);
    assert_eq!(body.refs[0].data.len(), 96);
    assert!(body.refs[0].refs.is_empty());
    // The body's own structure is untouched.
    assert_eq!(body.data, original_data);
    assert_eq!(body.refs.len(), 2);
    assert_eq!(body.refs[1].data, vec![0xaa]);
}

#[test]
fn body_digest_is_a_short_stable_digest_of_the_tree() {
    let body = create_inbound_body(10, 20, 0x11223344);
    let d1 = body_digest(&body);
    let d2 = body_digest(&body);
    assert_eq!(d1.len(), 32);
    assert_eq!(d1, d2);
    let other = create_inbound_body(10, 21, 0x11223344);
    assert_ne!(d1, body_digest(&other));
    // The digest is of the serialized tree, not the raw bytes handed back.
    let mut serialized: Vec<u8> = Vec::new();
    serialize_cell(&body, &mut serialized);
    assert_ne!(d1, serialized);
}

#[test]
fn registers_populate_every_expected_slot() {
    let code = Cell { data: vec![1, 2, 3], refs: vec![] };
    let data = Cell { data: vec![9], refs: vec![] };
    let regs = initialize_registers(code, data);
    assert_eq!(regs.slots.len(), 7);
    for i in [0usize, 1, 3, 4, 5, 6] {
        assert!(regs.slots[i].is_some(), "slot {} must be populated", i);
    }
    assert!(regs.slots[2].is_none());
    match &regs.slots[3] {
        Some(StackItem::Continuation(k)) => {
            assert_eq!(k.code.data, vec![1, 2, 3]);
        },
        _ => panic!("slot 3 must hold the code continuation"),
    }
    match &regs.slots[4] {
        Some(StackItem::Cell(c)) => {
            assert_eq!(c.data, vec![9]);
        },
        _ => panic!("slot 4 must hold the data cell"),
    }
    match &regs.slots[5] {
        Some(StackItem::Cell(c)) => {
            assert!(c.data.is_empty());
            assert_eq!(c.refs.len(), 1);
            // Identity address bytes, then the 16-byte placeholder balance.
            assert_eq!(c.refs[0].data.len(), 35 + 16);
            assert_eq!(*c.refs[0].data.last().unwrap(), (10000 % 256) as u8);
        },
        _ => panic!("slot 5 must hold the context cell"),
    }
}

#[test]
fn stack_layout_is_fixed() {
    let msg = create_external_inbound_msg(&vec![0x11; 32], None);
    let msg_cell = message_to_cell(&msg);
    let body = Cell { data: vec![], refs: vec![] };
    let stack = prepare_stack(msg_cell, body);
    assert_eq!(stack.len(), 5);
    assert!(matches!(stack[0], StackItem::Int(0)));
    assert!(matches!(stack[1], StackItem::Int(0)));
    assert!(matches!(stack[2], StackItem::Cell(_)));
    assert!(matches!(stack[3], StackItem::Slice(_)));
    assert!(matches!(stack[4], StackItem::Int(-1)));
}

#[test]
fn exit_code_is_zero_without_exception_and_the_exception_number_with_one() {
    assert_eq!(exit_code(None), 0);
    assert_eq!(exit_code(Some(60)), 60);
    assert_eq!(render_exit_line(0), "TVM terminated with exit code 0");
    assert_eq!(render_exit_line(60), "TVM terminated with exit code 60");
}

#[test]
fn data_is_persisted_even_after_an_exception() {
    let mut img = ContractImage { code: None, data: None, metadata: None };
    // The engine raised an exception: the run still persists the root register.
    let code = exit_code(Some(13));
    assert_eq!(code, 13);
    let root = StackItem::Cell(Cell { data: vec![4, 2], refs: vec![] });
    apply_root_register(&mut img, root).expect("a cell root is applied");
    assert_eq!(img.data.as_ref().unwrap().data, vec![4, 2]);
}

#[test]
fn non_cell_root_register_is_a_harness_failure() {
    let mut img = ContractImage { code: None, data: None, metadata: None };
    let r = apply_root_register(&mut img, StackItem::Int(5));
    assert_eq!(r, Err(HarnessError::RootNotCell));
    assert!(img.data.is_none());
}

#[test]
fn missing_code_and_data_default_to_empty_trees() {
    let img = ContractImage { code: None, data: None, metadata: None };
    let code = extract_code(&img);
    let data = extract_data(&img);
    assert!(code.data.is_empty() && code.refs.is_empty());
    assert!(data.data.is_empty() && data.refs.is_empty());
}

#[test]
fn message_cell_round_trip() {
    let msg = create_internal_msg(vec![0x11; 32], vec![0x22; 32]);
    let cell = message_to_cell(&msg);
    let back = message_from_cell(&cell).expect("own encoding decodes");
    assert_eq!(render_message(&back), render_message(&msg));
    match back.header {
        CommonMsgInfo::IntMsgInfo(h) => {
            assert!(h.bounce && !h.bounced && !h.ihr_disabled);
            assert_eq!(h.value, 4000);
            assert_eq!(h.ihr_fee, 1000);
            assert_eq!(h.created_lt, 54321);
            assert_eq!(h.created_at, 123456789);
            match h.dst {
                MsgAddressInt::AddrStd { anycast, .. } => {
                    assert_eq!(anycast, Some(vec![0x98, 0x32, 0x17]));
                },
                _ => panic!("destination must stay standard"),
            }
        },
        _ => panic!("an internal header must decode as internal"),
    }
}

#[test]
fn external_outbound_message_cell_round_trip() {
    let hdr = ExternalOutboundMessageHeader {
        src: MsgAddressInt::AddrStd { anycast: None, workchain_id: 0, address: vec![0x33; 32] },
        dst: MsgAddressExt::AddrExtern { address: vec![0xcd, 0xef] },
        created_lt: 7,
        created_at: 8,
    };
    let msg = Message {
        header: CommonMsgInfo::ExtOutMsgInfo(hdr),
        init: None,
        body: Some(Cell { data: vec![0xbb], refs: vec![] }),
    };
    let cell = message_to_cell(&msg);
    let back = message_from_cell(&cell).expect("own encoding decodes");
    assert_eq!(render_message(&back), render_message(&msg));
    assert_eq!(back.body.as_ref().unwrap().data, vec![0xbb]);
}

#[test]
fn action_list_decodes_in_order_and_renders_send_messages_only() {
    let msg = create_internal_msg(vec![0x11; 32], vec![0x22; 32]);
    let acts = vec![
        OutAction::SendMsg { mode: 3, out_msg: msg },
        OutAction::SetCode { new_code: Cell { data: vec![1], refs: vec![] } },
    ];
    let chain = build_action_list(&acts);
    let decoded = decode_actions(&chain).expect("own encoding decodes");
    assert_eq!(decoded.len(), 2);
    match &decoded[0] {
        OutAction::SendMsg { mode, out_msg } => {
            assert_eq!(*mode, 3);
            assert!(matches!(out_msg.header, CommonMsgInfo::IntMsgInfo(_)));
        },
        _ => panic!("the first action must be the send"),
    }
    assert!(matches!(&decoded[1], OutAction::SetCode { .. }));
    let text = render_actions(&decoded);
    assert!(text.starts_with("Output actions:\n----------------\n"));
    assert_eq!(text.matches("Action(SendMsg):\n").count(), 1);
    assert!(text.contains("   value       : 4000\n"));
}

#[test]
fn empty_action_list_decodes_to_no_actions() {
    let chain = Cell { data: vec![], refs: vec![] };
    let decoded = decode_actions(&chain).expect("the empty chain decodes");
    assert!(decoded.is_empty());
    assert_eq!(render_actions(&decoded), "Output actions:\n----------------\n");
}

#[test]
fn corrupt_action_list_is_a_decoding_error() {
    // A node with content but no chain link cannot carry any action.
    let bad = Cell { data: vec![1, 2, 3], refs: vec![] };
    assert!(matches!(decode_actions(&bad), Err(HarnessError::CorruptActionList)));
    // A send-message node whose message cell is garbage.
    let bad_send = Cell {
        data: vec![0x0e, 0xc3, 0xc8, 0x6d, 0],
        refs: vec![
            Cell { data: vec![], refs: vec![] },
            Cell { data: vec![7], refs: vec![] },
        ],
    };
    assert!(matches!(decode_actions(&bad_send), Err(HarnessError::CorruptActionList)));
}

#[test]
fn unknown_action_is_decoded_and_skipped_in_rendering() {
    let node = Cell {
        data: vec![9, 9, 9],
        refs: vec![
            Cell { data: vec![], refs: vec![] },
            Cell { data: vec![0xab], refs: vec![] },
        ],
    };
    let decoded = decode_actions(&node).expect("an unknown action still decodes");
    assert_eq!(decoded.len(), 1);
    match &decoded[0] {
        OutAction::Other { raw } => {
            assert_eq!(raw.data, vec![9, 9, 9]);
            assert_eq!(raw.refs.len(), 1);
            assert_eq!(raw.refs[0].data, vec![0xab]);
        },
        _ => panic!("the node must decode as an unrecognized action"),
    }
    // The reporting gap is deliberate: nothing is rendered for it.
    assert_eq!(render_actions(&decoded), "Output actions:\n----------------\n");
}
