use sol2sol::address::Address;
use sol2sol::error::Sol2SolError;
use sol2sol::instruction::Sol2SolInstruction;

fn addr(b: u8) -> Address {
    Address::new([b; 32])
}

#[test]
fn test_instruction_parsing() {
    let msg_string: String = "hello world!".to_owned();
    let init_msg_string = msg_string.clone();
    let msg_size: u32 = msg_string.len() as u32;
    let sender = addr(1);
    let recipient = addr(2);
    let sol_box_id = addr(3);
    let instruction = Sol2SolInstruction::WriteMessage {
        sender,
        recipient,
        sol_box_id,
        msg_size,
        msg_string,
    };
    let packed_vec = instruction.pack();
    assert_eq!(101 + msg_size as usize, packed_vec.len());
    assert_eq!(113, packed_vec.len());

    let recreated = Sol2SolInstruction::unpack(&packed_vec).unwrap();
    assert_eq!(instruction, recreated);
    match instruction {
        Sol2SolInstruction::WriteMessage { msg_string, .. } => {
            assert_eq!(init_msg_string, msg_string);
        }
        _ => {
            assert_eq!(0, 1);
        }
    }
}

#[test]
fn test_initialize_instruction_round_trip() {
    let instruction = Sol2SolInstruction::InitializeSolBox {
        owner: addr(4),
        num_spots: 20,
        next_box: addr(5),
        prev_box: addr(5),
    };
    let packed = instruction.pack();
    assert_eq!(packed.len(), 101);
    assert_eq!(packed[0], 0);
    let recreated = Sol2SolInstruction::unpack(&packed).unwrap();
    assert_eq!(instruction, recreated);
}

#[test]
fn test_delete_instruction_round_trip() {
    let instruction = Sol2SolInstruction::DeleteMessage {
        owner: addr(6),
        message_id: addr(7),
        sol_box_id: addr(8),
    };
    let packed = instruction.pack();
    assert_eq!(packed.len(), 97);
    assert_eq!(packed[0], 2);
    let recreated = Sol2SolInstruction::unpack(&packed).unwrap();
    assert_eq!(instruction, recreated);
}

#[test]
fn test_unknown_tag_rejected() {
    let bytes = vec![9u8; 101];
    let err = Sol2SolInstruction::unpack(&bytes).unwrap_err();
    assert_eq!(err, Sol2SolError::InvalidInstructionData);
}

#[test]
fn test_empty_buffer_rejected() {
    let bytes: Vec<u8> = Vec::new();
    let err = Sol2SolInstruction::unpack(&bytes).unwrap_err();
    assert_eq!(err, Sol2SolError::InvalidInstructionData);
}

#[test]
fn test_truncated_fixed_fields_rejected() {
    // Tag 0 needs 101 bytes in all; 100 is one short.
    let bytes = vec![0u8; 100];
    let err = Sol2SolInstruction::unpack(&bytes).unwrap_err();
    assert_eq!(err, Sol2SolError::InvalidInstructionData);
    // Tag 2 needs 97 bytes in all.
    let mut bytes = vec![0u8; 96];
    bytes[0] = 2;
    let err = Sol2SolInstruction::unpack(&bytes).unwrap_err();
    assert_eq!(err, Sol2SolError::InvalidInstructionData);
}

#[test]
fn test_truncated_message_payload_rejected() {
    // A write whose declared size runs past the buffer end.
    let mut bytes = vec![0u8; 103];
    bytes[0] = 1;
    bytes[97] = 3; // declares 3 message bytes; only 2 remain
    let err = Sol2SolInstruction::unpack(&bytes).unwrap_err();
    assert_eq!(err, Sol2SolError::InvalidInstructionData);
}

#[test]
fn test_instruction_invalid_utf8_rejected() {
    let mut bytes = vec![0u8; 103];
    bytes[0] = 1;
    bytes[97] = 2; // two payload bytes
    bytes[101] = 0xff;
    bytes[102] = 0xfe;
    let err = Sol2SolInstruction::unpack(&bytes).unwrap_err();
    assert_eq!(err, Sol2SolError::InvalidAccountData);
}

#[test]
fn test_write_instruction_non_ascii_round_trip() {
    let msg_string: String = "h\u{e9}llo \u{2713}".to_owned();
    let msg_size = msg_string.as_bytes().len() as u32;
    let instruction = Sol2SolInstruction::WriteMessage {
        sender: addr(11),
        recipient: addr(12),
        sol_box_id: addr(13),
        msg_size,
        msg_string: msg_string.clone(),
    };
    let packed = instruction.pack();
    assert_eq!(packed.len(), 101 + msg_size as usize);
    let recreated = Sol2SolInstruction::unpack(&packed).unwrap();
    match recreated {
        Sol2SolInstruction::WriteMessage { msg_string: recreated_msg, .. } => {
            assert_eq!(msg_string, recreated_msg);
        }
        _ => unreachable!(),
    }
}
