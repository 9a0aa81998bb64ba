use sol2sol::address::Address;
use sol2sol::error::Sol2SolError;
use sol2sol::instruction::Sol2SolInstruction;
use sol2sol::processor::{Processor, StorageRegion};
use sol2sol::state::{unpack_message_from, SolBox, FIXED_MSG_SIZE, SOL_BOX_LEN};

fn addr(b: u8) -> Address {
    Address::new([b; 32])
}

fn packed_box(owner: Address, next_box: Address, prev_box: Address, num_in_use: u32,
    message_slots: [Address; 20]) -> Vec<u8> {
    let sol_box = SolBox {
        owner,
        next_box,
        prev_box,
        num_spots: 20,
        num_in_use,
        is_initialized: true,
        message_slots,
    };
    let mut data = vec![0u8; SOL_BOX_LEN];
    sol_box.pack_into_slice(&mut data);
    data
}

#[test]
fn test_process_instruction_initializes_box() {
    let program_id = addr(1);
    let payer = addr(2);
    let box_id = addr(3);
    let null_key = SolBox::get_null_key();
    let instruction = Sol2SolInstruction::InitializeSolBox {
        owner: payer,
        num_spots: 20,
        next_box: box_id,
        prev_box: box_id,
    };
    let data = instruction.pack();
    let mut regions = vec![StorageRegion {
        key: box_id,
        owner: program_id,
        is_rent_exempt: true,
        data: vec![0u8; SOL_BOX_LEN],
    }];
    Processor::process_instruction(&program_id, &mut regions, &payer, &data).unwrap();
    let sol_box = SolBox::unpack_from_slice(&regions[0].data).unwrap();
    assert_eq!(sol_box.owner, payer);
    assert_eq!(sol_box.next_box, box_id);
    assert_eq!(sol_box.prev_box, box_id);
    assert_eq!(sol_box.num_spots, 20);
    assert_eq!(sol_box.num_in_use, 0);
    assert!(sol_box.is_initialized());
    for i in 0..20 {
        assert_eq!(sol_box.message_slots[i], null_key);
    }
}

#[test]
fn test_init_owner_mismatch_leaves_region_unchanged() {
    let program_id = addr(1);
    let payer = addr(2);
    let declared_owner = addr(9); // differs from the caller identity
    let box_id = addr(3);
    let mut region = StorageRegion {
        key: box_id,
        owner: program_id,
        is_rent_exempt: true,
        data: vec![0u8; SOL_BOX_LEN],
    };
    let before = region.data.clone();
    let err = Processor::process_init_sol_box(
        &program_id,
        &mut region,
        &payer,
        &declared_owner,
        20,
        &box_id,
        &box_id,
    )
    .unwrap_err();
    assert_eq!(err, Sol2SolError::OwnerMismatch);
    assert_eq!(before, region.data);
}

#[test]
fn test_init_region_authority_mismatch() {
    let program_id = addr(1);
    let other_program = addr(8);
    let payer = addr(2);
    let box_id = addr(3);
    let mut region = StorageRegion {
        key: box_id,
        owner: other_program,
        is_rent_exempt: true,
        data: vec![0u8; SOL_BOX_LEN],
    };
    let err = Processor::process_init_sol_box(
        &program_id, &mut region, &payer, &payer, 20, &box_id, &box_id,
    )
    .unwrap_err();
    assert_eq!(err, Sol2SolError::OwnerMismatch);
}

#[test]
fn test_init_not_rent_exempt() {
    let program_id = addr(1);
    let payer = addr(2);
    let box_id = addr(3);
    let mut region = StorageRegion {
        key: box_id,
        owner: program_id,
        is_rent_exempt: false,
        data: vec![0u8; SOL_BOX_LEN],
    };
    let err = Processor::process_init_sol_box(
        &program_id, &mut region, &payer, &payer, 20, &box_id, &box_id,
    )
    .unwrap_err();
    assert_eq!(err, Sol2SolError::InsufficientFunds);
}

#[test]
fn test_init_invalid_num_spots() {
    let program_id = addr(1);
    let payer = addr(2);
    let box_id = addr(3);
    let mut region = StorageRegion {
        key: box_id,
        owner: program_id,
        is_rent_exempt: true,
        data: vec![0u8; SOL_BOX_LEN],
    };
    let err = Processor::process_init_sol_box(
        &program_id, &mut region, &payer, &payer, 19, &box_id, &box_id,
    )
    .unwrap_err();
    assert_eq!(err, Sol2SolError::SolBoxInvalidNumSpots);
}

#[test]
fn test_write_message_fills_first_slot() {
    let program_id = addr(1);
    let payer = addr(2);
    let box_id = addr(3);
    let message_id = addr(4);
    let sender = payer;
    let recipient = addr(5);
    let null_key = SolBox::get_null_key();
    let text: String = "hello world!".to_string();
    let msg_size = text.len() as u32;

    let mut message_region = StorageRegion {
        key: message_id,
        owner: program_id,
        is_rent_exempt: true,
        data: vec![0u8; FIXED_MSG_SIZE + text.len()],
    };
    let mut box_region = StorageRegion {
        key: box_id,
        owner: program_id,
        is_rent_exempt: true,
        data: packed_box(payer, box_id, box_id, 0, SolBox::get_empty_message_slots()),
    };
    Processor::process_write_message(
        &program_id,
        &mut message_region,
        &mut box_region,
        &payer,
        &sender,
        &recipient,
        &box_id,
        msg_size,
        &text,
    )
    .unwrap();

    let sol_box = SolBox::unpack_from_slice(&box_region.data).unwrap();
    assert_eq!(sol_box.message_slots[0], message_id);
    for i in 1..20 {
        assert_eq!(sol_box.message_slots[i], null_key);
    }
    assert_eq!(sol_box.num_in_use, 1);

    let (rec_recipient, rec_sender, rec_size, rec_text) =
        unpack_message_from(&message_region.data).unwrap();
    assert_eq!(rec_recipient, recipient);
    assert_eq!(rec_sender, sender);
    assert_eq!(rec_size, msg_size);
    assert_eq!(rec_text, text);
}

#[test]
fn test_write_message_full_box_unchanged() {
    let program_id = addr(1);
    let payer = addr(2);
    let box_id = addr(3);
    let message_id = addr(4);
    let text: String = "hi".to_string();
    let full_slots = [addr(77); 20];

    let mut message_region = StorageRegion {
        key: message_id,
        owner: program_id,
        is_rent_exempt: true,
        data: vec![0u8; FIXED_MSG_SIZE + text.len()],
    };
    let mut box_region = StorageRegion {
        key: box_id,
        owner: program_id,
        is_rent_exempt: true,
        data: packed_box(payer, box_id, box_id, 20, full_slots),
    };
    let msg_before = message_region.data.clone();
    let box_before = box_region.data.clone();
    let err = Processor::process_write_message(
        &program_id,
        &mut message_region,
        &mut box_region,
        &payer,
        &payer,
        &addr(5),
        &box_id,
        text.len() as u32,
        &text,
    )
    .unwrap_err();
    assert_eq!(err, Sol2SolError::SolBoxNoSpaceLeft);
    assert_eq!(msg_before, message_region.data);
    assert_eq!(box_before, box_region.data);
}

#[test]
fn test_write_message_wrong_box_id() {
    let program_id = addr(1);
    let payer = addr(2);
    let box_id = addr(3);
    let text: String = "hi".to_string();
    let mut message_region = StorageRegion {
        key: addr(4),
        owner: program_id,
        is_rent_exempt: true,
        data: vec![0u8; FIXED_MSG_SIZE + text.len()],
    };
    let mut box_region = StorageRegion {
        key: box_id,
        owner: program_id,
        is_rent_exempt: true,
        data: packed_box(payer, box_id, box_id, 0, SolBox::get_empty_message_slots()),
    };
    let err = Processor::process_write_message(
        &program_id,
        &mut message_region,
        &mut box_region,
        &payer,
        &payer,
        &addr(5),
        &addr(6), // not the region the environment handed over
        text.len() as u32,
        &text,
    )
    .unwrap_err();
    assert_eq!(err, Sol2SolError::InvalidInstructionData);
}

#[test]
fn test_write_message_record_owner_mismatch() {
    let program_id = addr(1);
    let payer = addr(2);
    let record_owner = addr(9);
    let box_id = addr(3);
    let text: String = "hi".to_string();
    let mut message_region = StorageRegion {
        key: addr(4),
        owner: program_id,
        is_rent_exempt: true,
        data: vec![0u8; FIXED_MSG_SIZE + text.len()],
    };
    let mut box_region = StorageRegion {
        key: box_id,
        owner: program_id,
        is_rent_exempt: true,
        data: packed_box(record_owner, box_id, box_id, 0, SolBox::get_empty_message_slots()),
    };
    let err = Processor::process_write_message(
        &program_id,
        &mut message_region,
        &mut box_region,
        &payer,
        &payer,
        &addr(5),
        &box_id,
        text.len() as u32,
        &text,
    )
    .unwrap_err();
    assert_eq!(err, Sol2SolError::OwnerMismatch);
}

#[test]
fn test_write_then_delete_via_dispatch() {
    let program_id = addr(1);
    let payer = addr(2);
    let box_id = addr(3);
    let message_id = addr(4);
    let null_key = SolBox::get_null_key();
    let text: String = "bye".to_string();

    let write = Sol2SolInstruction::WriteMessage {
        sender: payer,
        recipient: addr(5),
        sol_box_id: box_id,
        msg_size: text.len() as u32,
        msg_string: text.clone(),
    };
    let write_data = write.pack();
    let mut regions = vec![
        StorageRegion {
            key: message_id,
            owner: program_id,
            is_rent_exempt: true,
            data: vec![0u8; FIXED_MSG_SIZE + text.len()],
        },
        StorageRegion {
            key: box_id,
            owner: program_id,
            is_rent_exempt: true,
            data: packed_box(payer, box_id, box_id, 0, SolBox::get_empty_message_slots()),
        },
    ];
    Processor::process_instruction(&program_id, &mut regions, &payer, &write_data).unwrap();
    let sol_box = SolBox::unpack_from_slice(&regions[1].data).unwrap();
    assert_eq!(sol_box.message_slots[0], message_id);
    assert_eq!(sol_box.num_in_use, 1);

    let delete = Sol2SolInstruction::DeleteMessage {
        owner: payer,
        message_id,
        sol_box_id: box_id,
    };
    let delete_data = delete.pack();
    let mut box_regions = vec![regions.remove(1)];
    Processor::process_instruction(&program_id, &mut box_regions, &payer, &delete_data)
        .unwrap();
    let sol_box = SolBox::unpack_from_slice(&box_regions[0].data).unwrap();
    assert_eq!(sol_box.message_slots[0], null_key);
    assert_eq!(sol_box.num_in_use, 0);

    // Deleting the same message again finds no slot holding it.
    let err = Processor::process_instruction(&program_id, &mut box_regions, &payer, &delete_data)
        .unwrap_err();
    assert_eq!(err, Sol2SolError::InvalidInstructionData);
}

#[test]
fn test_dispatch_rejects_malformed_bytes() {
    let program_id = addr(1);
    let payer = addr(2);
    let mut regions: Vec<StorageRegion> = Vec::new();
    let err = Processor::process_instruction(&program_id, &mut regions, &payer, &vec![9u8; 101])
        .unwrap_err();
    assert_eq!(err, Sol2SolError::InvalidInstructionData);
}

#[test]
fn test_dispatch_rejects_missing_regions() {
    let program_id = addr(1);
    let payer = addr(2);
    let box_id = addr(3);
    let instruction = Sol2SolInstruction::InitializeSolBox {
        owner: payer,
        num_spots: 20,
        next_box: box_id,
        prev_box: box_id,
    };
    let data = instruction.pack();
    let mut regions: Vec<StorageRegion> = Vec::new();
    let err = Processor::process_instruction(&program_id, &mut regions, &payer, &data)
        .unwrap_err();
    assert_eq!(err, Sol2SolError::InvalidInstructionData);
}

#[test]
fn test_error_codes() {
    assert_eq!(Sol2SolError::IncorrectSystemProgramAddress.code(), 0);
    assert_eq!(Sol2SolError::InvalidInstructionData.code(), 1);
    assert_eq!(Sol2SolError::SolBoxInvalidNumSpots.code(), 2);
    assert_eq!(Sol2SolError::InsufficientFunds.code(), 3);
    assert_eq!(Sol2SolError::InvalidAccountData.code(), 4);
    assert_eq!(Sol2SolError::SolBoxNoSpaceLeft.code(), 5);
    assert_eq!(Sol2SolError::OwnerMismatch.code(), 6);
}
