use sol2sol::address::Address;
use sol2sol::error::Sol2SolError;
use sol2sol::state::{
    pack_message_into, unpack_message_from, SolBox, FIXED_MSG_SIZE, SOL_BOX_LEN,
    SOL_BOX_NUM_SPOTS,
};

fn addr(b: u8) -> Address {
    Address::new([b; 32])
}

#[test]
fn test_sol_box_state() {
    let owner = addr(1);
    let num_spots = 20;
    let num_in_use = 3;
    let is_initialized = true;
    let next_box = addr(2);
    let prev_box = addr(3);
    let address1 = addr(4);
    let address2 = addr(5);
    let address3 = addr(6);
    let null_pubkey = SolBox::get_null_key();
    let message_slots = [
        address1,
        address2,
        address3,
        null_pubkey,
        null_pubkey,
        null_pubkey,
        null_pubkey,
        null_pubkey,
        null_pubkey,
        null_pubkey,
        null_pubkey,
        null_pubkey,
        null_pubkey,
        null_pubkey,
        null_pubkey,
        null_pubkey,
        null_pubkey,
        null_pubkey,
        null_pubkey,
        null_pubkey,
    ];
    let init_box = SolBox {
        owner,
        next_box,
        prev_box,
        num_in_use,
        num_spots,
        is_initialized,
        message_slots,
    };

    let mut dst = vec![0u8; SOL_BOX_LEN];
    init_box.pack_into_slice(&mut dst);

    let recreated_box = SolBox::unpack_from_slice(&dst).unwrap();
    assert_eq!(init_box, recreated_box);
}

#[test]
fn test_message_state() {
    let recipient = addr(7);
    let sender = addr(8);
    let msg_size: u32 = 6;
    let msg_string: String = "penis!".to_string();
    let mut dst = vec![0u8; FIXED_MSG_SIZE + 6];
    pack_message_into(&recipient, &sender, msg_size, &msg_string, &mut dst);

    let (rec_recipient, rec_sender, rec_msg_size, rec_msg_string) =
        unpack_message_from(&dst).unwrap();
    assert_eq!(recipient, rec_recipient);
    assert_eq!(sender, rec_sender);
    assert_eq!(msg_size, rec_msg_size);
    assert_eq!(msg_string, rec_msg_string);
}

#[test]
fn test_capacity_mismatch_rejected() {
    let init_box = SolBox {
        owner: addr(1),
        next_box: addr(2),
        prev_box: addr(3),
        num_spots: 20,
        num_in_use: 0,
        is_initialized: true,
        message_slots: SolBox::get_empty_message_slots(),
    };
    let mut dst = vec![0u8; SOL_BOX_LEN];
    init_box.pack_into_slice(&mut dst);
    // The capacity field sits at bytes 96..100, little-endian 20.
    assert_eq!(dst[96], 20);
    dst[96] = 19;
    let err = SolBox::unpack_from_slice(&dst).unwrap_err();
    assert_eq!(err, Sol2SolError::InvalidAccountData);
}

#[test]
fn test_bad_flag_byte_rejected() {
    let init_box = SolBox {
        owner: addr(1),
        next_box: addr(2),
        prev_box: addr(3),
        num_spots: 20,
        num_in_use: 0,
        is_initialized: false,
        message_slots: SolBox::get_empty_message_slots(),
    };
    let mut dst = vec![0u8; SOL_BOX_LEN];
    init_box.pack_into_slice(&mut dst);
    assert_eq!(dst[104], 0);
    dst[104] = 7;
    let err = SolBox::unpack_from_slice(&dst).unwrap_err();
    assert_eq!(err, Sol2SolError::InvalidAccountData);
}

#[test]
fn test_record_trailing_bytes_ignored() {
    let init_box = SolBox {
        owner: addr(1),
        next_box: addr(2),
        prev_box: addr(3),
        num_spots: 20,
        num_in_use: 5,
        is_initialized: true,
        message_slots: SolBox::get_empty_message_slots(),
    };
    let mut dst = vec![0u8; SOL_BOX_LEN + 10];
    init_box.pack_into_slice(&mut dst);
    dst[SOL_BOX_LEN] = 0xab; // past the record; decoding must not read it
    let recreated = SolBox::unpack_from_slice(&dst).unwrap();
    assert_eq!(init_box, recreated);
}

#[test]
fn test_truncated_record_rejected() {
    let dst = vec![0u8; SOL_BOX_LEN - 1];
    let err = SolBox::unpack_from_slice(&dst).unwrap_err();
    assert_eq!(err, Sol2SolError::InvalidInstructionData);
}

#[test]
fn test_truncated_message_rejected() {
    let dst = vec![0u8; FIXED_MSG_SIZE - 1];
    let err = unpack_message_from(&dst).unwrap_err();
    assert_eq!(err, Sol2SolError::InvalidInstructionData);
}

#[test]
fn test_message_invalid_utf8_rejected() {
    let mut dst = vec![0u8; FIXED_MSG_SIZE + 2];
    dst[64] = 2; // declared size 2, little-endian
    dst[68] = 0xff;
    dst[69] = 0xfe;
    let err = unpack_message_from(&dst).unwrap_err();
    assert_eq!(err, Sol2SolError::InvalidAccountData);
}

#[test]
fn test_message_non_ascii_round_trip() {
    let recipient = addr(9);
    let sender = addr(10);
    let msg_string: String = "h\u{e9}llo \u{2713}".to_string();
    let byte_len = msg_string.as_bytes().len();
    assert!(byte_len > msg_string.chars().count());
    let mut dst = vec![0u8; FIXED_MSG_SIZE + byte_len];
    pack_message_into(&recipient, &sender, byte_len as u32, &msg_string, &mut dst);
    let (_, _, rec_size, rec_msg) = unpack_message_from(&dst).unwrap();
    assert_eq!(rec_size as usize, byte_len);
    assert_eq!(msg_string, rec_msg);
}

#[test]
fn test_slot_allocation_order() {
    let null_key = SolBox::get_null_key();
    let mut slots = SolBox::get_empty_message_slots();
    for i in 0..SOL_BOX_NUM_SPOTS {
        let key = Address::new([100 + i as u8; 32]);
        SolBox::add_message_to_sol_box(&mut slots, &key).unwrap();
        assert_eq!(slots[i], key);
        for j in (i + 1)..SOL_BOX_NUM_SPOTS {
            assert_eq!(slots[j], null_key);
        }
    }
    let snapshot = slots;
    let extra = Address::new([250; 32]);
    let err = SolBox::add_message_to_sol_box(&mut slots, &extra).unwrap_err();
    assert_eq!(err, Sol2SolError::SolBoxNoSpaceLeft);
    assert_eq!(snapshot, slots);
}

#[test]
fn test_free_message_slot() {
    let null_key = SolBox::get_null_key();
    let message_key = addr(42);
    let mut slots = SolBox::get_empty_message_slots();
    SolBox::add_message_to_sol_box(&mut slots, &message_key).unwrap();
    let mut sol_box = SolBox {
        owner: addr(1),
        next_box: addr(2),
        prev_box: addr(3),
        num_spots: 20,
        num_in_use: 1,
        is_initialized: true,
        message_slots: slots,
    };
    sol_box.free_message_slot(&message_key).unwrap();
    assert_eq!(sol_box.message_slots[0], null_key);
    assert_eq!(sol_box.num_in_use, 0);

    let err = sol_box.free_message_slot(&message_key).unwrap_err();
    assert_eq!(err, Sol2SolError::InvalidInstructionData);
    assert_eq!(sol_box.num_in_use, 0);
}
